use foundations_telemetry::rewind::{RewindState, RewindTo, RewindableWriter};

#[test]
fn rewind_newline() {
    let mut writer = RewindableWriter::new(b"line 1\nline 2".to_vec());

    // No rewind initially
    writer.write_all(b" before rewind");
    assert_eq!(writer.out(), b"line 1\nline 2 before rewind");

    // Rewind is applied on next write
    writer.rewind_to(RewindTo::LastNewline);
    writer.write_all(b"different line\nafter rewind");
    assert_eq!(writer.out(), b"line 1\ndifferent line\nafter rewind");

    // Rewind is applied on flush
    writer.rewind_to(RewindTo::LastNewline);
    writer.flush();
    assert_eq!(writer.out(), b"line 1\ndifferent line\n");

    // Rewind is cleared after being applied above
    writer.write_all(b"after clear");

    let buf = writer.finish();
    assert_eq!(buf, b"line 1\ndifferent line\nafter clear");
}

#[test]
fn rewind_newline_on_drop() {
    let mut writer = RewindableWriter::new(Vec::new());
    writer.write_all(b"line 1\nline 2");

    // Rewind is also applied when the writer finishes
    writer.rewind_to(RewindTo::LastNewline);
    let buf = writer.finish();

    assert_eq!(buf, b"line 1\n");
}

#[test]
fn rewind_without_newline_keeps_everything() {
    let mut writer = RewindableWriter::new(b"no newline here".to_vec());
    writer.rewind_to(RewindTo::LastNewline);
    assert_eq!(writer.write(b"!"), 1);
    assert_eq!(writer.out(), b"no newline here!");
}

#[test]
fn rewind_to_nothing_changes_nothing() {
    let mut writer = RewindableWriter::new(b"a\nb".to_vec());
    writer.rewind_to(RewindTo::LastNewline);
    writer.rewind_to(RewindTo::Nothing);
    writer.flush();
    assert_eq!(writer.finish(), b"a\nb");
}

#[test]
fn state_hands_out_one_writer_at_a_time() {
    let mut state = RewindState::new();
    assert!(!state.is_active());
    let mut writer = state.activate(b"a\n".to_vec());
    assert!(state.is_active());
    writer.write_all(b"partial");
    writer.rewind_to(RewindTo::LastNewline);
    let buf = state.reset(writer);
    assert_eq!(buf, b"a\n");
    assert!(!state.is_active());
    let writer = state.activate(buf);
    assert_eq!(writer.out(), b"a\n");
}
