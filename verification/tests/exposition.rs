use foundations_telemetry::exposition::truncate_eof;

#[test]
fn trailing_eof_is_removed() {
    let mut b = b"# HELP x .\nx 1\n# EOF\n".to_vec();
    truncate_eof(&mut b);
    assert_eq!(b, b"# HELP x .\nx 1\n");
}

#[test]
fn other_endings_are_kept() {
    let mut b = b"x 1\n# EOF".to_vec();
    truncate_eof(&mut b);
    assert_eq!(b, b"x 1\n# EOF");
    let mut short = b"EOF\n".to_vec();
    truncate_eof(&mut short);
    assert_eq!(short, b"EOF\n");
    let mut only = b"# EOF\n".to_vec();
    truncate_eof(&mut only);
    assert!(only.is_empty());
}
