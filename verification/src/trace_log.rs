//! Active spans as a Chrome JSON trace log (the format of `about:tracing`).

use vstd::prelude::*;
use crate::formatting::{
    dec_digits, hex_digits, hex_number, push_all, push_dec, push_hex_padded, string_from_chars,
    zero_pad,
};
use crate::text::chars_of;
use crate::settings::LivenessTrackingSettings;
use crate::trace_context::{
    lemma_trace_id_text_identifies, lemma_trace_id_text_spells_the_id, trace_id_text, TraceState,
};

verus! {

/// A character as it stands inside a JSON string: `\"` and `\\` for the
/// quote and the backslash, `\b`, `\f`, `\n`, `\r` and `\t` for those
/// control characters, any other control character below 0x20 as `\u00`
/// and two lowercase hexadecimal digits, every other character as is.
pub open spec fn escape_char(c: char) -> Seq<char> {
    if c == '"' || c == '\\' {
        seq!['\\', c]
    } else if c == '\n' {
        seq!['\\', 'n']
    } else if c == '\r' {
        seq!['\\', 'r']
    } else if c == '\t' {
        seq!['\\', 't']
    } else if c as u32 == 0x08 {
        seq!['\\', 'b']
    } else if c as u32 == 0x0c {
        seq!['\\', 'f']
    } else if (c as u32) < 0x20 {
        seq!['\\', 'u', '0', '0'] + zero_pad(hex_digits(c as u32 as nat), 2)
    } else {
        seq![c]
    }
}

/// A text as the contents of a JSON string: each character escaped as
/// `escape_char` does.
pub open spec fn escape(s: Seq<char>) -> Seq<char>
    decreases s.len(),
{
    if s.len() == 0 {
        Seq::empty()
    } else {
        escape(s.drop_last()) + escape_char(s.last())
    }
}

fn push_escaped_char(out: &mut Vec<char>, c: char)
    ensures
        final(out)@ == old(out)@ + escape_char(c),
{
    let u = c as u32;
    if c == '"' || c == '\\' {
        out.push('\\');
        out.push(c);
    } else if c == '\n' {
        out.push('\\');
        out.push('n');
    } else if c == '\r' {
        out.push('\\');
        out.push('r');
    } else if c == '\t' {
        out.push('\\');
        out.push('t');
    } else if u == 0x08 {
        out.push('\\');
        out.push('b');
    } else if u == 0x0c {
        out.push('\\');
        out.push('f');
    } else if u < 0x20 {
        out.push('\\');
        out.push('u');
        out.push('0');
        out.push('0');
        push_hex_padded(out, u as u64, 2);
    } else {
        out.push(c);
    }
    assert(final(out)@ =~= old(out)@ + escape_char(c));
}

/// Appends `s` escaped for a JSON string to `out`.
fn push_escaped(out: &mut Vec<char>, s: &Vec<char>)
    ensures
        final(out)@ == old(out)@ + escape(s@),
{
    let ghost start = out@;
    let mut i: usize = 0;
    assert(s@.take(0) =~= Seq::<char>::empty());
    while i < s.len()
        invariant
            i <= s@.len(),
            out@ == start + escape(s@.take(i as int)),
        decreases s@.len() - i,
    {
        push_escaped_char(out, s[i]);
        assert(s@.take(i + 1).drop_last() =~= s@.take(i as int));
        i = i + 1;
        assert(out@ =~= start + escape(s@.take(i as int)));
    }
    assert(s@.take(s@.len() as int) =~= s@);
}

/// `s` escaped for a JSON string, as a `String`.
pub fn escape_str(s: &str) -> (r: String)
    ensures
        r@ == escape(s@),
{
    let chars = chars_of(s);
    let mut out: Vec<char> = Vec::new();
    push_escaped(&mut out, &chars);
    assert(out@ =~= escape(s@));
    string_from_chars(out)
}

#[derive(Copy, Clone, Debug, PartialEq, Eq, Structural)]
pub enum TraceEventType {
    Begin,
    End,
}

/// The phase letter of an event type.
pub open spec fn phase_text(t: TraceEventType) -> Seq<char> {
    match t {
        TraceEventType::Begin => "B"@,
        TraceEventType::End => "E"@,
    }
}

/// One event of the log, with its trailing comma.
pub open spec fn event_text(
    trace_id: Seq<char>,
    name: Seq<char>,
    category: Seq<char>,
    event_type: TraceEventType,
    timestamp_us: u64,
) -> Seq<char> {
    "{\"pid\":1,\"name\":\""@ + escape(name) + "\",\"cat\":\""@ + escape(category)
        + "\",\"ph\":\""@ + phase_text(event_type) + "\",\"ts\":"@ + dec_digits(
        timestamp_us as nat,
    ) + ",\"id\":\""@ + trace_id + "\"},"@
}

/// The closing instant event and bracket of the log.
pub open spec fn closing_text(end_timestamp: u64) -> Seq<char> {
    "{\"pid\":1,\"name\":\"Trace dump requested\",\"ph\":\"i\",\"ts\":"@ + dec_digits(
        end_timestamp as nat,
    ) + ",\"s\":\"g\"}"@ + "]"@
}

/// Builds a Chrome JSON trace log, one event at a time.
pub struct TraceLogBuilder {
    out: Vec<char>,
}

impl TraceLogBuilder {
    /// The text written so far.
    pub closed spec fn text(&self) -> Seq<char> {
        self.out@
    }

    /// A log with nothing but its opening bracket.
    pub fn new() -> (r: Self)
        ensures
            r.text() == "["@,
    {
        TraceLogBuilder { out: chars_of("[") }
    }

    /// Appends one event.
    pub fn write_event(
        &mut self,
        trace_id: &str,
        name: &str,
        category: &str,
        event_type: TraceEventType,
        timestamp_us: u64,
    )
        ensures
            final(self).text() == old(self).text() + event_text(
                trace_id@,
                name@,
                category@,
                event_type,
                timestamp_us,
            ),
    {
        let ghost start = self.out@;
        push_all(&mut self.out, &chars_of("{\"pid\":1,\"name\":\""));
        push_escaped(&mut self.out, &chars_of(name));
        push_all(&mut self.out, &chars_of("\",\"cat\":\""));
        push_escaped(&mut self.out, &chars_of(category));
        push_all(&mut self.out, &chars_of("\",\"ph\":\""));
        match event_type {
            TraceEventType::Begin => push_all(&mut self.out, &chars_of("B")),
            TraceEventType::End => push_all(&mut self.out, &chars_of("E")),
        }
        push_all(&mut self.out, &chars_of("\",\"ts\":"));
        push_dec(&mut self.out, timestamp_us);
        push_all(&mut self.out, &chars_of(",\"id\":\""));
        push_all(&mut self.out, &chars_of(trace_id));
        push_all(&mut self.out, &chars_of("\"},"));
        assert(self.out@ =~= start + event_text(
            trace_id@,
            name@,
            category@,
            event_type,
            timestamp_us,
        ));
    }

    /// Closes the log with an instant event at `end_timestamp` and returns it.
    pub fn finalize(self, end_timestamp: u64) -> (r: String)
        ensures
            r@ == self.text() + closing_text(end_timestamp),
    {
        let mut out = self.out;
        let ghost start = out@;
        push_all(
            &mut out,
            &chars_of("{\"pid\":1,\"name\":\"Trace dump requested\",\"ph\":\"i\",\"ts\":"),
        );
        push_dec(&mut out, end_timestamp);
        push_all(&mut out, &chars_of(",\"s\":\"g\"}"));
        push_all(&mut out, &chars_of("]"));
        assert(out@ =~= start + closing_text(end_timestamp));
        string_from_chars(out)
    }
}

/// A span that is still alive, as the trace dump reads it: its context's
/// state (`None` for a span without context), its name, and its start and
/// finish times in microseconds since the tracking began.
#[derive(Clone, Debug)]
pub struct LiveSpan {
    pub state: Option<TraceState>,
    pub name: String,
    pub start_us: u64,
    pub finish_us: Option<u64>,
}

/// A live span as values.
pub struct LiveSpanView {
    pub state: Option<TraceState>,
    pub name: Seq<char>,
    pub start_us: u64,
    pub finish_us: Option<u64>,
}

impl View for LiveSpan {
    type V = LiveSpanView;

    open spec fn view(&self) -> LiveSpanView {
        LiveSpanView {
            state: self.state,
            name: self.name@,
            start_us: self.start_us,
            finish_us: self.finish_us,
        }
    }
}

impl LiveSpan {
    /// A copy of the span.
    pub fn duplicate(&self) -> (r: Self)
        ensures
            r@ == self@,
    {
        LiveSpan {
            state: self.state,
            name: self.name.clone(),
            start_us: self.start_us,
            finish_us: self.finish_us,
        }
    }
}

/// The views of a sequence of spans.
pub open spec fn span_views(spans: Seq<LiveSpan>) -> Seq<LiveSpanView> {
    spans.map_values(|s: LiveSpan| s@)
}

/// The begin and end events of one span; nothing for a span without context.
/// A span that has not finished ends at `end_timestamp`.
pub open spec fn span_events(span: LiveSpanView, end_timestamp: u64) -> Seq<char> {
    match span.state {
        None => Seq::empty(),
        Some(st) => {
            let id = trace_id_text(st.trace_id_high, st.trace_id_low);
            let end = match span.finish_us {
                Some(f) => f,
                None => end_timestamp,
            };
            event_text(id, span.name, ""@, TraceEventType::Begin, span.start_us) + event_text(
                id,
                span.name,
                ""@,
                TraceEventType::End,
                end,
            )
        },
    }
}

/// The events of all the spans, in order.
pub open spec fn spans_events(spans: Seq<LiveSpanView>, end_timestamp: u64) -> Seq<char>
    decreases spans.len(),
{
    if spans.len() == 0 {
        Seq::empty()
    } else {
        spans_events(spans.drop_last(), end_timestamp) + span_events(spans.last(), end_timestamp)
    }
}

/// The trace log of the given live spans, closed at `end_timestamp`.
pub open spec fn active_traces_text(spans: Seq<LiveSpanView>, end_timestamp: u64) -> Seq<char> {
    "["@ + spans_events(spans, end_timestamp) + closing_text(end_timestamp)
}

/// Returns the active traces as a JSON dump in the Chrome trace format (that
/// of `about:tracing`): the begin and end events of each live span, in order,
/// closed by an instant event at `end_timestamp`.
pub fn get_active_traces(spans: &Vec<LiveSpan>, end_timestamp: u64) -> (r: String)
    ensures
        r@ == active_traces_text(span_views(spans@), end_timestamp),
{
    let ghost views = span_views(spans@);
    let mut builder = TraceLogBuilder::new();
    let mut i: usize = 0;
    assert(views.take(0) =~= Seq::<LiveSpanView>::empty());
    while i < spans.len()
        invariant
            i <= spans@.len(),
            views == span_views(spans@),
            builder.text() == "["@ + spans_events(views.take(i as int), end_timestamp),
        decreases spans@.len() - i,
    {
        let span = &spans[i];
        assert(views.take(i + 1).drop_last() =~= views.take(i as int));
        assert(views.take(i + 1).last() == span@);
        match span.state {
            None => {},
            Some(st) => {
                let id = crate::trace_context::trace_id_to_string(
                    st.trace_id_high,
                    st.trace_id_low,
                );
                let end = match span.finish_us {
                    Some(f) => f,
                    None => end_timestamp,
                };
                builder.write_event(id.as_str(), span.name.as_str(), "", TraceEventType::Begin, span.start_us);
                builder.write_event(id.as_str(), span.name.as_str(), "", TraceEventType::End, end);
            },
        }
        i = i + 1;
        assert(builder.text() =~= "["@ + spans_events(views.take(i as int), end_timestamp));
    }
    assert(views.take(views.len() as int) =~= views);
    builder.finalize(end_timestamp)
}

/// What an event's text holds before its trace id.
spec fn event_head(name: Seq<char>, category: Seq<char>, event_type: TraceEventType, timestamp_us: u64) -> Seq<
    char,
> {
    "{\"pid\":1,\"name\":\""@ + escape(name) + "\",\"cat\":\""@ + escape(category) + "\",\"ph\":\""@
        + phase_text(event_type) + "\",\"ts\":"@ + dec_digits(timestamp_us as nat) + ",\"id\":\""@
}

proof fn lemma_event_text_parts(
    trace_id: Seq<char>,
    name: Seq<char>,
    category: Seq<char>,
    event_type: TraceEventType,
    timestamp_us: u64,
)
    ensures
        event_text(trace_id, name, category, event_type, timestamp_us) == event_head(
            name,
            category,
            event_type,
            timestamp_us,
        ) + trace_id + "\"},"@,
{
    assert(event_text(trace_id, name, category, event_type, timestamp_us) =~= event_head(
        name,
        category,
        event_type,
        timestamp_us,
    ) + trace_id + "\"},"@);
}

/// The events of a span with a context name its whole trace: the begin and
/// end events carry the same id, whose hexadecimal digits spell the 128-bit
/// trace id of the span's context (the high half times 2^64 plus the low
/// half).
pub proof fn lemma_span_events_name_the_trace(span: LiveSpanView, end_timestamp: u64)
    requires
        span.state is Some,
    ensures
        exists|id: Seq<char>|
            {
                &&& hex_number(id) == span.state.unwrap().trace_id_high as int * 0x1_0000_0000_0000_0000
                    + span.state.unwrap().trace_id_low as int
                &&& #[trigger] span_events(span, end_timestamp) == event_text(
                    id,
                    span.name,
                    ""@,
                    TraceEventType::Begin,
                    span.start_us,
                ) + event_text(
                    id,
                    span.name,
                    ""@,
                    TraceEventType::End,
                    match span.finish_us {
                        Some(f) => f,
                        None => end_timestamp,
                    },
                )
            },
{
    let st = span.state.unwrap();
    lemma_trace_id_text_spells_the_id(st.trace_id_high, st.trace_id_low);
    let id = trace_id_text(st.trace_id_high, st.trace_id_low);
    assert(hex_number(id) == st.trace_id_high as int * 0x1_0000_0000_0000_0000 + st.trace_id_low as int);
}

/// The dump tells traces apart: two spans with the same name and times whose
/// events are the same belong to the same trace (both halves of their trace
/// ids agree).
pub proof fn lemma_span_events_tell_traces_apart(
    a: LiveSpanView,
    b: LiveSpanView,
    end_timestamp: u64,
)
    requires
        a.state is Some,
        b.state is Some,
        a.name == b.name,
        a.start_us == b.start_us,
        a.finish_us == b.finish_us,
        span_events(a, end_timestamp) == span_events(b, end_timestamp),
    ensures
        a.state.unwrap().trace_id_high == b.state.unwrap().trace_id_high,
        a.state.unwrap().trace_id_low == b.state.unwrap().trace_id_low,
{
    let sa = a.state.unwrap();
    let sb = b.state.unwrap();
    let ida = trace_id_text(sa.trace_id_high, sa.trace_id_low);
    let idb = trace_id_text(sb.trace_id_high, sb.trace_id_low);
    let end = match a.finish_us {
        Some(f) => f,
        None => end_timestamp,
    };
    let hb = event_head(a.name, ""@, TraceEventType::Begin, a.start_us);
    let he = event_head(a.name, ""@, TraceEventType::End, end);
    lemma_event_text_parts(ida, a.name, ""@, TraceEventType::Begin, a.start_us);
    lemma_event_text_parts(ida, a.name, ""@, TraceEventType::End, end);
    lemma_event_text_parts(idb, b.name, ""@, TraceEventType::Begin, b.start_us);
    lemma_event_text_parts(idb, b.name, ""@, TraceEventType::End, end);
    let ta = span_events(a, end_timestamp);
    let tb = span_events(b, end_timestamp);
    assert(ta == hb + ida + "\"},"@ + (he + ida + "\"},"@));
    assert(tb == hb + idb + "\"},"@ + (he + idb + "\"},"@));
    assert(ida.len() == idb.len());
    assert(ta.subrange(hb.len() as int, (hb.len() + ida.len()) as int) =~= ida);
    assert(tb.subrange(hb.len() as int, (hb.len() + idb.len()) as int) =~= idb);
    lemma_trace_id_text_identifies(sa.trace_id_high, sa.trace_id_low, sb.trace_id_high, sb.trace_id_low);
}

/// The dump lists every span, in order: the events of two lists of spans one
/// after the other are those of the first list followed by those of the
/// second; a single span contributes its own events, and a span without a
/// context contributes none.
pub proof fn lemma_spans_events_in_order(a: Seq<LiveSpanView>, b: Seq<LiveSpanView>, end_timestamp: u64)
    ensures
        spans_events(a + b, end_timestamp) == spans_events(a, end_timestamp) + spans_events(
            b,
            end_timestamp,
        ),
        forall|s: LiveSpanView|
            #[trigger] spans_events(seq![s], end_timestamp) == span_events(s, end_timestamp),
        forall|s: LiveSpanView|
            (#[trigger] span_events(s, end_timestamp)).len() == 0 <==> s.state is None,
    decreases b.len(),
{
    if b.len() == 0 {
        assert(a + b =~= a);
        assert(spans_events(a, end_timestamp) + Seq::<char>::empty() =~= spans_events(a, end_timestamp));
    } else {
        lemma_spans_events_in_order(a, b.drop_last(), end_timestamp);
        assert((a + b).drop_last() =~= a + b.drop_last());
        assert((a + b).last() == b.last());
        assert(spans_events(a + b, end_timestamp) =~= spans_events(a, end_timestamp) + spans_events(
            b,
            end_timestamp,
        ));
    }
    assert forall|s: LiveSpanView| #[trigger]
        spans_events(seq![s], end_timestamp) == span_events(s, end_timestamp) by {
        let one: Seq<LiveSpanView> = seq![s];
        assert(one.len() == 1);
        assert(one.drop_last() =~= Seq::<LiveSpanView>::empty());
        assert(one.last() == s);
        assert(spans_events(Seq::<LiveSpanView>::empty(), end_timestamp) == Seq::<char>::empty());
        assert(spans_events(one, end_timestamp) == spans_events(one.drop_last(), end_timestamp)
            + span_events(s, end_timestamp));
        assert(Seq::<char>::empty() + span_events(s, end_timestamp) =~= span_events(s, end_timestamp));
    }
    assert forall|s: LiveSpanView|
        (#[trigger] span_events(s, end_timestamp)).len() == 0 <==> s.state is None by {
        if let Some(st) = s.state {
            let id = trace_id_text(st.trace_id_high, st.trace_id_low);
            lemma_event_text_parts(id, s.name, ""@, TraceEventType::Begin, s.start_us);
        }
    }
}

/// How a new root span is kept.
#[derive(Clone, Copy, Debug, PartialEq, Eq, Structural)]
pub enum SpanTracking {
    /// Kept, and listed among the live spans of the trace dump.
    Listed,
    /// Kept, but not listed.
    Unlisted,
    /// Not kept: the span records nothing.
    Inactive,
}

/// How a new root span is kept: listed when liveness tracking is enabled and
/// either tracks all spans or the span is sampled; otherwise kept unlisted
/// when sampled, and inactive when not.
pub fn span_tracking(settings: &LivenessTrackingSettings, is_sampled: bool) -> (r: SpanTracking)
    ensures
        r == if settings.enabled && (settings.track_all_spans || is_sampled) {
            SpanTracking::Listed
        } else if is_sampled {
            SpanTracking::Unlisted
        } else {
            SpanTracking::Inactive
        },
{
    if settings.enabled && (settings.track_all_spans || is_sampled) {
        SpanTracking::Listed
    } else if is_sampled {
        SpanTracking::Unlisted
    } else {
        SpanTracking::Inactive
    }
}

} // verus!
