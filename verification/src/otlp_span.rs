//! A finished span as one OTLP `ResourceSpans` message: the span's ids, times,
//! tags, logs and status, under a resource that names the service.
//!
//! Tags may hold floating-point values, which this library carries without
//! reading: their type is a parameter.

use vstd::prelude::*;
use crate::otlp::{
    be_bytes, convert_parent_span_id, convert_sampled_flag, convert_span_id, convert_time,
    convert_trace_id, first_parent, SpanReference, be_number, lemma_be_bytes_read_back,
    lemma_parent_is_first_child_of,
};

verus! {

/// The value of a span tag.
pub enum TagValue<F> {
    Boolean(bool),
    Float(F),
    Integer(i64),
    String(String),
}

/// A tag of a finished span.
pub struct SpanTag<F> {
    pub name: String,
    pub value: TagValue<F>,
}

/// A log entry of a finished span: its time in nanoseconds since the Unix
/// epoch (`None` before the epoch) and its fields as name and value.
pub struct SpanLog {
    pub time_nanos: Option<u128>,
    pub fields: Vec<(String, String)>,
}

/// What the conversion reads of a finished span. Times are nanoseconds since
/// the Unix epoch, `None` for a time before it.
pub struct FinishedSpanData<F> {
    pub trace_id_high: u64,
    pub trace_id_low: u64,
    pub span_id: u64,
    pub is_sampled: bool,
    pub references: Vec<SpanReference>,
    pub operation_name: String,
    pub start_nanos: Option<u128>,
    pub finish_nanos: Option<u128>,
    pub tags: Vec<SpanTag<F>>,
    pub logs: Vec<SpanLog>,
}

/// An OTLP attribute value.
pub enum AttributeValue<F> {
    Bool(bool),
    Double(F),
    Int(i64),
    Str(String),
}

/// An OTLP attribute.
pub struct KeyValue<F> {
    pub key: String,
    pub value: AttributeValue<F>,
}

/// An OTLP span event; its attributes are string-valued.
pub struct SpanEvent {
    pub name: String,
    pub time_unix_nano: u64,
    pub attributes: Vec<(String, String)>,
}

/// An OTLP span. `error_status` says whether the span carries a status, which
/// is then the error status with an empty message; the span kind is always
/// unspecified and nothing is dropped.
pub struct OtlpSpan<F> {
    pub trace_id: Vec<u8>,
    pub span_id: Vec<u8>,
    pub parent_span_id: Vec<u8>,
    pub flags: u32,
    pub name: String,
    pub start_time_unix_nano: u64,
    pub end_time_unix_nano: u64,
    pub attributes: Vec<KeyValue<F>>,
    pub events: Vec<SpanEvent>,
    pub error_status: bool,
}

/// One OTLP `ResourceSpans` message holding a single span in a single scope
/// without a name.
pub struct ResourceSpans<F> {
    pub resource_attributes: Vec<KeyValue<F>>,
    pub span: OtlpSpan<F>,
}

/// The OTLP value of a tag value.
pub open spec fn attribute_value<F>(value: TagValue<F>) -> AttributeValue<F> {
    match value {
        TagValue::Boolean(b) => AttributeValue::Bool(b),
        TagValue::Float(f) => AttributeValue::Double(f),
        TagValue::Integer(i) => AttributeValue::Int(i),
        TagValue::String(s) => AttributeValue::Str(s),
    }
}

/// The OTLP attribute of a tag.
pub open spec fn attribute_of<F>(tag: SpanTag<F>) -> KeyValue<F> {
    KeyValue { key: tag.name, value: attribute_value(tag.value) }
}

/// A tag that gives its span the error status.
pub open spec fn is_error_tag<F>(tag: SpanTag<F>) -> bool {
    tag.name@ == "error"@
}

/// A time as OTLP carries it: nanoseconds since the Unix epoch wrapped to 64
/// bits, zero for a time before the epoch.
pub open spec fn otlp_time(nanos: Option<u128>) -> u64 {
    match nanos {
        Some(n) => (n % 0x1_0000_0000_0000_0000) as u64,
        None => 0,
    }
}

/// Whether `event` is the OTLP event of the log entry `log`.
pub open spec fn is_event_of(event: SpanEvent, log: SpanLog) -> bool {
    &&& event.name@ == "Log entry"@
    &&& event.time_unix_nano == otlp_time(log.time_nanos)
    &&& event.attributes == log.fields
}

/// Whether `r` is the OTLP span of the finished span `span`.
pub open spec fn is_otlp_span_of<F>(r: OtlpSpan<F>, span: FinishedSpanData<F>) -> bool {
    &&& r.trace_id@ == be_bytes(span.trace_id_high) + be_bytes(span.trace_id_low)
    &&& r.span_id@ == be_bytes(span.span_id)
    &&& r.parent_span_id@ == match first_parent(span.references@) {
        Some(id) => be_bytes(id),
        None => Seq::empty(),
    }
    &&& r.flags == if span.is_sampled {
        1u32
    } else {
        0u32
    }
    &&& r.name == span.operation_name
    &&& r.start_time_unix_nano == otlp_time(span.start_nanos)
    &&& r.end_time_unix_nano == otlp_time(span.finish_nanos)
    &&& r.attributes@.len() == span.tags@.len()
    &&& forall|i: int|
        0 <= i < span.tags@.len() ==> #[trigger] r.attributes@[i] == attribute_of(span.tags@[i])
    &&& r.events@.len() == span.logs@.len()
    &&& forall|i: int|
        0 <= i < span.logs@.len() ==> is_event_of(#[trigger] r.events@[i], span.logs@[i])
    &&& r.error_status == exists|i: int|
        0 <= i < span.tags@.len() && is_error_tag(#[trigger] span.tags@[i])
}

/// What an OTLP span says of the finished span it was made from: its ids
/// read back as the trace id's halves and the span id; the parent id is that
/// of the first `ChildOf` reference, and empty exactly when there is none; the
/// flags say whether the span is sampled; a time that fits in 64 bits of
/// nanoseconds is kept as is, one before the epoch is zero; each attribute
/// is keyed by its tag's name, in order; each event is a log entry at its
/// log's time; and the span has the error status exactly when one of its
/// tags is named `error`.
pub proof fn lemma_otlp_span_reads_back<F>(r: OtlpSpan<F>, span: FinishedSpanData<F>)
    requires
        is_otlp_span_of(r, span),
    ensures
        r.trace_id@.len() == 16,
        be_number(r.trace_id@.take(8)) == span.trace_id_high,
        be_number(r.trace_id@.skip(8)) == span.trace_id_low,
        be_number(r.span_id@) == span.span_id,
        r.parent_span_id@.len() == 0 <==> forall|i: int|
            0 <= i < span.references@.len() ==> (#[trigger] span.references@[i]) is FollowsFrom,
        forall|i: int|
            0 <= i < span.references@.len() && (#[trigger] span.references@[i]) is ChildOf && (forall|
                j: int,
            | 0 <= j < i ==> span.references@[j] is FollowsFrom) ==> r.parent_span_id@.len() == 8
                && be_number(r.parent_span_id@) == span.references@[i]->ChildOf_0,
        r.flags == 1 <==> span.is_sampled,
        r.flags == 0 <==> !span.is_sampled,
        span.start_nanos matches Some(n) ==> (n < 0x1_0000_0000_0000_0000 ==> r.start_time_unix_nano == n),
        span.start_nanos is None ==> r.start_time_unix_nano == 0,
        span.finish_nanos matches Some(n) ==> (n < 0x1_0000_0000_0000_0000 ==> r.end_time_unix_nano == n),
        span.finish_nanos is None ==> r.end_time_unix_nano == 0,
        forall|i: int|
            0 <= i < span.tags@.len() ==> (#[trigger] r.attributes@[i]).key == span.tags@[i].name,
        forall|i: int|
            0 <= i < span.logs@.len() ==> (#[trigger] r.events@[i]).name@ == "Log entry"@ && (
            span.logs@[i].time_nanos matches Some(n) ==> (n < 0x1_0000_0000_0000_0000
                ==> r.events@[i].time_unix_nano == n)),
        r.error_status <==> exists|i: int|
            0 <= i < span.tags@.len() && (#[trigger] span.tags@[i]).name@ == "error"@,
{
    lemma_be_bytes_read_back(span.trace_id_high);
    lemma_be_bytes_read_back(span.trace_id_low);
    lemma_be_bytes_read_back(span.span_id);
    assert(r.trace_id@.take(8) =~= be_bytes(span.trace_id_high));
    assert(r.trace_id@.skip(8) =~= be_bytes(span.trace_id_low));
    lemma_parent_is_first_child_of(span.references@);
    if let Some(id) = first_parent(span.references@) {
        lemma_be_bytes_read_back(id);
    }
    assert(r.error_status <==> exists|i: int|
        0 <= i < span.tags@.len() && (#[trigger] span.tags@[i]).name@ == "error"@) by {
        if r.error_status {
            let i = choose|i: int| 0 <= i < span.tags@.len() && is_error_tag(#[trigger] span.tags@[i]);
            assert(span.tags@[i].name@ == "error"@);
        }
        if exists|i: int| 0 <= i < span.tags@.len() && (#[trigger] span.tags@[i]).name@ == "error"@ {
            let i = choose|i: int| 0 <= i < span.tags@.len() && (#[trigger] span.tags@[i]).name@ == "error"@;
            assert(is_error_tag(span.tags@[i]));
        }
    }
}

fn attribute_value_of<F>(value: TagValue<F>) -> (r: AttributeValue<F>)
    ensures
        r == attribute_value(value),
{
    match value {
        TagValue::Boolean(b) => AttributeValue::Bool(b),
        TagValue::Float(f) => AttributeValue::Double(f),
        TagValue::Integer(i) => AttributeValue::Int(i),
        TagValue::String(s) => AttributeValue::Str(s),
    }
}

/// The attributes of the tags, in their order, and whether any of the tags
/// gives the span the error status.
fn convert_tags<F>(tags: Vec<SpanTag<F>>) -> (r: (bool, Vec<KeyValue<F>>))
    ensures
        r.1@.len() == tags@.len(),
        forall|i: int| 0 <= i < tags@.len() ==> #[trigger] r.1@[i] == attribute_of(tags@[i]),
        r.0 == exists|i: int| 0 <= i < tags@.len() && is_error_tag(#[trigger] tags@[i]),
{
    let ghost given = tags@;
    let error = "error".to_owned();
    let mut error_status = false;
    let mut attributes: Vec<KeyValue<F>> = Vec::new();
    for tag in it: tags.into_iter()
        invariant
            it.seq() == given,
            error@ == "error"@,
            attributes@.len() == it.index(),
            forall|i: int| 0 <= i < it.index() ==> #[trigger] attributes@[i] == attribute_of(given[i]),
            error_status == exists|i: int| 0 <= i < it.index() && is_error_tag(#[trigger] given[i]),
    {
        if !error_status && tag.name == error {
            error_status = true;
        }
        let value = attribute_value_of(tag.value);
        attributes.push(KeyValue { key: tag.name, value });
    }
    (error_status, attributes)
}

/// The events of the log entries, in their order.
fn convert_logs(logs: Vec<SpanLog>) -> (r: Vec<SpanEvent>)
    ensures
        r@.len() == logs@.len(),
        forall|i: int| 0 <= i < logs@.len() ==> is_event_of(#[trigger] r@[i], logs@[i]),
{
    let ghost given = logs@;
    let mut events: Vec<SpanEvent> = Vec::new();
    for log in it: logs.into_iter()
        invariant
            it.seq() == given,
            events@.len() == it.index(),
            forall|i: int| 0 <= i < it.index() ==> is_event_of(#[trigger] events@[i], given[i]),
    {
        let time_unix_nano = convert_time(log.time_nanos);
        events.push(
            SpanEvent { name: "Log entry".to_owned(), time_unix_nano, attributes: log.fields },
        );
    }
    events
}

/// The OTLP message of a finished span of the service `service_name`: the
/// resource has the one attribute `service.name`, and the span carries the
/// finished span's ids, flags, name, times, tags and logs, with the error
/// status exactly when a tag is named `error`.
pub fn convert_span<F>(span: FinishedSpanData<F>, service_name: &str) -> (r: ResourceSpans<F>)
    ensures
        r.resource_attributes@.len() == 1,
        r.resource_attributes@[0].key@ == "service.name"@,
        r.resource_attributes@[0].value matches AttributeValue::Str(name) && name@ == service_name@,
        is_otlp_span_of(r.span, span),
{
    let ghost given = span;
    let FinishedSpanData {
        trace_id_high,
        trace_id_low,
        span_id,
        is_sampled,
        references,
        operation_name,
        start_nanos,
        finish_nanos,
        tags,
        logs,
    } = span;
    let (error_status, attributes) = convert_tags(tags);
    let otlp_span = OtlpSpan {
        trace_id: convert_trace_id(trace_id_high, trace_id_low),
        span_id: convert_span_id(span_id),
        parent_span_id: convert_parent_span_id(&references),
        flags: convert_sampled_flag(is_sampled),
        name: operation_name,
        start_time_unix_nano: convert_time(start_nanos),
        end_time_unix_nano: convert_time(finish_nanos),
        attributes,
        events: convert_logs(logs),
        error_status,
    };
    let service_name_attr = KeyValue {
        key: "service.name".to_owned(),
        value: AttributeValue::Str(service_name.to_owned()),
    };
    let mut resource_attributes: Vec<KeyValue<F>> = Vec::new();
    resource_attributes.push(service_name_attr);
    ResourceSpans { resource_attributes, span: otlp_span }
}

} // verus!
