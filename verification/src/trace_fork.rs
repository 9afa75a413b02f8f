//! How a trace started while a sampled span is current is linked to the
//! current trace: a reference span is started under the current span, and
//! tags on it and on the new trace's root span name the other trace.

use vstd::prelude::*;
use vstd::string::StringExecFns;
use crate::formatting::{hex_digits, hex_number, pad_left, push_hex_aligned, string_from_chars};
use crate::trace_context::{
    lemma_trace_id_text_identifies, lemma_trace_id_text_spells_the_id, trace_id_text,
    trace_id_to_string, TraceState,
};

verus! {

/// The note that the reference span carries.
pub open spec fn fork_note() -> Seq<char> {
    "current trace was forked at this point, see the `trace_id` field to obtain the forked trace"@
}

/// The name of the reference span for a trace started under the root name
/// `root_span_name`: `[{root_span_name} ref]`.
pub open spec fn fork_ref_span_name_text(root_span_name: Seq<char>) -> Seq<char> {
    "["@ + root_span_name + " ref]"@
}

/// The tags that link a new trace with the current one.
pub struct ForkLinkTags {
    /// Tags for the reference span, as name and value, in the order set.
    pub ref_span_tags: Vec<(String, String)>,
    /// Tags for the new trace's root span, as name and value, in the order set.
    pub root_span_tags: Vec<(String, String)>,
}

/// The names and values of a list of tags.
pub open spec fn tag_texts(tags: Seq<(String, String)>) -> Seq<(Seq<char>, Seq<char>)> {
    tags.map_values(|t: (String, String)| (t.0@, t.1@))
}

/// The reference span's tags: the note and the new trace's id, when the new
/// root span has a context; none otherwise.
pub open spec fn ref_span_tag_texts(new_root: Option<TraceState>) -> Seq<(Seq<char>, Seq<char>)> {
    match new_root {
        Some(s) => seq![
            ("note"@, fork_note()),
            ("trace_id"@, trace_id_text(s.trace_id_high, s.trace_id_low)),
        ],
        None => seq![],
    }
}

/// The new root span's tags: the current trace's id when the current span
/// has a context, then the reference span's id as `{:32x}` when the
/// reference span has one.
pub open spec fn root_span_tag_texts(current: Option<TraceState>, ref_span: Option<TraceState>) -> Seq<
    (Seq<char>, Seq<char>),
> {
    let trace_id: Seq<(Seq<char>, Seq<char>)> = match current {
        Some(s) => seq![("trace_id"@, trace_id_text(s.trace_id_high, s.trace_id_low))],
        None => seq![],
    };
    let fork_of: Seq<(Seq<char>, Seq<char>)> = match ref_span {
        Some(s) => seq![("fork_of_span_id"@, pad_left(hex_digits(s.span_id as nat), 32, ' '))],
        None => seq![],
    };
    trace_id + fork_of
}

/// The name of the reference span for a trace started under the root name
/// `root_span_name`.
pub fn fork_ref_span_name(root_span_name: &str) -> (r: String)
    ensures
        r@ == fork_ref_span_name_text(root_span_name@),
{
    let mut name = "[".to_owned();
    name.append(root_span_name);
    name.append(" ref]");
    name
}

fn tag(name: &str, value: String) -> (r: (String, String))
    ensures
        r.0@ == name@,
        r.1@ == value@,
{
    (name.to_owned(), value)
}

/// The tags that link a new trace with the current one, from the contexts of
/// the new trace's root span, of the current span and of the reference span
/// (`None` for a span without a context).
pub fn fork_link_tags(
    new_root: Option<TraceState>,
    current: Option<TraceState>,
    ref_span: Option<TraceState>,
) -> (r: ForkLinkTags)
    ensures
        tag_texts(r.ref_span_tags@) == ref_span_tag_texts(new_root),
        tag_texts(r.root_span_tags@) == root_span_tag_texts(current, ref_span),
{
    let mut ref_span_tags: Vec<(String, String)> = Vec::new();
    if let Some(s) = new_root {
        let note = "current trace was forked at this point, see the `trace_id` field to obtain the forked trace".to_owned();
        ref_span_tags.push(tag("note", note));
        ref_span_tags.push(tag("trace_id", trace_id_to_string(s.trace_id_high, s.trace_id_low)));
    }
    let mut root_span_tags: Vec<(String, String)> = Vec::new();
    if let Some(s) = current {
        root_span_tags.push(tag("trace_id", trace_id_to_string(s.trace_id_high, s.trace_id_low)));
    }
    if let Some(s) = ref_span {
        let mut digits: Vec<char> = Vec::new();
        push_hex_aligned(&mut digits, s.span_id, 32, ' ');
        root_span_tags.push(tag("fork_of_span_id", string_from_chars(digits)));
    }
    proof {
        assert(tag_texts(ref_span_tags@) =~= ref_span_tag_texts(new_root));
        assert(tag_texts(root_span_tags@) =~= root_span_tag_texts(current, ref_span));
    }
    ForkLinkTags { ref_span_tags, root_span_tags }
}

/// The tags name the traces they link by their whole ids: the reference
/// span's second tag is `trace_id`, whose hexadecimal digits spell the new
/// trace's 128-bit id (the high half times 2^64 plus the low half), and the
/// new root's first tag is `trace_id`, spelling the current trace's id.
pub proof fn lemma_fork_tags_name_whole_trace_ids(
    new_root: Option<TraceState>,
    current: Option<TraceState>,
    ref_span: Option<TraceState>,
)
    ensures
        new_root matches Some(s) ==> {
            let tags = ref_span_tag_texts(new_root);
            &&& tags.len() == 2
            &&& tags[0] == ("note"@, fork_note())
            &&& tags[1].0 == "trace_id"@
            &&& hex_number(tags[1].1) == s.trace_id_high as int * 0x1_0000_0000_0000_0000
                + s.trace_id_low as int
        },
        new_root is None ==> ref_span_tag_texts(new_root).len() == 0,
        current matches Some(c) ==> {
            let tags = root_span_tag_texts(current, ref_span);
            &&& tags.len() >= 1
            &&& tags[0].0 == "trace_id"@
            &&& hex_number(tags[0].1) == c.trace_id_high as int * 0x1_0000_0000_0000_0000
                + c.trace_id_low as int
        },
{
    if let Some(s) = new_root {
        lemma_trace_id_text_spells_the_id(s.trace_id_high, s.trace_id_low);
    }
    if let Some(c) = current {
        lemma_trace_id_text_spells_the_id(c.trace_id_high, c.trace_id_low);
    }
}

/// Forks of different traces are linked by different tags: when the
/// reference spans' tags for two new roots are the same, the new roots
/// belong to the same trace.
pub proof fn lemma_fork_tags_tell_traces_apart(a: TraceState, b: TraceState)
    requires
        ref_span_tag_texts(Some(a)) == ref_span_tag_texts(Some(b)),
    ensures
        a.trace_id_high == b.trace_id_high,
        a.trace_id_low == b.trace_id_low,
{
    assert(ref_span_tag_texts(Some(a))[1] == ref_span_tag_texts(Some(b))[1]);
    lemma_trace_id_text_identifies(a.trace_id_high, a.trace_id_low, b.trace_id_high, b.trace_id_low);
}

} // verus!
