//! Choosing which wire format to serve a metrics scrape, from the value of the
//! request's `Accept` header.

use vstd::prelude::*;
use crate::decimal::{Decimal, DecimalSpec};
use crate::f32_weight::{
    f32_key, f32_key_exec, f32_usable, lemma_one_usable, lemma_quality_bounds_round,
};
use crate::quality::{parse_quality, quality_of, quality_one, quality_one_exec};
use crate::text::{
    chars_of, eq_chars, eq_ignore_ascii_case, eq_ignore_ascii_case_chars, split, split_chars,
    split_once, split_once_chars, trim, trim_chars, trim_matches, trim_matches_chars, views,
};

verus! {

/// Wire format a scraper asked for.
#[derive(Clone, Copy, Debug, PartialEq, Eq, Structural)]
pub enum ScrapeFormat {
    /// Length-delimited Prometheus protobuf, the only format able to carry
    /// native histograms.
    Protobuf,
    /// OpenMetrics text, optionally permitted to quote UTF-8 names.
    Text {
        /// Whether the scraper accepts names quoted rather than escaped.
        utf8_names: bool,
    },
}

/// The format assumed when a scraper expresses no usable preference.
pub open spec fn fallback_format() -> ScrapeFormat {
    ScrapeFormat::Text { utf8_names: false }
}

impl ScrapeFormat {
    /// The format assumed when a scraper expresses no usable preference.
    ///
    /// Every backend can produce it, so it is always safe to serve.
    pub fn fallback() -> (r: Self)
        ensures
            r == fallback_format(),
    {
        ScrapeFormat::Text { utf8_names: false }
    }

    /// Content type describing what this format produces.
    pub fn content_type(self) -> (r: &'static str)
        ensures
            r@ == content_type_of(self),
    {
        match self {
            ScrapeFormat::Protobuf => "application/vnd.google.protobuf; proto=io.prometheus.client.MetricFamily; encoding=delimited",
            ScrapeFormat::Text { utf8_names: true } => "application/openmetrics-text; version=1.0.0; charset=utf-8; escaping=allow-utf-8",
            ScrapeFormat::Text { utf8_names: false } => "application/openmetrics-text; version=1.0.0; charset=utf-8",
        }
    }
}

/// The content type that each format is served with.
pub open spec fn content_type_of(f: ScrapeFormat) -> Seq<char> {
    match f {
        ScrapeFormat::Protobuf => "application/vnd.google.protobuf; proto=io.prometheus.client.MetricFamily; encoding=delimited"@,
        ScrapeFormat::Text { utf8_names: true } => "application/openmetrics-text; version=1.0.0; charset=utf-8; escaping=allow-utf-8"@,
        ScrapeFormat::Text { utf8_names: false } => "application/openmetrics-text; version=1.0.0; charset=utf-8"@,
    }
}

/// What the parameters of one media range say, as far as negotiation reads them.
pub struct RangeParams {
    /// The weight of the range; `None` when it refuses the range.
    pub quality: Option<DecimalSpec>,
    pub escaping: Option<Seq<char>>,
    pub proto: Option<Seq<char>>,
    pub encoding: Option<Seq<char>>,
}

/// The parameters before any is read: weight `1`, nothing else.
pub open spec fn no_params() -> RangeParams {
    RangeParams { quality: Some(quality_one()), escaping: None, proto: None, encoding: None }
}

/// Reads one (trimmed) `name=value` parameter. Names are matched without
/// regard to ASCII case; values are trimmed and stripped of double quotes; a
/// later parameter overrides an earlier one of the same name.
pub open spec fn apply_parameter(st: RangeParams, param: Seq<char>) -> RangeParams {
    match split_once(param, '=') {
        None => st,
        Some((raw_name, raw_value)) => {
            let value = trim_matches(trim(raw_value), '"');
            let name = trim(raw_name);
            if eq_ignore_ascii_case(name, "q"@) {
                RangeParams { quality: quality_of(value), ..st }
            } else if eq_ignore_ascii_case(name, "escaping"@) {
                RangeParams { escaping: Some(value), ..st }
            } else if eq_ignore_ascii_case(name, "proto"@) {
                RangeParams { proto: Some(value), ..st }
            } else if eq_ignore_ascii_case(name, "encoding"@) {
                RangeParams { encoding: Some(value), ..st }
            } else {
                st
            }
        },
    }
}

/// The parameters `params`, read in order.
pub open spec fn range_params(params: Seq<Seq<char>>) -> RangeParams
    decreases params.len(),
{
    if params.len() == 0 {
        no_params()
    } else {
        apply_parameter(range_params(params.drop_last()), params.last())
    }
}

/// The format that a media type with the given parameters asks for, if one
/// can be served.
pub open spec fn format_for(media: Seq<char>, st: RangeParams, allow_protobuf: bool) -> Option<
    ScrapeFormat,
> {
    if eq_ignore_ascii_case(media, "application/vnd.google.protobuf"@) {
        if allow_protobuf && st.proto == Some("io.prometheus.client.MetricFamily"@) && (
        st.encoding matches Some(e) && eq_ignore_ascii_case(e, "delimited"@)) {
            Some(ScrapeFormat::Protobuf)
        } else {
            None
        }
    } else if eq_ignore_ascii_case(media, "application/openmetrics-text"@) {
        Some(
            ScrapeFormat::Text {
                utf8_names: st.escaping matches Some(e) && eq_ignore_ascii_case(e, "allow-utf-8"@),
            },
        )
    } else if eq_ignore_ascii_case(media, "text/plain"@) || media == "*/*"@ {
        Some(ScrapeFormat::Text { utf8_names: false })
    } else {
        None
    }
}

/// The (trimmed) `;`-separated parts of a media range.
pub open spec fn range_parts(range: Seq<char>) -> Seq<Seq<char>> {
    split(range, ';').map_values(|p: Seq<char>| trim(p))
}

/// What one media range offers: its weight and the format it asks for, or
/// `None` when it has no media type, refuses itself (`q=0` or an unusable
/// weight) or asks for nothing that can be served.
pub open spec fn range_offer(range: Seq<char>, allow_protobuf: bool) -> Option<
    (DecimalSpec, ScrapeFormat),
> {
    let parts = range_parts(range);
    let media = parts[0];
    if media.len() == 0 {
        None
    } else {
        let st = range_params(parts.skip(1));
        match st.quality {
            None => None,
            Some(q) => match format_for(media, st, allow_protobuf) {
                None => None,
                Some(f) => Some((q, f)),
            },
        }
    }
}

/// Whether weight `a` is below weight `b` as the `f32` values they round to
/// compare: weights that round to the same `f32` are equal.
pub open spec fn weight_lt(a: DecimalSpec, b: DecimalSpec) -> bool {
    f32_key(a) < f32_key(b)
}

/// The best of the offers: the highest weight, the earliest listed among
/// equal weights.
pub open spec fn best_offer(offers: Seq<Option<(DecimalSpec, ScrapeFormat)>>) -> Option<
    (DecimalSpec, ScrapeFormat),
>
    decreases offers.len(),
{
    if offers.len() == 0 {
        None
    } else {
        let best = best_offer(offers.drop_last());
        match offers.last() {
            None => best,
            Some((q, f)) => match best {
                None => Some((q, f)),
                Some((bq, bf)) => if weight_lt(bq, q) {
                    Some((q, f))
                } else {
                    best
                },
            },
        }
    }
}

/// The offers of the `,`-separated media ranges of a header.
pub open spec fn header_offers(accept: Seq<char>, allow_protobuf: bool) -> Seq<
    Option<(DecimalSpec, ScrapeFormat)>,
> {
    split(accept, ',').map_values(|r: Seq<char>| range_offer(r, allow_protobuf))
}

/// The format negotiated for an `Accept` header: the fallback when there is no
/// header, `None` when the header rules out every format on offer.
pub open spec fn negotiated(accept: Option<Seq<char>>, allow_protobuf: bool) -> Option<
    ScrapeFormat,
> {
    match accept {
        None => Some(fallback_format()),
        Some(a) => match best_offer(header_offers(a, allow_protobuf)) {
            None => None,
            Some((_, f)) => Some(f),
        },
    }
}

/// The view of an optional header value.
pub open spec fn header_view(accept: Option<&str>) -> Option<Seq<char>> {
    match accept {
        Some(a) => Some(a@),
        None => None,
    }
}

/// The words that negotiation looks for, as character vectors.
struct Vocabulary {
    q: Vec<char>,
    escaping: Vec<char>,
    proto: Vec<char>,
    encoding: Vec<char>,
    protobuf_media: Vec<char>,
    metric_family: Vec<char>,
    delimited: Vec<char>,
    openmetrics_media: Vec<char>,
    allow_utf8: Vec<char>,
    text_media: Vec<char>,
    any_media: Vec<char>,
}

impl Vocabulary {
    spec fn wf(&self) -> bool {
        &&& self.q@ == "q"@
        &&& self.escaping@ == "escaping"@
        &&& self.proto@ == "proto"@
        &&& self.encoding@ == "encoding"@
        &&& self.protobuf_media@ == "application/vnd.google.protobuf"@
        &&& self.metric_family@ == "io.prometheus.client.MetricFamily"@
        &&& self.delimited@ == "delimited"@
        &&& self.openmetrics_media@ == "application/openmetrics-text"@
        &&& self.allow_utf8@ == "allow-utf-8"@
        &&& self.text_media@ == "text/plain"@
        &&& self.any_media@ == "*/*"@
    }

    fn new() -> (r: Self)
        ensures
            r.wf(),
    {
        Vocabulary {
            q: chars_of("q"),
            escaping: chars_of("escaping"),
            proto: chars_of("proto"),
            encoding: chars_of("encoding"),
            protobuf_media: chars_of("application/vnd.google.protobuf"),
            metric_family: chars_of("io.prometheus.client.MetricFamily"),
            delimited: chars_of("delimited"),
            openmetrics_media: chars_of("application/openmetrics-text"),
            allow_utf8: chars_of("allow-utf-8"),
            text_media: chars_of("text/plain"),
            any_media: chars_of("*/*"),
        }
    }
}

/// The executable state of `RangeParams`.
struct ParamState {
    quality: Option<Decimal>,
    escaping: Option<Vec<char>>,
    proto: Option<Vec<char>>,
    encoding: Option<Vec<char>>,
}

spec fn opt_view(v: Option<Vec<char>>) -> Option<Seq<char>> {
    match v {
        Some(x) => Some(x@),
        None => None,
    }
}

impl ParamState {
    spec fn matches(&self, st: RangeParams) -> bool {
        &&& match (self.quality, st.quality) {
            (Some(d), Some(q)) => d@ == q && d@.normal(),
            (None, None) => true,
            _ => false,
        }
        &&& opt_view(self.escaping) == st.escaping
        &&& opt_view(self.proto) == st.proto
        &&& opt_view(self.encoding) == st.encoding
    }
}

/// Reads one parameter into the state.
fn apply_parameter_exec(st: ParamState, param: &Vec<char>, words: &Vocabulary) -> (r: ParamState)
    requires
        words.wf(),
        exists|s: RangeParams| st.matches(s),
    ensures
        forall|s: RangeParams| st.matches(s) ==> r.matches(apply_parameter(s, param@)),
{
    match split_once_chars(param, '=') {
        None => st,
        Some((raw_name, raw_value)) => {
            let trimmed = trim_chars(&raw_value);
            let value = trim_matches_chars(&trimmed, '"');
            let name = trim_chars(&raw_name);
            if eq_ignore_ascii_case_chars(&name, &words.q) {
                ParamState { quality: parse_quality(&value), ..st }
            } else if eq_ignore_ascii_case_chars(&name, &words.escaping) {
                ParamState { escaping: Some(value), ..st }
            } else if eq_ignore_ascii_case_chars(&name, &words.proto) {
                ParamState { proto: Some(value), ..st }
            } else if eq_ignore_ascii_case_chars(&name, &words.encoding) {
                ParamState { encoding: Some(value), ..st }
            } else {
                st
            }
        },
    }
}

/// `format_for`, executed.
fn format_for_exec(media: &Vec<char>, st: &ParamState, allow_protobuf: bool, words: &Vocabulary) -> (r:
    Option<ScrapeFormat>)
    requires
        words.wf(),
    ensures
        forall|s: RangeParams| st.matches(s) ==> r == format_for(media@, s, allow_protobuf),
{
    if eq_ignore_ascii_case_chars(media, &words.protobuf_media) {
        let proto_ok = match &st.proto {
            Some(p) => eq_chars(p, &words.metric_family),
            None => false,
        };
        let encoding_ok = match &st.encoding {
            Some(e) => eq_ignore_ascii_case_chars(e, &words.delimited),
            None => false,
        };
        if allow_protobuf && proto_ok && encoding_ok {
            Some(ScrapeFormat::Protobuf)
        } else {
            None
        }
    } else if eq_ignore_ascii_case_chars(media, &words.openmetrics_media) {
        let utf8_names = match &st.escaping {
            Some(e) => eq_ignore_ascii_case_chars(e, &words.allow_utf8),
            None => false,
        };
        Some(ScrapeFormat::Text { utf8_names })
    } else if eq_ignore_ascii_case_chars(media, &words.text_media) || eq_chars(
        media,
        &words.any_media,
    ) {
        Some(ScrapeFormat::Text { utf8_names: false })
    } else {
        None
    }
}

/// `range_offer`, executed.
fn range_offer_exec(range: &Vec<char>, allow_protobuf: bool, words: &Vocabulary) -> (r: Option<
    (Decimal, ScrapeFormat),
>)
    requires
        words.wf(),
    ensures
        match (r, range_offer(range@, allow_protobuf)) {
            (Some((d, f)), Some((q, g))) => d@ == q && d@.normal() && f == g,
            (None, None) => true,
            _ => false,
        },
{
    let raw = split_chars(range, ';');
    let ghost spec_parts = range_parts(range@);
    proof {
        crate::text::lemma_split_nonempty(range@, ';');
    }
    let mut parts: Vec<Vec<char>> = Vec::new();
    let mut i: usize = 0;
    assert(views(raw@).len() == raw.len());
    assert(spec_parts.len() == raw.len());
    assert(views(parts@) =~= spec_parts.take(0));
    while i < raw.len()
        invariant
            i <= raw.len(),
            views(raw@) == split(range@, ';'),
            spec_parts == range_parts(range@),
            spec_parts.len() == raw.len(),
            parts.len() == i,
            views(parts@) == spec_parts.take(i as int),
        decreases raw.len() - i,
    {
        assert(views(raw@)[i as int] == raw@[i as int]@);
        assert(spec_parts[i as int] == trim(split(range@, ';')[i as int]));
        let t = trim_chars(&raw[i]);
        let ghost old_parts = parts@;
        parts.push(t);
        assert forall|k: int| 0 <= k < i + 1 implies #[trigger] views(parts@)[k] == spec_parts.take(
            i + 1,
        )[k] by {
            if k < i {
                assert(parts@[k] == old_parts[k]);
                assert(views(old_parts)[k] == spec_parts.take(i as int)[k]);
            }
        }
        i = i + 1;
        assert(views(parts@) =~= spec_parts.take(i as int));
    }
    assert(spec_parts.take(raw.len() as int) =~= spec_parts);
    assert(parts.len() >= 1);
    assert(parts[0]@ == spec_parts[0]);
    if parts[0].len() == 0 {
        return None;
    }
    let mut st = ParamState {
        quality: Some(quality_one_exec()),
        escaping: None,
        proto: None,
        encoding: None,
    };
    let ghost params = spec_parts.skip(1);
    assert(params.take(0) =~= Seq::<Seq<char>>::empty());
    let mut j: usize = 1;
    while j < parts.len()
        invariant
            words.wf(),
            1 <= j <= parts.len(),
            views(parts@) == spec_parts,
            params == spec_parts.skip(1),
            st.matches(range_params(params.take(j - 1))),
        decreases parts.len() - j,
    {
        let ghost before = range_params(params.take(j - 1));
        assert(parts@[j as int]@ == params[j - 1]);
        st = apply_parameter_exec(st, &parts[j], words);
        assert(params.take(j as int).drop_last() =~= params.take(j - 1));
        j = j + 1;
    }
    assert(params.take(j - 1) =~= params);
    let ghost sp = range_params(params);
    match &st.quality {
        None => None,
        Some(q) => {
            match format_for_exec(&parts[0], &st, allow_protobuf, words) {
                None => None,
                Some(f) => {
                    let q2 = Decimal { digits: q.digits.clone(), point: q.point };
                    assert(q2.digits@ == q.digits@);
                    Some((q2, f))
                },
            }
        },
    }
}

/// Chooses the most preferred format that the caller can produce, given the
/// value of a request's `Accept` header.
///
/// `None` means the header ruled out every format on offer. An absent header
/// expresses no preference and yields [`ScrapeFormat::fallback`] instead.
///
/// Weights are compared as the `f32` values they round to, so weights that
/// round to the same `f32` tie and the earlier range wins.
pub fn negotiate(accept: Option<&str>, allow_protobuf: bool) -> (r: Option<ScrapeFormat>)
    ensures
        r == negotiated(header_view(accept), allow_protobuf),
{
    let accept = match accept {
        None => return Some(ScrapeFormat::fallback()),
        Some(a) => a,
    };
    let chars = chars_of(accept);
    let words = Vocabulary::new();
    let ranges = split_chars(&chars, ',');
    let ghost offers = header_offers(accept@, allow_protobuf);
    let mut best: Option<(u32, ScrapeFormat)> = None;
    let mut i: usize = 0;
    assert(offers.take(0) =~= Seq::<Option<(DecimalSpec, ScrapeFormat)>>::empty());
    while i < ranges.len()
        invariant
            words.wf(),
            i <= ranges.len(),
            views(ranges@) == split(accept@, ','),
            offers == header_offers(accept@, allow_protobuf),
            match (best, best_offer(offers.take(i as int))) {
                (Some((k, f)), Some((q, g))) => k == f32_key(q) && f == g,
                (None, None) => true,
                _ => false,
            },
        decreases ranges.len() - i,
    {
        assert(ranges@[i as int]@ == split(accept@, ',')[i as int]);
        let offer = range_offer_exec(&ranges[i], allow_protobuf, &words);
        assert(offers.take(i + 1).drop_last() =~= offers.take(i as int));
        assert(offers.take(i + 1).last() == offers[i as int]);
        match offer {
            None => {},
            Some((q, f)) => {
                proof {
                    lemma_range_offer_usable(ranges@[i as int]@, allow_protobuf);
                }
                let key = f32_key_exec(&q);
                let replace = match &best {
                    None => true,
                    Some((bk, _)) => *bk < key,
                };
                if replace {
                    best = Some((key, f));
                }
            },
        }
        i = i + 1;
    }
    assert(offers.take(ranges.len() as int) =~= offers);
    match best {
        None => None,
        Some((_, f)) => Some(f),
    }
}

/// Negotiates a format, serving [`ScrapeFormat::fallback`] when the `Accept`
/// header rules out everything on offer.
pub fn negotiate_or_fallback(accept: Option<&str>, allow_protobuf: bool) -> (r: ScrapeFormat)
    ensures
        r == match negotiated(header_view(accept), allow_protobuf) {
            Some(f) => f,
            None => fallback_format(),
        },
{
    match negotiate(accept, allow_protobuf) {
        Some(f) => f,
        None => ScrapeFormat::fallback(),
    }
}

/// The parameters of a media range give no weight or a usable one.
proof fn lemma_range_params_usable(params: Seq<Seq<char>>)
    ensures
        range_params(params).quality matches Some(q) ==> f32_usable(q),
    decreases params.len(),
{
    if params.len() == 0 {
        lemma_one_usable();
    } else {
        lemma_range_params_usable(params.drop_last());
        let st = range_params(params.drop_last());
        let param = params.last();
        if let Some((raw_name, raw_value)) = split_once(param, '=') {
            let value = trim_matches(trim(raw_value), '"');
            if let Some(q) = quality_of(value) {
                lemma_quality_bounds_round(q);
            }
        }
    }
}

/// A media range offers only usable weights.
proof fn lemma_range_offer_usable(range: Seq<char>, allow_protobuf: bool)
    ensures
        range_offer(range, allow_protobuf) matches Some((q, _)) ==> f32_usable(q),
{
    lemma_range_params_usable(range_parts(range).skip(1));
}

/// Offer `i` is the best of `offers`: no offer weighs more, and every offer
/// listed before it weighs less.
pub open spec fn is_earliest_best(offers: Seq<Option<(DecimalSpec, ScrapeFormat)>>, i: int) -> bool {
    &&& 0 <= i < offers.len()
    &&& offers[i] is Some
    &&& forall|j: int|
        0 <= j < offers.len() && (#[trigger] offers[j]) is Some ==> !weight_lt(
            offers[i].unwrap().0,
            offers[j].unwrap().0,
        )
    &&& forall|j: int|
        0 <= j < i && (#[trigger] offers[j]) is Some ==> weight_lt(
            offers[j].unwrap().0,
            offers[i].unwrap().0,
        )
}

proof fn lemma_best_offer_none(offers: Seq<Option<(DecimalSpec, ScrapeFormat)>>)
    ensures
        best_offer(offers) is None <==> forall|i: int| 0 <= i < offers.len() ==> (#[trigger] offers[i]) is None,
    decreases offers.len(),
{
    if offers.len() > 0 {
        let p = offers.drop_last();
        lemma_best_offer_none(p);
        if best_offer(offers) is None {
            assert forall|i: int| 0 <= i < offers.len() implies (#[trigger] offers[i]) is None by {
                if i < offers.len() - 1 {
                    assert(p[i] == offers[i]);
                }
            }
        } else {
            if forall|i: int| 0 <= i < offers.len() ==> (#[trigger] offers[i]) is None {
                assert forall|i: int| 0 <= i < p.len() implies (#[trigger] p[i]) is None by {
                    assert(p[i] == offers[i]);
                }
                assert(offers[offers.len() - 1] is None);
            }
        }
    }
}

proof fn lemma_best_offer_earliest_best(offers: Seq<Option<(DecimalSpec, ScrapeFormat)>>)
    ensures
        best_offer(offers) matches Some(x) ==> exists|i: int|
            is_earliest_best(offers, i) && offers[i] == Some(x),
    decreases offers.len(),
{
    if offers.len() > 0 {
        let n = offers.len() - 1;
        let p = offers.drop_last();
        lemma_best_offer_earliest_best(p);
        lemma_best_offer_none(p);
        assert forall|j: int| 0 <= j < n implies p[j] == offers[j] by {}
        match offers[n] {
            None => {
                if let Some(x) = best_offer(p) {
                    let i = choose|i: int| is_earliest_best(p, i) && p[i] == Some(x);
                    assert(is_earliest_best(offers, i));
                }
            },
            Some((q, f)) => {
                match best_offer(p) {
                    None => {
                        assert forall|j: int| 0 <= j < n implies (#[trigger] offers[j]) is None by {
                            assert(p[j] is None);
                        }
                        assert(is_earliest_best(offers, n));
                    },
                    Some((bq, bf)) => {
                        let i = choose|i: int| is_earliest_best(p, i) && p[i] == Some((bq, bf));
                        if weight_lt(bq, q) {
                            assert forall|j: int|
                                0 <= j < offers.len() && (#[trigger] offers[j]) is Some implies !weight_lt(
                                    q,
                                    offers[j].unwrap().0,
                                ) by {
                                if j < n {
                                    let qj = offers[j].unwrap().0;
                                    assert(p[j] is Some);
                                    assert(!weight_lt(bq, qj));
                                }
                            }
                            assert forall|j: int| 0 <= j < n && (#[trigger] offers[j]) is Some implies weight_lt(
                                offers[j].unwrap().0,
                                q,
                            ) by {
                                let qj = offers[j].unwrap().0;
                                assert(p[j] is Some);
                                assert(!weight_lt(bq, qj));
                            }
                            assert(is_earliest_best(offers, n));
                        } else {
                            assert(is_earliest_best(offers, i));
                        }
                    },
                }
            },
        }
    }
}

proof fn lemma_earliest_best_unique(offers: Seq<Option<(DecimalSpec, ScrapeFormat)>>, a: int, b: int)
    requires
        is_earliest_best(offers, a),
        is_earliest_best(offers, b),
    ensures
        a == b,
{
    if a < b {
        assert(offers[a] is Some);
    } else if b < a {
        assert(offers[b] is Some);
    }
}

/// Highest weight wins, and among equal weights the earliest listed: for a
/// header, negotiation finds no format exactly when no media range offers
/// one, and otherwise serves the format of the earliest range of the highest
/// weight.
pub proof fn lemma_negotiation_serves_the_best_range(accept: Seq<char>, allow_protobuf: bool)
    ensures
        negotiated(Some(accept), allow_protobuf) is None <==> forall|i: int|
            0 <= i < header_offers(accept, allow_protobuf).len() ==> (#[trigger] header_offers(
                accept,
                allow_protobuf,
            )[i]) is None,
        negotiated(Some(accept), allow_protobuf) matches Some(f) ==> exists|i: int|
            is_earliest_best(header_offers(accept, allow_protobuf), i) && header_offers(
                accept,
                allow_protobuf,
            )[i].unwrap().1 == f,
{
    let offers = header_offers(accept, allow_protobuf);
    lemma_best_offer_none(offers);
    lemma_best_offer_earliest_best(offers);
}

/// Where a header offers the same format twice or more at the top weight, the
/// earliest such range is the one negotiation goes by: the best range is
/// unique.
pub proof fn lemma_best_range_is_unique(accept: Seq<char>, allow_protobuf: bool, a: int, b: int)
    requires
        is_earliest_best(header_offers(accept, allow_protobuf), a),
        is_earliest_best(header_offers(accept, allow_protobuf), b),
    ensures
        a == b,
{
    lemma_earliest_best_unique(header_offers(accept, allow_protobuf), a, b);
}

/// What a media range offers when protobuf is withheld: the same as when it is
/// available, except that a range asking for protobuf offers nothing.
proof fn lemma_range_offer_without_protobuf(range: Seq<char>)
    ensures
        range_offer(range, false) == match range_offer(range, true) {
            Some((_, ScrapeFormat::Protobuf)) => None,
            other => other,
        },
{
}

/// Protobuf is never served when it is unavailable.
pub proof fn lemma_no_protobuf_when_unavailable(accept: Option<Seq<char>>)
    ensures
        negotiated(accept, false) != Some(ScrapeFormat::Protobuf),
{
    if let Some(a) = accept {
        let offers = header_offers(a, false);
        lemma_best_offer_earliest_best(offers);
        if let Some(x) = best_offer(offers) {
            let i = choose|i: int| is_earliest_best(offers, i) && offers[i] == Some(x);
            let ranges = split(a, ',');
            lemma_range_offer_without_protobuf(ranges[i]);
        }
    }
}

/// Withholding protobuf leaves text negotiation untouched: when a header is
/// served text with protobuf available, it is served the same text with
/// protobuf withheld.
pub proof fn lemma_withholding_protobuf_keeps_text(accept: Option<Seq<char>>)
    requires
        negotiated(accept, true) matches Some(ScrapeFormat::Text { .. }),
    ensures
        negotiated(accept, false) == negotiated(accept, true),
{
    if let Some(a) = accept {
        let ot = header_offers(a, true);
        let of = header_offers(a, false);
        let ranges = split(a, ',');
        assert forall|j: int| 0 <= j < of.len() implies (#[trigger] of[j]) == match ot[j] {
            Some((_, ScrapeFormat::Protobuf)) => None,
            other => other,
        } by {
            lemma_range_offer_without_protobuf(ranges[j]);
        }
        lemma_best_offer_earliest_best(ot);
        let x = best_offer(ot)->0;
        let i = choose|i: int| is_earliest_best(ot, i) && ot[i] == Some(x);
        assert(of[i] == ot[i]);
        assert forall|j: int| 0 <= j < of.len() && (#[trigger] of[j]) is Some implies !weight_lt(
            of[i].unwrap().0,
            of[j].unwrap().0,
        ) by {
            assert(ot[j] is Some);
        }
        assert forall|j: int| 0 <= j < i && (#[trigger] of[j]) is Some implies weight_lt(
            of[j].unwrap().0,
            of[i].unwrap().0,
        ) by {
            assert(ot[j] is Some);
        }
        assert(is_earliest_best(of, i));
        lemma_best_offer_none(of);
        lemma_best_offer_earliest_best(of);
        let y = best_offer(of)->0;
        let k = choose|k: int| is_earliest_best(of, k) && of[k] == Some(y);
        lemma_earliest_best_unique(of, i, k);
    }
}

/// `text/plain` (in any case) and `*/*` ask for the text format with escaped
/// names, whatever parameters come with them: only the OpenMetrics media
/// type reads the `escaping` parameter.
pub proof fn lemma_plain_text_offers_escaped_names(media: Seq<char>, st: RangeParams, allow_protobuf: bool)
    requires
        eq_ignore_ascii_case(media, "text/plain"@) || media == "*/*"@,
    ensures
        format_for(media, st, allow_protobuf) == Some(ScrapeFormat::Text { utf8_names: false }),
{
    reveal_strlit("text/plain");
    reveal_strlit("*/*");
    reveal_strlit("application/openmetrics-text");
    reveal_strlit("application/vnd.google.protobuf");
    assert(!eq_ignore_ascii_case(media, "application/vnd.google.protobuf"@));
    assert(!eq_ignore_ascii_case(media, "application/openmetrics-text"@));
}

/// A media range for `text/plain` or `*/*` offers escaped-name text at its
/// weight, whatever its other parameters, and nothing when it has no usable
/// weight.
pub proof fn lemma_plain_text_range_offer(range: Seq<char>, allow_protobuf: bool)
    requires
        eq_ignore_ascii_case(range_parts(range)[0], "text/plain"@) || range_parts(range)[0] == "*/*"@,
    ensures
        range_offer(range, allow_protobuf) == match range_params(range_parts(range).skip(1)).quality {
            Some(q) => Some((q, ScrapeFormat::Text { utf8_names: false })),
            None => None,
        },
{
    reveal_strlit("text/plain");
    reveal_strlit("*/*");
    lemma_plain_text_offers_escaped_names(
        range_parts(range)[0],
        range_params(range_parts(range).skip(1)),
        allow_protobuf,
    );
}

/// Names are served unescaped only to a scraper that asked for them: when
/// negotiation picks text with UTF-8 names, some media range of the header is
/// `application/openmetrics-text` (in any case) with `escaping=allow-utf-8`.
pub proof fn lemma_utf8_names_need_openmetrics(accept: Seq<char>, allow_protobuf: bool)
    ensures
        negotiated(Some(accept), allow_protobuf) == Some(ScrapeFormat::Text { utf8_names: true })
            ==> exists|i: int|
            0 <= i < split(accept, ',').len() && {
                let parts = range_parts(#[trigger] split(accept, ',')[i]);
                &&& eq_ignore_ascii_case(parts[0], "application/openmetrics-text"@)
                &&& range_params(parts.skip(1)).escaping matches Some(e) && eq_ignore_ascii_case(
                    e,
                    "allow-utf-8"@,
                )
            },
{
    if negotiated(Some(accept), allow_protobuf) == Some(ScrapeFormat::Text { utf8_names: true }) {
        let offers = header_offers(accept, allow_protobuf);
        lemma_best_offer_earliest_best(offers);
        let x = best_offer(offers)->0;
        let i = choose|i: int| is_earliest_best(offers, i) && offers[i] == Some(x);
        let range = split(accept, ',')[i];
        let parts = range_parts(range);
        let media = parts[0];
        let st = range_params(parts.skip(1));
        assert(offers[i] == range_offer(range, allow_protobuf));
        reveal_strlit("text/plain");
        reveal_strlit("*/*");
        reveal_strlit("application/openmetrics-text");
        reveal_strlit("application/vnd.google.protobuf");
        assert(format_for(media, st, allow_protobuf) == Some(ScrapeFormat::Text { utf8_names: true }));
        if eq_ignore_ascii_case(media, "application/vnd.google.protobuf"@) {
            assert(false);
        }
        assert(eq_ignore_ascii_case(media, "application/openmetrics-text"@));
    }
}

} // verus!
