//! The values of a finished span as OpenTelemetry (OTLP) carries them: ids as
//! big-endian bytes, the W3C sampled flag, the error status and times in
//! nanoseconds since the Unix epoch.

use vstd::prelude::*;
use crate::settings::OtlpUdsOutputSettings;

verus! {

/// The 8 bytes of `x`, most significant first.
pub open spec fn be_bytes(x: u64) -> Seq<u8> {
    Seq::new(8, |i: int| (x >> ((56 - 8 * i) as u64)) as u8)
}

/// The 8 bytes of `x`, most significant first.
pub fn to_be_bytes(x: u64) -> (r: Vec<u8>)
    ensures
        r@ == be_bytes(x),
{
    let mut r: Vec<u8> = Vec::new();
    let mut i: u64 = 0;
    while i < 8
        invariant
            i <= 8,
            r@.len() == i,
            forall|j: int| 0 <= j < i ==> r@[j] == (x >> ((56 - 8 * j) as u64)) as u8,
        decreases 8 - i,
    {
        r.push((x >> (56 - 8 * i)) as u8);
        i = i + 1;
    }
    assert(r@ =~= be_bytes(x));
    r
}

/// A trace id as 16 bytes: the high half, then the low half, each most
/// significant byte first.
pub fn convert_trace_id(trace_id_high: u64, trace_id_low: u64) -> (r: Vec<u8>)
    ensures
        r@ == be_bytes(trace_id_high) + be_bytes(trace_id_low),
{
    let mut r = to_be_bytes(trace_id_high);
    let mut low = to_be_bytes(trace_id_low);
    r.append(&mut low);
    r
}

/// A span id as 8 bytes, most significant first.
pub fn convert_span_id(span_id: u64) -> (r: Vec<u8>)
    ensures
        r@ == be_bytes(span_id),
{
    to_be_bytes(span_id)
}

/// How a span refers to another: the referenced span's id.
#[derive(Clone, Copy, Debug, PartialEq, Eq, Structural)]
pub enum SpanReference {
    /// The span is a child of the referenced span.
    ChildOf(u64),
    /// The span follows from the referenced span.
    FollowsFrom(u64),
}

/// The id of the first span that `refs` names as a parent.
pub open spec fn first_parent(refs: Seq<SpanReference>) -> Option<u64>
    decreases refs.len(),
{
    if refs.len() == 0 {
        None
    } else {
        match refs[0] {
            SpanReference::ChildOf(id) => Some(id),
            SpanReference::FollowsFrom(_) => first_parent(refs.drop_first()),
        }
    }
}

/// The parent span id: that of the first span the references name as a
/// parent, as 8 big-endian bytes; no bytes for a span without a parent.
pub fn convert_parent_span_id(references: &Vec<SpanReference>) -> (r: Vec<u8>)
    ensures
        r@ == match first_parent(references@) {
            Some(id) => be_bytes(id),
            None => Seq::empty(),
        },
{
    let mut i: usize = 0;
    assert(references@.skip(0) =~= references@);
    while i < references.len()
        invariant
            i <= references@.len(),
            first_parent(references@) == first_parent(references@.skip(i as int)),
        decreases references@.len() - i,
    {
        proof {
            let rest = references@.skip(i as int);
            assert(rest[0] == references@[i as int]);
            assert(rest.drop_first() =~= references@.skip(i + 1));
        }
        match references[i] {
            SpanReference::ChildOf(id) => {
                return to_be_bytes(id);
            },
            SpanReference::FollowsFrom(_) => {},
        }
        i = i + 1;
    }
    assert(references@.skip(i as int).len() == 0);
    Vec::new()
}

/// The parent is the first `ChildOf` reference, wherever it stands: when the
/// reference at `i` is the first `ChildOf` one, its id is the parent, and a
/// span has no parent exactly when none of its references is `ChildOf`.
pub proof fn lemma_parent_is_first_child_of(refs: Seq<SpanReference>)
    ensures
        forall|i: int|
            0 <= i < refs.len() && (#[trigger] refs[i]) is ChildOf && (forall|j: int|
                0 <= j < i ==> refs[j] is FollowsFrom) ==> first_parent(refs) == Some(refs[i]->ChildOf_0),
        first_parent(refs) is None <==> forall|i: int| 0 <= i < refs.len() ==> (#[trigger] refs[i]) is FollowsFrom,
    decreases refs.len(),
{
    if refs.len() > 0 {
        let rest = refs.drop_first();
        lemma_parent_is_first_child_of(rest);
        assert forall|i: int|
            0 <= i < refs.len() && (#[trigger] refs[i]) is ChildOf && (forall|j: int|
                0 <= j < i ==> refs[j] is FollowsFrom) implies first_parent(refs) == Some(refs[i]->ChildOf_0) by {
            if i > 0 {
                assert(refs[0] is FollowsFrom);
                assert(rest[i - 1] == refs[i]);
                assert forall|j: int| 0 <= j < i - 1 implies rest[j] is FollowsFrom by {
                    assert(rest[j] == refs[j + 1]);
                }
            }
        }
        if first_parent(refs) is None {
            assert(refs[0] is FollowsFrom);
            assert forall|i: int| 0 <= i < refs.len() implies (#[trigger] refs[i]) is FollowsFrom by {
                if i > 0 {
                    assert(rest[i - 1] == refs[i]);
                }
            }
        } else {
            if forall|i: int| 0 <= i < refs.len() ==> (#[trigger] refs[i]) is FollowsFrom {
                assert(refs[0] is FollowsFrom);
                assert forall|i: int| 0 <= i < rest.len() implies (#[trigger] rest[i]) is FollowsFrom by {
                    assert(rest[i] == refs[i + 1]);
                }
            }
        }
    }
}

/// The 8 big-endian bytes of a number spell it: the first byte is the most
/// significant, and reading them back in base 256 gives the number.
pub proof fn lemma_be_bytes_spell(x: u64)
    ensures
        be_bytes(x).len() == 8,
        ({
            let b = be_bytes(x);
            x == (((((((b[0] as int) * 256 + b[1]) * 256 + b[2]) * 256 + b[3]) * 256 + b[4]) * 256
                + b[5]) * 256 + b[6]) * 256 + b[7]
        }),
{
    let b = be_bytes(x);
    let b0 = (x >> 56u64) as u8;
    let b1 = (x >> 48u64) as u8;
    let b2 = (x >> 40u64) as u8;
    let b3 = (x >> 32u64) as u8;
    let b4 = (x >> 24u64) as u8;
    let b5 = (x >> 16u64) as u8;
    let b6 = (x >> 8u64) as u8;
    let b7 = (x >> 0u64) as u8;
    assert(b[0] == b0 && b[1] == b1 && b[2] == b2 && b[3] == b3);
    assert(b[4] == b4 && b[5] == b5 && b[6] == b6 && b[7] == b7);
    assert(x == (((((((b0 as int) * 256 + b1) * 256 + b2) * 256 + b3) * 256 + b4) * 256 + b5) * 256
        + b6) * 256 + b7) by (bit_vector)
        requires
            b0 == (x >> 56u64) as u8,
            b1 == (x >> 48u64) as u8,
            b2 == (x >> 40u64) as u8,
            b3 == (x >> 32u64) as u8,
            b4 == (x >> 24u64) as u8,
            b5 == (x >> 16u64) as u8,
            b6 == (x >> 8u64) as u8,
            b7 == (x >> 0u64) as u8,
    ;
}

/// The number that bytes spell in base 256, most significant first.
pub open spec fn be_number(b: Seq<u8>) -> nat
    decreases b.len(),
{
    if b.len() == 0 {
        0
    } else {
        be_number(b.drop_last()) * 256 + b.last() as nat
    }
}

/// The big-endian bytes of a number read back as that number.
pub proof fn lemma_be_bytes_read_back(x: u64)
    ensures
        be_bytes(x).len() == 8,
        be_number(be_bytes(x)) == x,
{
    lemma_be_bytes_spell(x);
    let b = be_bytes(x);
    assert(b.take(0) =~= Seq::<u8>::empty());
    assert(b.take(1).drop_last() =~= b.take(0));
    assert(b.take(2).drop_last() =~= b.take(1));
    assert(b.take(3).drop_last() =~= b.take(2));
    assert(b.take(4).drop_last() =~= b.take(3));
    assert(b.take(5).drop_last() =~= b.take(4));
    assert(b.take(6).drop_last() =~= b.take(5));
    assert(b.take(7).drop_last() =~= b.take(6));
    assert(b.take(8).drop_last() =~= b.take(7));
    assert(be_number(b.take(0)) == 0);
    assert(be_number(b.take(1)) == b[0] as int);
    assert(be_number(b.take(2)) == (b[0] as int) * 256 + b[1]);
    assert(be_number(b.take(3)) == ((b[0] as int) * 256 + b[1]) * 256 + b[2]);
    assert(be_number(b.take(4)) == (((b[0] as int) * 256 + b[1]) * 256 + b[2]) * 256 + b[3]);
    assert(be_number(b.take(5)) == ((((b[0] as int) * 256 + b[1]) * 256 + b[2]) * 256 + b[3]) * 256
        + b[4]);
    assert(be_number(b.take(6)) == (((((b[0] as int) * 256 + b[1]) * 256 + b[2]) * 256 + b[3]) * 256
        + b[4]) * 256 + b[5]);
    assert(be_number(b.take(7)) == ((((((b[0] as int) * 256 + b[1]) * 256 + b[2]) * 256 + b[3])
        * 256 + b[4]) * 256 + b[5]) * 256 + b[6]);
    assert(be_number(b.take(8)) == (((((((b[0] as int) * 256 + b[1]) * 256 + b[2]) * 256 + b[3])
        * 256 + b[4]) * 256 + b[5]) * 256 + b[6]) * 256 + b[7]);
    assert(b.take(8) =~= b);
}

/// The W3C sampled flag: 1 for a sampled span, 0 otherwise.
pub fn convert_sampled_flag(sampled: bool) -> (r: u32)
    ensures
        r == if sampled {
            1u32
        } else {
            0u32
        },
{
    if sampled {
        0x01
    } else {
        0x00
    }
}

/// Whether a span with tags of these names has the error status: it has a
/// tag named `error`.
pub fn has_error_tag(tag_names: &Vec<String>) -> (r: bool)
    ensures
        r == exists|i: int| 0 <= i < tag_names@.len() && (#[trigger] tag_names@[i])@ == "error"@,
{
    let error = "error".to_owned();
    let mut i: usize = 0;
    while i < tag_names.len()
        invariant
            i <= tag_names@.len(),
            error@ == "error"@,
            forall|j: int| 0 <= j < i ==> (#[trigger] tag_names@[j])@ != "error"@,
        decreases tag_names@.len() - i,
    {
        if tag_names[i] == error {
            return true;
        }
        i = i + 1;
    }
    false
}

/// A time as OTLP carries it: nanoseconds since the Unix epoch, wrapped to 64
/// bits; zero for a time before the epoch (`None`).
pub fn convert_time(nanos_since_epoch: Option<u128>) -> (r: u64)
    ensures
        r == match nanos_since_epoch {
            Some(n) => n % 0x1_0000_0000_0000_0000,
            None => 0,
        },
{
    match nanos_since_epoch {
        Some(n) => {
            let r = n as u64;
            assert(r == n % 0x1_0000_0000_0000_0000) by (bit_vector)
                requires
                    r == n as u64,
            ;
            r
        },
        None => 0,
    }
}

/// Why an OTLP-over-UDS output cannot be set up.
#[derive(Clone, Copy, Debug, PartialEq, Eq, Structural)]
pub enum OtlpUdsSetupError {
    /// No socket path is configured.
    EmptySocketPath,
}

impl OtlpUdsSetupError {
    /// The error's message.
    pub fn message(self) -> (r: &'static str)
        ensures
            r@ == "user tracing OTLP UDS `socket_path` must be set"@,
    {
        "user tracing OTLP UDS `socket_path` must be set"
    }
}

/// Exports user tracing spans as OTLP over a Unix domain socket.
#[derive(Debug)]
pub struct OtlpUdsClient {
    socket_path: String,
}

impl OtlpUdsClient {
    /// The path of the socket the client sends to.
    pub closed spec fn spec_socket_path(&self) -> Seq<char> {
        self.socket_path@
    }

    /// A client for the configured socket; an error when no socket path is
    /// configured.
    pub fn new(settings: &OtlpUdsOutputSettings) -> (r: Result<Self, OtlpUdsSetupError>)
        ensures
            settings.socket_path@.len() == 0 <==> r is Err,
            r matches Ok(c) ==> c.spec_socket_path() == settings.socket_path@,
            r matches Err(e) ==> e == OtlpUdsSetupError::EmptySocketPath,
    {
        if settings.socket_path.as_str().is_empty() {
            return Err(OtlpUdsSetupError::EmptySocketPath);
        }
        Ok(OtlpUdsClient { socket_path: settings.socket_path.clone() })
    }

    /// The path of the socket the client sends to.
    pub fn socket_path(&self) -> (r: &str)
        ensures
            r@ == self.spec_socket_path(),
    {
        self.socket_path.as_str()
    }
}

/// The positions, in increasing order, of the first `n` spans that belong to
/// zone `zone`.
pub open spec fn zone_members(zones: Seq<Option<u64>>, zone: u64, n: nat) -> Seq<usize>
    decreases n,
{
    if n == 0 {
        Seq::empty()
    } else if zones[n - 1] == Some(zone) {
        zone_members(zones, zone, (n - 1) as nat).push((n - 1) as usize)
    } else {
        zone_members(zones, zone, (n - 1) as nat)
    }
}

/// Whether `groups` groups the spans of the given zones (`None` for a span
/// without routing): one group per zone that a span belongs to, in the order
/// the zones first appear, each with the positions of its spans in order.
pub open spec fn groups_spans_by_zone(
    zones: Seq<Option<u64>>,
    groups: Seq<(u64, Seq<usize>)>,
    n: nat,
) -> bool {
    &&& forall|g: int| 0 <= g < groups.len() ==> (#[trigger] groups[g]).1 == zone_members(zones, groups[g].0, n)
    &&& forall|g: int, h: int| 0 <= g < h < groups.len() ==> (#[trigger] groups[g]).0 != (#[trigger] groups[h]).0
    &&& forall|i: int| 0 <= i < n && (#[trigger] zones[i]) is Some ==> exists|g: int|
        0 <= g < groups.len() && (#[trigger] groups[g]).0 == zones[i]->0
    &&& forall|g: int| 0 <= g < groups.len() ==> exists|i: int|
        0 <= i < n && #[trigger] zones[i] == Some((#[trigger] groups[g]).0)
}

proof fn lemma_zone_members_other(zones: Seq<Option<u64>>, zone: u64, n: nat)
    requires
        n < zones.len(),
        zones[n as int] != Some(zone),
    ensures
        zone_members(zones, zone, n + 1) == zone_members(zones, zone, n),
{
    assert((n + 1 - 1) as nat == n);
}

proof fn lemma_zone_members_none(zones: Seq<Option<u64>>, zone: u64, n: nat)
    requires
        n <= zones.len(),
        forall|i: int| 0 <= i < n ==> zones[i] != Some(zone),
    ensures
        zone_members(zones, zone, n) == Seq::<usize>::empty(),
    decreases n,
{
    if n > 0 {
        lemma_zone_members_none(zones, zone, (n - 1) as nat);
    }
}

proof fn lemma_group_skip(zones: Seq<Option<u64>>, groups: Seq<(u64, Seq<usize>)>, n: nat)
    requires
        groups_spans_by_zone(zones, groups, n),
        n < zones.len(),
        zones[n as int] is None,
    ensures
        groups_spans_by_zone(zones, groups, n + 1),
{
    assert forall|g: int| 0 <= g < groups.len() implies (#[trigger] groups[g]).1 == zone_members(zones, groups[g].0, n + 1) by {
        lemma_zone_members_other(zones, groups[g].0, n);
    }
    assert forall|g: int| 0 <= g < groups.len() implies exists|t: int|
        0 <= t < n + 1 && #[trigger] zones[t] == Some((#[trigger] groups[g]).0) by {
        let t = choose|t: int| 0 <= t < n && #[trigger] zones[t] == Some(groups[g].0);
    }
}

proof fn lemma_group_extend(zones: Seq<Option<u64>>, groups: Seq<(u64, Seq<usize>)>, n: nat, j: int)
    requires
        groups_spans_by_zone(zones, groups, n),
        n < zones.len(),
        n <= usize::MAX,
        0 <= j < groups.len(),
        zones[n as int] == Some(groups[j].0),
    ensures
        groups_spans_by_zone(
            zones,
            groups.update(j, (groups[j].0, groups[j].1.push(n as usize))),
            n + 1,
        ),
{
    let z = groups[j].0;
    let after = groups.update(j, (z, groups[j].1.push(n as usize)));
    assert((n + 1 - 1) as nat == n);
    assert forall|g: int| 0 <= g < after.len() implies (#[trigger] after[g]).1 == zone_members(zones, after[g].0, n + 1) by {
        if g != j {
            if g < j {
                assert(groups[g].0 != groups[j].0);
            } else {
                assert(groups[j].0 != groups[g].0);
            }
            lemma_zone_members_other(zones, groups[g].0, n);
        }
    }
    assert forall|t: int| 0 <= t < n + 1 && (#[trigger] zones[t]) is Some implies exists|g: int|
        0 <= g < after.len() && (#[trigger] after[g]).0 == zones[t]->0 by {
        if t < n {
            let g = choose|g: int| 0 <= g < groups.len() && (#[trigger] groups[g]).0 == zones[t]->0;
            assert(after[g].0 == groups[g].0);
        } else {
            assert(after[j].0 == z);
        }
    }
    assert forall|g: int| 0 <= g < after.len() implies exists|t: int|
        0 <= t < n + 1 && #[trigger] zones[t] == Some((#[trigger] after[g]).0) by {
        assert(after[g].0 == groups[g].0);
        let t = choose|t: int| 0 <= t < n && #[trigger] zones[t] == Some(groups[g].0);
    }
}

proof fn lemma_group_new_members(
    zones: Seq<Option<u64>>,
    groups: Seq<(u64, Seq<usize>)>,
    n: nat,
    z: u64,
)
    requires
        forall|g: int| 0 <= g < groups.len() ==> (#[trigger] groups[g]).1 == zone_members(zones, groups[g].0, n),
        forall|t: int| 0 <= t < n && (#[trigger] zones[t]) is Some ==> exists|g: int|
            0 <= g < groups.len() && (#[trigger] groups[g]).0 == zones[t]->0,
        n < zones.len(),
        n <= usize::MAX,
        zones[n as int] == Some(z),
        forall|g: int| 0 <= g < groups.len() ==> (#[trigger] groups[g]).0 != z,
    ensures
        forall|g: int| 0 <= g < groups.push((z, seq![n as usize])).len() ==> (#[trigger] groups.push((z, seq![n as usize]))[g]).1 == zone_members(
            zones,
            groups.push((z, seq![n as usize]))[g].0,
            n + 1,
        ),
{
    let after = groups.push((z, seq![n as usize]));
    let k = groups.len() as int;
    assert forall|t: int| 0 <= t < n implies zones[t] != Some(z) by {
        if zones[t] == Some(z) {
            let g = choose|g: int| 0 <= g < groups.len() && (#[trigger] groups[g]).0 == zones[t]->0;
        }
    }
    lemma_zone_members_none(zones, z, n);
    assert((n + 1 - 1) as nat == n);
    assert(after[k].1 =~= zone_members(zones, z, n + 1));
    assert forall|g: int| 0 <= g < after.len() implies (#[trigger] after[g]).1 == zone_members(zones, after[g].0, n + 1) by {
        if g < k {
            lemma_zone_members_other(zones, groups[g].0, n);
        }
    }
}

proof fn lemma_group_new(zones: Seq<Option<u64>>, groups: Seq<(u64, Seq<usize>)>, n: nat, z: u64)
    requires
        groups_spans_by_zone(zones, groups, n),
        n < zones.len(),
        n <= usize::MAX,
        zones[n as int] == Some(z),
        forall|g: int| 0 <= g < groups.len() ==> (#[trigger] groups[g]).0 != z,
    ensures
        groups_spans_by_zone(zones, groups.push((z, seq![n as usize])), n + 1),
{
    let after = groups.push((z, seq![n as usize]));
    let k = groups.len() as int;
    lemma_group_new_members(zones, groups, n, z);
    assert forall|t: int| 0 <= t < n + 1 && (#[trigger] zones[t]) is Some implies exists|g: int|
        0 <= g < after.len() && (#[trigger] after[g]).0 == zones[t]->0 by {
        if t < n {
            let g = choose|g: int| 0 <= g < groups.len() && (#[trigger] groups[g]).0 == zones[t]->0;
            assert(after[g] == groups[g]);
        } else {
            assert(after[k].0 == z);
        }
    }
    assert forall|g: int| 0 <= g < after.len() implies exists|t: int|
        0 <= t < n + 1 && #[trigger] zones[t] == Some((#[trigger] after[g]).0) by {
        if g < k {
            assert(after[g] == groups[g]);
            let t = choose|t: int| 0 <= t < n && #[trigger] zones[t] == Some(groups[g].0);
        } else {
            assert(zones[n as int] == Some(after[g].0));
        }
    }
}

/// The groups as values.
pub open spec fn group_views(r: Seq<(u64, Vec<usize>)>) -> Seq<(u64, Seq<usize>)> {
    r.map_values(|g: (u64, Vec<usize>)| (g.0, g.1@))
}

/// Groups spans by the zone of their routing: spans without routing are left
/// out, each zone gets one group, in the order the zones first appear, with
/// the positions of its spans in order.
pub fn group_by_zone(zones: &Vec<Option<u64>>) -> (r: Vec<(u64, Vec<usize>)>)
    ensures
        groups_spans_by_zone(zones@, group_views(r@), zones@.len()),
{
    let mut r: Vec<(u64, Vec<usize>)> = Vec::new();
    let mut i: usize = 0;
    assert(group_views(r@) =~= Seq::<(u64, Seq<usize>)>::empty());
    while i < zones.len()
        invariant
            i <= zones@.len(),
            groups_spans_by_zone(zones@, group_views(r@), i as nat),
        decreases zones@.len() - i,
    {
        let ghost before = group_views(r@);
        match zones[i] {
            None => {
                proof {
                    lemma_group_skip(zones@, before, i as nat);
                }
            },
            Some(z) => {
                let mut j: usize = 0;
                while j < r.len()
                    invariant
                        j <= r@.len(),
                        before == group_views(r@),
                        forall|h: int| 0 <= h < j ==> (#[trigger] before[h]).0 != z,
                    ensures
                        j <= r@.len(),
                        j < r@.len() ==> before[j as int].0 == z,
                        forall|h: int| 0 <= h < j ==> (#[trigger] before[h]).0 != z,
                    decreases r@.len() - j,
                {
                    if r[j].0 == z {
                        assert(before[j as int].0 == r@[j as int].0);
                        break;
                    }
                    assert(before[j as int].0 == r@[j as int].0);
                    j = j + 1;
                }
                if j < r.len() {
                    let mut m = r[j].1.clone();
                    proof {
                        assert(m@ =~= before[j as int].1);
                        lemma_group_extend(zones@, before, i as nat, j as int);
                    }
                    m.push(i);
                    r.set(j, (z, m));
                    proof {
                        assert(group_views(r@) =~= before.update(
                            j as int,
                            (before[j as int].0, before[j as int].1.push(i)),
                        ));
                    }
                } else {
                    proof {
                        lemma_group_new(zones@, before, i as nat, z);
                    }
                    let single = vec![i];
                    assert(single@ =~= seq![i]);
                    r.push((z, single));
                    proof {
                        assert(group_views(r@) =~= before.push((z, seq![i])));
                    }
                }
            },
        }
        i = i + 1;
    }
    r
}

} // verus!
