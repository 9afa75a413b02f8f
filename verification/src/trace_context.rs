//! What the current tracing span tells about its trace: whether it is sampled,
//! its trace id as text, and the W3C `traceparent` value that continues it.

use vstd::prelude::*;
use crate::formatting::{
    hex_digit_char, hex_digit_value, hex_digits, hex_number, push_all, push_hex_padded,
    string_from_chars, zero_pad,
};
use crate::otlp::be_bytes;
use crate::traceparent::{
    all_zero, format_traceparent, hex_char, hex_encode, lemma_traceparent_roundtrip,
    parse_traceparent, TraceparentSpec,
};

verus! {

/// The identifying state of a span's context: the trace id's two halves, the
/// span id and the trace flags.
#[derive(Clone, Copy, Debug, PartialEq, Eq, Structural)]
pub struct TraceState {
    pub trace_id_high: u64,
    pub trace_id_low: u64,
    pub span_id: u64,
    pub flags: u8,
}

/// What the telemetry context knows of the span that is current.
#[derive(Clone, Copy, Debug, PartialEq, Eq, Structural)]
pub struct CurrentSpan {
    /// Whether the span is sampled.
    pub is_sampled: bool,
    /// The span's context, when it has one.
    pub state: Option<TraceState>,
}

/// The text of a trace id, as `cf_rustracing_jaeger`'s `TraceId` displays it.
pub open spec fn trace_id_text(high: u64, low: u64) -> Seq<char> {
    if high == 0 {
        hex_digits(low as nat)
    } else {
        hex_digits(high as nat) + zero_pad(hex_digits(low as nat), 16)
    }
}

/// The W3C `traceparent` value for a span's state:
/// `00-{high:016x}{low:016x}-{span:016x}-{flags:02x}`.
pub open spec fn traceparent_text(s: TraceState) -> Seq<char> {
    "00-"@ + zero_pad(hex_digits(s.trace_id_high as nat), 16) + zero_pad(
        hex_digits(s.trace_id_low as nat),
        16,
    ) + "-"@ + zero_pad(hex_digits(s.span_id as nat), 16) + "-"@ + zero_pad(
        hex_digits(s.flags as nat),
        2,
    )
}

/// `TraceId::to_string` of `cf_rustracing_jaeger`: the low half in lowercase
/// hex when the high half is zero, otherwise the high half in lowercase hex
/// followed by the low half as 16 zero-padded lowercase hex digits.
#[verifier::external_body]
pub(crate) fn trace_id_to_string(high: u64, low: u64) -> (s: String)
    ensures
        s@ == trace_id_text(high, low),
{
    cf_rustracing_jaeger::span::TraceId { high, low }.to_string()
}

/// Determines whether the current span is sampled; `false` when there is no
/// current span.
pub fn span_is_sampled(current: Option<&CurrentSpan>) -> (r: bool)
    ensures
        r == (current matches Some(span) && span.is_sampled),
{
    match current {
        Some(span) => span.is_sampled,
        None => false,
    }
}

/// Returns the trace id of the current span; `None` when there is no current
/// span or it has no context (it is not sampled).
pub fn trace_id(current: Option<&CurrentSpan>) -> (r: Option<String>)
    ensures
        match current {
            Some(span) => match span.state {
                Some(st) => r matches Some(t) && t@ == trace_id_text(
                    st.trace_id_high,
                    st.trace_id_low,
                ),
                None => r is None,
            },
            None => r is None,
        },
{
    match current {
        Some(span) => match span.state {
            Some(st) => Some(trace_id_to_string(st.trace_id_high, st.trace_id_low)),
            None => None,
        },
        None => None,
    }
}

/// Returns the value to be used as a W3C `traceparent` header for the current
/// span; `None` when there is no current span or it has no context.
pub fn w3c_traceparent(current: Option<&CurrentSpan>) -> (r: Option<String>)
    ensures
        match current {
            Some(span) => match span.state {
                Some(st) => r matches Some(t) && t@ == traceparent_text(st),
                None => r is None,
            },
            None => r is None,
        },
{
    let st = match current {
        Some(span) => match span.state {
            Some(st) => st,
            None => return None,
        },
        None => return None,
    };
    let mut out: Vec<char> = Vec::new();
    let prefix = crate::text::chars_of("00-");
    let dash = crate::text::chars_of("-");
    push_all(&mut out, &prefix);
    push_hex_padded(&mut out, st.trace_id_high, 16);
    push_hex_padded(&mut out, st.trace_id_low, 16);
    push_all(&mut out, &dash);
    push_hex_padded(&mut out, st.span_id, 16);
    push_all(&mut out, &dash);
    push_hex_padded(&mut out, st.flags as u64, 2);
    assert(out@ =~= traceparent_text(st));
    Some(string_from_chars(out))
}

/// The last `k` lowercase hexadecimal digits of `x`, with leading zeros.
spec fn hex_fixed(x: nat, k: nat) -> Seq<char>
    decreases k,
{
    if k == 0 {
        Seq::empty()
    } else {
        hex_fixed(x / 16, (k - 1) as nat).push(hex_digit_char(x % 16))
    }
}

/// `16^k`.
spec fn pow16(k: nat) -> nat
    decreases k,
{
    if k == 0 {
        1
    } else {
        16 * pow16((k - 1) as nat)
    }
}

proof fn lemma_hex_fixed_pads(x: nat, k: nat)
    requires
        k >= 1,
        x < pow16(k),
    ensures
        zero_pad(hex_digits(x), k) == hex_fixed(x, k),
    decreases k,
{
    if x < 16 {
        lemma_hex_fixed_zero_prefix(x, k);
    } else {
        assert(k >= 2) by {
            if k == 1 {
                reveal_with_fuel(pow16, 2);
            }
        }
        assert(x / 16 < pow16((k - 1) as nat)) by (nonlinear_arith)
            requires
                x < 16 * pow16((k - 1) as nat),
        ;
        lemma_hex_fixed_pads(x / 16, (k - 1) as nat);
        let inner = hex_digits(x / 16);
        assert(hex_digits(x) == inner.push(hex_digit_char(x % 16)));
        lemma_hex_digits_fit(x / 16, (k - 1) as nat);
        assert(zero_pad(hex_digits(x), k) =~= zero_pad(inner, (k - 1) as nat).push(
            hex_digit_char(x % 16),
        ));
    }
}

proof fn lemma_hex_digits_fit(x: nat, k: nat)
    requires
        k >= 1,
        x < pow16(k),
    ensures
        hex_digits(x).len() <= k,
    decreases k,
{
    if x >= 16 {
        assert(k >= 2) by {
            if k == 1 {
                reveal_with_fuel(pow16, 2);
            }
        }
        assert(x / 16 < pow16((k - 1) as nat)) by (nonlinear_arith)
            requires
                x < 16 * pow16((k - 1) as nat),
        ;
        lemma_hex_digits_fit(x / 16, (k - 1) as nat);
    }
}

proof fn lemma_hex_fixed_zero_prefix(x: nat, k: nat)
    requires
        k >= 1,
        x < 16,
    ensures
        zero_pad(hex_digits(x), k) == hex_fixed(x, k),
    decreases k,
{
    if k == 1 {
        assert(hex_fixed(x / 16, 0) =~= Seq::<char>::empty());
        assert(zero_pad(hex_digits(x), 1) =~= hex_fixed(x, 1));
    } else {
        lemma_hex_fixed_zeros((k - 1) as nat);
        assert(hex_digit_char(0) == '0');
        assert(zero_pad(hex_digits(x), k) =~= hex_fixed(x, k));
    }
}

proof fn lemma_hex_fixed_zeros(k: nat)
    ensures
        hex_fixed(0, k) == Seq::new(k, |i: int| '0'),
    decreases k,
{
    if k > 0 {
        lemma_hex_fixed_zeros((k - 1) as nat);
        assert(hex_digit_char(0) == '0');
        assert(hex_fixed(0, k) =~= Seq::new(k, |i: int| '0'));
    }
}

proof fn lemma_hex_number_digit(d: nat)
    requires
        d < 16,
    ensures
        hex_digit_value(hex_digit_char(d)) == d,
{
}

/// The digits of `hex_digits(n)` spell `n`.
proof fn lemma_hex_number_of_digits(n: nat)
    ensures
        hex_number(hex_digits(n)) == n,
    decreases n,
{
    if n < 16 {
        lemma_hex_number_digit(n);
        let s = hex_digits(n);
        assert(s.drop_last() =~= Seq::<char>::empty());
        assert(hex_number(s.drop_last()) == 0);
        assert(s.last() == hex_digit_char(n));
    } else {
        lemma_hex_number_of_digits(n / 16);
        lemma_hex_number_digit(n % 16);
        let s = hex_digits(n);
        assert(s.drop_last() =~= hex_digits(n / 16));
        assert(s.last() == hex_digit_char(n % 16));
        assert(hex_number(s) == hex_number(hex_digits(n / 16)) * 16 + n % 16);
    }
}

/// The digits of `hex_fixed(x, k)` spell `x` modulo `16^k`, in `k` digits.
proof fn lemma_hex_number_of_fixed(x: nat, k: nat)
    ensures
        hex_fixed(x, k).len() == k,
        hex_number(hex_fixed(x, k)) == x % pow16(k),
    decreases k,
{
    if k > 0 {
        lemma_hex_number_of_fixed(x / 16, (k - 1) as nat);
        lemma_hex_number_digit(x % 16);
        let s = hex_fixed(x, k);
        assert(s.drop_last() =~= hex_fixed(x / 16, (k - 1) as nat));
        let p = pow16((k - 1) as nat);
        assert(p > 0) by {
            lemma_pow16_positive((k - 1) as nat);
        }
        assert(((x / 16) % p) * 16 + x % 16 == x % (16 * p)) by {
            vstd::arithmetic::div_mod::lemma_breakdown(x as int, 16, p as int);
            vstd::arithmetic::div_mod::lemma_fundamental_div_mod(x as int, (16 * p) as int);
            vstd::arithmetic::div_mod::lemma_div_denominator(x as int, 16, p as int);
            vstd::arithmetic::div_mod::lemma_mod_breakdown(x as int, 16, p as int);
        }
    } else {
        assert(x % 1 == 0);
    }
}

proof fn lemma_pow16_positive(k: nat)
    ensures
        pow16(k) > 0,
    decreases k,
{
    if k > 0 {
        lemma_pow16_positive((k - 1) as nat);
    }
}

/// Digits appended after others shift them by one hexadecimal place each.
proof fn lemma_hex_number_append(a: Seq<char>, b: Seq<char>)
    ensures
        hex_number(a + b) == hex_number(a) * pow16(b.len()) + hex_number(b),
    decreases b.len(),
{
    if b.len() == 0 {
        assert(a + b =~= a);
        assert(hex_number(b) == 0);
        assert(pow16(0) == 1);
    } else {
        let b0 = b.drop_last();
        lemma_hex_number_append(a, b0);
        assert((a + b).drop_last() =~= a + b0);
        assert((a + b).last() == b.last());
        let p = pow16(b0.len());
        assert(pow16(b.len()) == 16 * p);
        assert((hex_number(a) * p + hex_number(b0)) * 16 + hex_digit_value(b.last()) == hex_number(a)
            * (16 * p) + (hex_number(b0) * 16 + hex_digit_value(b.last()))) by (nonlinear_arith);
    }
}

/// A trace id's text spells the whole 128-bit id in hexadecimal: reading its
/// digits back gives the high half times 2^64 plus the low half.
pub proof fn lemma_trace_id_text_spells_the_id(high: u64, low: u64)
    ensures
        hex_number(trace_id_text(high, low)) == high as int * 0x1_0000_0000_0000_0000 + low as int,
{
    lemma_hex_number_of_digits(low as nat);
    if high != 0 {
        assert(pow16(16) == 0x1_0000_0000_0000_0000) by {
            reveal_with_fuel(pow16, 17);
        }
        lemma_hex_fixed_pads(low as nat, 16);
        lemma_hex_number_of_fixed(low as nat, 16);
        lemma_hex_number_of_digits(high as nat);
        lemma_hex_number_append(hex_digits(high as nat), hex_fixed(low as nat, 16));
        assert((low as nat) % 0x1_0000_0000_0000_0000 == low as nat);
    }
}

/// Different trace ids have different texts: the text of a trace id
/// determines both of its halves.
pub proof fn lemma_trace_id_text_identifies(h1: u64, l1: u64, h2: u64, l2: u64)
    requires
        trace_id_text(h1, l1) == trace_id_text(h2, l2),
    ensures
        h1 == h2,
        l1 == l2,
{
    lemma_trace_id_text_spells_the_id(h1, l1);
    lemma_trace_id_text_spells_the_id(h2, l2);
    let m: int = 0x1_0000_0000_0000_0000;
    assert(h1 == h2 && l1 == l2) by (nonlinear_arith)
        requires
            h1 as int * m + l1 as int == h2 as int * m + l2 as int,
            m == 0x1_0000_0000_0000_0000,
            0 <= l1 < m,
            0 <= l2 < m,
            0 <= h1,
            0 <= h2,
    ;
}

/// The `n` bytes of `x mod 256^n`, most significant first.
spec fn bytes_of(x: nat, n: nat) -> Seq<u8>
    decreases n,
{
    if n == 0 {
        Seq::empty()
    } else {
        bytes_of(x / 256, (n - 1) as nat).push((x % 256) as u8)
    }
}

/// The characters of ASCII bytes.
spec fn ascii_chars(b: Seq<u8>) -> Seq<char> {
    b.map_values(|c: u8| c as char)
}

proof fn lemma_hex_encode_bytes_of(x: nat, n: nat)
    ensures
        ascii_chars(hex_encode(bytes_of(x, n))) == hex_fixed(x, 2 * n),
    decreases n,
{
    if n > 0 {
        lemma_hex_encode_bytes_of(x / 256, (n - 1) as nat);
        let b = (x % 256) as u8;
        let prev = bytes_of(x / 256, (n - 1) as nat);
        let e = hex_encode(prev.push(b));
        assert(e =~= hex_encode(prev) + seq![hex_char(b / 16), hex_char(b % 16)]);
        assert(x / 16 / 16 == x / 256) by {
            vstd::arithmetic::div_mod::lemma_div_denominator(x as int, 16, 16);
        }
        assert((x / 16) % 16 == (x % 256) / 16) by {
            vstd::arithmetic::div_mod::lemma_mod_breakdown(x as int, 16, 16);
        }
        assert(x % 16 == (x % 256) % 16) by {
            vstd::arithmetic::div_mod::lemma_mod_mod(x as int, 16, 16);
        }
        let k1 = (2 * n - 1) as nat;
        let k2 = (2 * (n - 1)) as nat;
        assert(hex_fixed(x, 2 * n) == hex_fixed(x / 16, k1).push(hex_digit_char(x % 16)));
        assert((k1 - 1) as nat == k2);
        assert(hex_fixed(x / 16, k1) == hex_fixed(x / 16 / 16, k2).push(
            hex_digit_char((x / 16) % 16),
        ));
        assert forall|d: u8| d < 16 implies (hex_char(d) as char) == hex_digit_char(d as nat) by {}
        assert(ascii_chars(e) =~= hex_fixed(x, 2 * n));
    }
}

proof fn lemma_be_bytes_of(x: u64)
    ensures
        be_bytes(x) == bytes_of(x as nat, 8),
{
    reveal_with_fuel(bytes_of, 9);
    let b = bytes_of(x as nat, 8);
    assert((x >> 56u64) as u8 == (x / 256 / 256 / 256 / 256 / 256 / 256 / 256 % 256) as u8) by (bit_vector);
    assert((x >> 48u64) as u8 == (x / 256 / 256 / 256 / 256 / 256 / 256 % 256) as u8) by (bit_vector);
    assert((x >> 40u64) as u8 == (x / 256 / 256 / 256 / 256 / 256 % 256) as u8) by (bit_vector);
    assert((x >> 32u64) as u8 == (x / 256 / 256 / 256 / 256 % 256) as u8) by (bit_vector);
    assert((x >> 24u64) as u8 == (x / 256 / 256 / 256 % 256) as u8) by (bit_vector);
    assert((x >> 16u64) as u8 == (x / 256 / 256 % 256) as u8) by (bit_vector);
    assert((x >> 8u64) as u8 == (x / 256 % 256) as u8) by (bit_vector);
    assert((x >> 0u64) as u8 == (x % 256) as u8) by (bit_vector);
    assert(be_bytes(x) =~= b);
}

/// The context that the `traceparent` value of a span's state carries.
pub open spec fn traceparent_context(s: TraceState) -> TraceparentSpec {
    TraceparentSpec {
        version: 0,
        trace_id: be_bytes(s.trace_id_high) + be_bytes(s.trace_id_low),
        parent_id: be_bytes(s.span_id),
        trace_flags: s.flags,
    }
}

/// The `traceparent` value of a span's state parses back to the state: the
/// trace id's halves and the span id as big-endian bytes and the flags, for
/// any state whose trace id and span id are not zero.
pub proof fn lemma_traceparent_of_state_parses_back(s: TraceState)
    requires
        s.trace_id_high != 0 || s.trace_id_low != 0,
        s.span_id != 0,
    ensures
        parse_traceparent(traceparent_text(s).map_values(|c: char| c as u8)) == Some(
            traceparent_context(s),
        ),
{
    let c = traceparent_context(s);
    let text = traceparent_text(s);
    lemma_hex_text_of_u64(s.trace_id_high);
    lemma_hex_text_of_u64(s.trace_id_low);
    lemma_hex_text_of_u64(s.span_id);
    lemma_hex_text_of_u8(s.flags);
    lemma_hex_text_of_u8(0);
    lemma_hex_encode_append(be_bytes(s.trace_id_high), be_bytes(s.trace_id_low));
    reveal_strlit("00-");
    reveal_strlit("-");
    let f = format_traceparent(c);
    assert(ascii_chars(f) =~= text);
    assert(text.map_values(|ch: char| ch as u8) =~= f) by {
        assert forall|i: int| 0 <= i < f.len() implies #[trigger] text[i] as u8 == f[i] by {
            let b = f[i];
            assert(text[i] == b as char);
            assert((b as char) as u8 == b);
        }
    }
    lemma_be_bytes_zero(s.trace_id_high);
    lemma_be_bytes_zero(s.trace_id_low);
    lemma_be_bytes_zero(s.span_id);
    assert(!all_zero(c.trace_id)) by {
        let t = c.trace_id;
        if s.trace_id_high != 0 {
            let j = choose|j: int| 0 <= j < 8 && be_bytes(s.trace_id_high)[j] != 0;
            assert(t[j] == be_bytes(s.trace_id_high)[j]);
        } else {
            let j = choose|j: int| 0 <= j < 8 && be_bytes(s.trace_id_low)[j] != 0;
            assert(t[8 + j] == be_bytes(s.trace_id_low)[j]);
        }
    }
    assert(!all_zero(c.parent_id)) by {
        let j = choose|j: int| 0 <= j < 8 && be_bytes(s.span_id)[j] != 0;
    }
    lemma_traceparent_roundtrip(c);
}

/// The padded hexadecimal text of a `u64` is the hexadecimal encoding of its
/// big-endian bytes.
proof fn lemma_hex_text_of_u64(x: u64)
    ensures
        zero_pad(hex_digits(x as nat), 16) == ascii_chars(hex_encode(be_bytes(x))),
        hex_encode(be_bytes(x)).len() == 16,
{
    reveal_with_fuel(pow16, 17);
    assert(pow16(16) == 0x1_0000_0000_0000_0000);
    lemma_hex_fixed_pads(x as nat, 16);
    lemma_hex_encode_bytes_of(x as nat, 8);
    lemma_be_bytes_of(x);
}

/// The padded hexadecimal text of a `u8` is its hexadecimal encoding.
proof fn lemma_hex_text_of_u8(x: u8)
    ensures
        zero_pad(hex_digits(x as nat), 2) == ascii_chars(hex_encode(seq![x])),
{
    reveal_with_fuel(pow16, 3);
    lemma_hex_fixed_pads(x as nat, 2);
    lemma_hex_encode_bytes_of(x as nat, 1);
    reveal_with_fuel(bytes_of, 2);
    assert(bytes_of(x as nat, 1) =~= seq![x]);
}

proof fn lemma_hex_encode_append(a: Seq<u8>, b: Seq<u8>)
    ensures
        hex_encode(a + b) == hex_encode(a) + hex_encode(b),
{
    let l = hex_encode(a + b);
    let r = hex_encode(a) + hex_encode(b);
    assert forall|i: int| 0 <= i < l.len() implies l[i] == r[i] by {
        if i >= 2 * a.len() {
            assert((i - 2 * a.len()) / 2 == i / 2 - a.len());
            assert((i - 2 * a.len()) % 2 == i % 2);
        }
    }
    assert(l =~= r);
}

proof fn lemma_be_bytes_zero(x: u64)
    ensures
        x != 0 ==> exists|j: int| 0 <= j < 8 && be_bytes(x)[j] != 0,
{
    let b = be_bytes(x);
    if x != 0 {
        if forall|j: int| 0 <= j < 8 ==> b[j] == 0 {
            assert(b[0] == 0 && b[1] == 0 && b[2] == 0 && b[3] == 0);
            assert(b[4] == 0 && b[5] == 0 && b[6] == 0 && b[7] == 0);
            assert(x == 0) by (bit_vector)
                requires
                    (x >> 56u64) as u8 == 0,
                    (x >> 48u64) as u8 == 0,
                    (x >> 40u64) as u8 == 0,
                    (x >> 32u64) as u8 == 0,
                    (x >> 24u64) as u8 == 0,
                    (x >> 16u64) as u8 == 0,
                    (x >> 8u64) as u8 == 0,
                    (x >> 0u64) as u8 == 0,
            ;
        }
    }
}

} // verus!
