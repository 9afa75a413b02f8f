//! W3C Trace Context `traceparent` header values.
//!
//! Format: `{version}-{trace-id}-{parent-id}-{trace-flags}`, 55 ASCII bytes,
//! for example `00-4bf92f3577b34da6a3ce929d0e0e4736-00f067aa0ba902b7-01`.

use vstd::prelude::*;
use vstd::slice::slice_subrange;

verus! {

#[verifier::external_type_specification]
#[verifier::external_body]
pub struct ExFromHexError(hex::FromHexError);

/// The value of the hexadecimal digit with ASCII code `b`, either case.
pub open spec fn hex_value(b: u8) -> Option<u8> {
    if 0x30 <= b <= 0x39 {
        Some((b - 0x30) as u8)
    } else if 0x61 <= b <= 0x66 {
        Some((b - 0x61 + 10) as u8)
    } else if 0x41 <= b <= 0x46 {
        Some((b - 0x41 + 10) as u8)
    } else {
        None
    }
}

/// The ASCII code of the lowercase hexadecimal digit `n` (`n < 16`).
pub open spec fn hex_char(n: u8) -> u8 {
    if n < 10 {
        (0x30 + n) as u8
    } else {
        (0x61 + n - 10) as u8
    }
}

/// `data` is a string of hexadecimal digits that decodes to `n` bytes.
pub open spec fn hex_decodes_to(data: Seq<u8>, n: nat) -> bool {
    &&& data.len() == 2 * n
    &&& forall|i: int| 0 <= i < data.len() ==> (#[trigger] hex_value(data[i])) is Some
}

/// The bytes that the hexadecimal digits `data` spell, two digits a byte.
pub open spec fn hex_decode(data: Seq<u8>) -> Seq<u8> {
    Seq::new(
        data.len() / 2,
        |i: int| (hex_value(data[2 * i])->0 * 16 + hex_value(data[2 * i + 1])->0) as u8,
    )
}

/// The lowercase hexadecimal digits of `bytes`, two a byte.
pub open spec fn hex_encode(bytes: Seq<u8>) -> Seq<u8> {
    Seq::new(
        2 * bytes.len(),
        |i: int|
            if i % 2 == 0 {
                hex_char(bytes[i / 2] / 16)
            } else {
                hex_char(bytes[i / 2] % 16)
            },
    )
}

/// The byte that a field of two hexadecimal digits (either case) spells;
/// `None` when either character is not a hexadecimal digit.
pub open spec fn field_byte(a: u8, b: u8) -> Option<u8> {
    match (hex_value(a), hex_value(b)) {
        (Some(x), Some(y)) => Some((x * 16 + y) as u8),
        _ => None,
    }
}

/// `hex::decode_to_slice`: fills `out` with the bytes that `data` spells,
/// provided `data` has exactly twice as many hexadecimal digits (either case)
/// as `out` has bytes; fails otherwise, possibly after writing part of `out`.
#[verifier::external_body]
fn decode_hex_to_slice(data: &[u8], out: &mut [u8]) -> (r: Result<(), hex::FromHexError>)
    ensures
        final(out)@.len() == old(out)@.len(),
        r is Ok == hex_decodes_to(data@, old(out)@.len()),
        r is Ok ==> final(out)@ == hex_decode(data@),
{
    hex::decode_to_slice(data, out)
}

/// `hex::encode_to_slice`: writes the lowercase hexadecimal digits of `input`
/// into `output`, provided `output` is exactly twice as long as `input`; fails
/// without writing otherwise.
#[verifier::external_body]
fn encode_hex_to_slice(input: &[u8], output: &mut [u8]) -> (r: Result<(), hex::FromHexError>)
    ensures
        r is Ok == (old(output)@.len() == 2 * input@.len()),
        r is Ok ==> final(output)@ == hex_encode(input@),
        r is Err ==> final(output)@ == old(output)@,
{
    hex::encode_to_slice(input, output)
}

/// `String::from_utf8` on ASCII bytes, which are always valid UTF-8.
#[verifier::external_body]
fn string_from_ascii(bytes: Vec<u8>) -> (s: String)
    requires
        forall|i: int| 0 <= i < bytes@.len() ==> #[trigger] bytes@[i] < 128,
    ensures
        s@ == bytes@.map_values(|b: u8| b as char),
{
    String::from_utf8(bytes).expect("ASCII is valid UTF-8")
}

/// Parsed components of a valid W3C `traceparent` header value.
#[derive(Debug, Clone, Copy, PartialEq, Eq)]
pub struct TraceparentContext {
    /// W3C trace-context version. Only `0` (the `00` wire version) is accepted.
    pub version: u8,
    /// 16-byte (128-bit) trace identifier.
    pub trace_id: [u8; 16],
    /// 8-byte (64-bit) parent span identifier.
    pub parent_id: [u8; 8],
    /// Trace flags bitfield; bit 0 is the "sampled" flag.
    pub trace_flags: u8,
}

/// The spec-level value of a `TraceparentContext`.
pub struct TraceparentSpec {
    pub version: u8,
    pub trace_id: Seq<u8>,
    pub parent_id: Seq<u8>,
    pub trace_flags: u8,
}

impl View for TraceparentContext {
    type V = TraceparentSpec;

    open spec fn view(&self) -> TraceparentSpec {
        TraceparentSpec {
            version: self.version,
            trace_id: self.trace_id@,
            parent_id: self.parent_id@,
            trace_flags: self.trace_flags,
        }
    }
}

/// Every byte is zero.
pub open spec fn all_zero(s: Seq<u8>) -> bool {
    forall|i: int| 0 <= i < s.len() ==> #[trigger] s[i] == 0
}

/// What a `traceparent` value of bytes `v` holds: `None` unless `v` is
/// `VV-TTTTTTTTTTTTTTTTTTTTTTTTTTTTTTTT-PPPPPPPPPPPPPPPP-FF` (55 bytes) with
/// hexadecimal digits of either case in every field, version `00`, and
/// neither id all zeros.
pub open spec fn parse_traceparent(v: Seq<u8>) -> Option<TraceparentSpec> {
    if v.len() != 55 || v[2] != 0x2d || v[35] != 0x2d || v[52] != 0x2d {
        None
    } else {
        let trace_hex = v.subrange(3, 35);
        let parent_hex = v.subrange(36, 52);
        match (field_byte(v[0], v[1]), field_byte(v[53], v[54])) {
            (Some(version), Some(trace_flags)) => {
                if version != 0 || !hex_decodes_to(trace_hex, 16) || !hex_decodes_to(
                    parent_hex,
                    8,
                ) {
                    None
                } else {
                    let trace_id = hex_decode(trace_hex);
                    let parent_id = hex_decode(parent_hex);
                    if all_zero(trace_id) || all_zero(parent_id) {
                        None
                    } else {
                        Some(TraceparentSpec { version, trace_id, parent_id, trace_flags })
                    }
                }
            },
            _ => None,
        }
    }
}

/// The canonical text of a context: lowercase hexadecimal fields joined by `-`.
pub open spec fn format_traceparent(c: TraceparentSpec) -> Seq<u8> {
    hex_encode(seq![c.version]) + seq![0x2du8] + hex_encode(c.trace_id) + seq![0x2du8]
        + hex_encode(c.parent_id) + seq![0x2du8] + hex_encode(seq![c.trace_flags])
}

fn hex_value_exec(b: u8) -> (r: Option<u8>)
    ensures
        r == hex_value(b),
{
    if 0x30 <= b && b <= 0x39 {
        Some(b - 0x30)
    } else if 0x61 <= b && b <= 0x66 {
        Some(b - 0x61 + 10)
    } else if 0x41 <= b && b <= 0x46 {
        Some(b - 0x41 + 10)
    } else {
        None
    }
}

fn field_byte_exec(a: u8, b: u8) -> (r: Option<u8>)
    ensures
        r == field_byte(a, b),
{
    match (hex_value_exec(a), hex_value_exec(b)) {
        (Some(x), Some(y)) => {
            assert(x < 16 && y < 16);
            Some(x * 16 + y)
        },
        _ => None,
    }
}

fn all_zero_exec(s: &[u8]) -> (r: bool)
    ensures
        r == all_zero(s@),
{
    let mut i: usize = 0;
    while i < s.len()
        invariant
            i <= s@.len(),
            forall|j: int| 0 <= j < i ==> #[trigger] s@[j] == 0,
        decreases s@.len() - i,
    {
        if s[i] != 0 {
            return false;
        }
        i = i + 1;
    }
    true
}

impl TraceparentContext {
    /// Parses a `traceparent` header value.
    ///
    /// Returns `None` on any of: wrong total length or missing/extra dashes;
    /// wrong field widths (version=2, trace-id=32, parent-id=16, flags=2);
    /// non-hex characters in any field; a version other than `00`; an
    /// all-zero trace-id or parent-id. (Non-ASCII and so also non-UTF-8
    /// input is refused by the same rules.)
    pub fn parse(value: &[u8]) -> (r: Option<Self>)
        ensures
            match (r, parse_traceparent(value@)) {
                (Some(c), Some(s)) => c@ == s,
                (None, None) => true,
                _ => false,
            },
    {
        if value.len() != 55 || value[2] != 0x2d || value[35] != 0x2d || value[52] != 0x2d {
            return None;
        }
        let version = match field_byte_exec(value[0], value[1]) {
            Some(v) => v,
            None => return None,
        };
        let trace_flags = match field_byte_exec(value[53], value[54]) {
            Some(f) => f,
            None => return None,
        };
        if version != 0 {
            return None;
        }
        let mut trace_id = [0u8; 16];
        let trace_hex = slice_subrange(value, 3, 35);
        if decode_hex_to_slice(trace_hex, &mut trace_id).is_err() {
            return None;
        }
        let mut parent_id = [0u8; 8];
        let parent_hex = slice_subrange(value, 36, 52);
        if decode_hex_to_slice(parent_hex, &mut parent_id).is_err() {
            return None;
        }
        if all_zero_exec(&trace_id) || all_zero_exec(&parent_id) {
            return None;
        }
        Some(TraceparentContext { version, trace_id, parent_id, trace_flags })
    }

    /// Returns true if the sampled bit (bit 0) of `trace_flags` is set,
    /// indicating the caller decided this trace should be recorded.
    pub fn is_sampled(&self) -> (r: bool)
        ensures
            r == (self.trace_flags % 2 == 1),
    {
        let flags = self.trace_flags;
        let bit = flags & 0x01;
        assert(bit == flags % 2) by (bit_vector)
            requires
                bit == flags & 0x01,
        ;
        bit != 0
    }

    /// Re-serializes the context to a canonical W3C `traceparent` string.
    pub fn to_traceparent_string(self) -> (s: String)
        ensures
            s@ == format_traceparent(self@).map_values(|b: u8| b as char),
    {
        let mut version_hex = [0u8; 2];
        let v = [self.version];
        let _ = encode_hex_to_slice(&v, &mut version_hex);
        let mut trace_hex = [0u8; 32];
        let _ = encode_hex_to_slice(&self.trace_id, &mut trace_hex);
        let mut parent_hex = [0u8; 16];
        let _ = encode_hex_to_slice(&self.parent_id, &mut parent_hex);
        let mut flags_hex = [0u8; 2];
        let f = [self.trace_flags];
        let _ = encode_hex_to_slice(&f, &mut flags_hex);
        let mut buf: Vec<u8> = Vec::new();
        buf.extend_from_slice(&version_hex);
        buf.push(0x2d);
        buf.extend_from_slice(&trace_hex);
        buf.push(0x2d);
        buf.extend_from_slice(&parent_hex);
        buf.push(0x2d);
        buf.extend_from_slice(&flags_hex);
        assert(v@ =~= seq![self.version]);
        assert(f@ =~= seq![self.trace_flags]);
        assert(buf@ =~= format_traceparent(self@));
        proof {
            lemma_hex_encode_ascii(self@);
        }
        string_from_ascii(buf)
    }
}

/// Lowercase hexadecimal digits and dashes are ASCII.
proof fn lemma_hex_encode_ascii(c: TraceparentSpec)
    ensures
        forall|i: int|
            0 <= i < format_traceparent(c).len() ==> #[trigger] format_traceparent(c)[i] < 128,
{
    assert forall|b: u8| #![trigger hex_char(b)] b < 16 implies hex_char(b) < 128 by {}
}

proof fn lemma_hex_char_value(n: u8)
    requires
        n < 16,
    ensures
        hex_value(hex_char(n)) == Some(n),
        hex_char(n) != 0x2b,
        hex_char(n) != 0x2d,
{
}

/// Hexadecimal decoding undoes encoding.
pub proof fn lemma_hex_decode_encode(b: Seq<u8>)
    ensures
        hex_decodes_to(hex_encode(b), b.len()),
        hex_decode(hex_encode(b)) == b,
{
    let e = hex_encode(b);
    assert forall|i: int| 0 <= i < e.len() implies (#[trigger] hex_value(e[i])) is Some by {
        let x = b[i / 2];
        if i % 2 == 0 {
            lemma_hex_char_value(x / 16);
        } else {
            lemma_hex_char_value(x % 16);
        }
    }
    let d = hex_decode(e);
    assert forall|i: int| 0 <= i < b.len() implies d[i] == b[i] by {
        assert((2 * i) % 2 == 0 && (2 * i) / 2 == i);
        assert((2 * i + 1) % 2 == 1 && (2 * i + 1) / 2 == i);
        lemma_hex_char_value(b[i] / 16);
        lemma_hex_char_value(b[i] % 16);
    }
    assert(d =~= b);
}

/// A context that `parse` can produce comes back unchanged from `parse` of its
/// canonical text.
pub proof fn lemma_traceparent_roundtrip(c: TraceparentSpec)
    requires
        c.version == 0,
        c.trace_id.len() == 16,
        c.parent_id.len() == 8,
        !all_zero(c.trace_id),
        !all_zero(c.parent_id),
    ensures
        parse_traceparent(format_traceparent(c)) == Some(c),
{
    let v = format_traceparent(c);
    let ev = hex_encode(seq![c.version]);
    let et = hex_encode(c.trace_id);
    let ep = hex_encode(c.parent_id);
    let ef = hex_encode(seq![c.trace_flags]);
    assert(v.len() == 55);
    assert(v.subrange(3, 35) =~= et);
    assert(v.subrange(36, 52) =~= ep);
    assert(v[0] == ev[0] && v[1] == ev[1]);
    assert(v[53] == ef[0] && v[54] == ef[1]);
    lemma_hex_decode_encode(c.trace_id);
    lemma_hex_decode_encode(c.parent_id);
    lemma_hex_char_value(c.version / 16);
    lemma_hex_char_value(c.version % 16);
    lemma_hex_char_value(c.trace_flags / 16);
    lemma_hex_char_value(c.trace_flags % 16);
    assert(ev[0] == hex_char(c.version / 16) && ev[1] == hex_char(c.version % 16));
    assert(ef[0] == hex_char(c.trace_flags / 16) && ef[1] == hex_char(c.trace_flags % 16));
    assert(hex_value(v[0]) == Some(c.version / 16) && hex_value(v[1]) == Some(c.version % 16));
    assert(hex_value(v[53]) == Some(c.trace_flags / 16) && hex_value(v[54]) == Some(
        c.trace_flags % 16,
    ));
    assert(field_byte(v[0], v[1]) == Some(c.version));
    assert(field_byte(v[53], v[54]) == Some(c.trace_flags));
}

/// Whatever `parse` accepts, its canonical text parses back to the same context.
pub proof fn lemma_traceparent_parse_format(v: Seq<u8>)
    requires
        parse_traceparent(v) is Some,
    ensures
        parse_traceparent(format_traceparent(parse_traceparent(v)->0)) == parse_traceparent(v),
{
    lemma_traceparent_roundtrip(parse_traceparent(v)->0);
}

} // verus!
