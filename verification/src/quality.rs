//! Quality weights (`q=`) of an `Accept` header.
//!
//! A weight is read with the grammar of Rust's float literals (`str::parse`)
//! and kept as an exact decimal. It counts as a usable weight when, rounded to
//! the nearest `f32`, it would be positive and at most `1.0`: that is, when it
//! lies above `2^-150` and at or below `1 + 2^-24`.

use vstd::prelude::*;
use crate::decimal::{
    all_digits, decimal_lt, digits_value, lemma_decimal_order, Decimal, DecimalSpec,
};

verus! {

pub open spec fn is_digit(c: char) -> bool {
    '0' <= c <= '9'
}

/// The value of the decimal digit `c`.
pub open spec fn digit_of(c: char) -> u8 {
    ((c as u32) - 48) as u8
}

pub open spec fn digits_of(s: Seq<char>) -> Seq<u8> {
    s.map_values(|c: char| digit_of(c))
}

/// The index of the first non-digit of `s` at or after `i`.
pub open spec fn digits_end(s: Seq<char>, i: int) -> int
    decreases s.len() - i,
{
    if 0 <= i < s.len() && is_digit(s[i]) {
        digits_end(s, i + 1)
    } else {
        i
    }
}

/// The parts of a float literal as Rust's `str::parse` reads one:
/// `[+-]? (digits | digits '.' digits? | '.' digits) ([eE] [+-]? digits)?`.
/// Its value is `(integer ++ fraction) * 10^(exponent - |fraction|)`.
pub struct FloatLiteral {
    pub negative: bool,
    pub integer: Seq<u8>,
    pub fraction: Seq<u8>,
    pub exponent: int,
}

/// The literal that `s` spells, if it is a finite one. (`inf`, `infinity` and
/// `nan` are literals too, but never a usable weight, so they are not told
/// apart from text that is no literal.)
pub open spec fn parse_float_literal(s: Seq<char>) -> Option<FloatLiteral> {
    let i0: int = if s.len() > 0 && (s[0] == '+' || s[0] == '-') {
        1
    } else {
        0
    };
    let i1 = digits_end(s, i0);
    let has_point = i1 < s.len() && s[i1] == '.';
    let f0 = if has_point {
        i1 + 1
    } else {
        i1
    };
    let f1 = if has_point {
        digits_end(s, f0)
    } else {
        f0
    };
    let negative = i0 == 1 && s[0] == '-';
    let integer = digits_of(s.subrange(i0, i1));
    let fraction = digits_of(s.subrange(f0, f1));
    if (i1 - i0) + (f1 - f0) == 0 {
        None
    } else if f1 == s.len() {
        Some(FloatLiteral { negative, integer, fraction, exponent: 0 })
    } else if s[f1] == 'e' || s[f1] == 'E' {
        let x0 = f1 + 1;
        let signed = x0 < s.len() && (s[x0] == '+' || s[x0] == '-');
        let xs = if signed {
            x0 + 1
        } else {
            x0
        };
        let x1 = digits_end(s, xs);
        if x1 == xs || x1 != s.len() {
            None
        } else {
            let magnitude = digits_value(digits_of(s.subrange(xs, x1))) as int;
            let exponent = if signed && s[x0] == '-' {
                -magnitude
            } else {
                magnitude
            };
            Some(FloatLiteral { negative, integer, fraction, exponent })
        }
    } else {
        None
    }
}

pub open spec fn strip_leading_zeros(d: Seq<u8>) -> Seq<u8>
    decreases d.len(),
{
    if d.len() > 0 && d[0] == 0 {
        strip_leading_zeros(d.drop_first())
    } else {
        d
    }
}

pub open spec fn strip_trailing_zeros(d: Seq<u8>) -> Seq<u8>
    decreases d.len(),
{
    if d.len() > 0 && d.last() == 0 {
        strip_trailing_zeros(d.drop_last())
    } else {
        d
    }
}

/// `2^-150`, written out: the largest value that rounds to `0.0f32`.
pub open spec fn quality_floor() -> DecimalSpec {
    DecimalSpec { digits: seq![7u8, 0, 0, 6, 4, 9, 2, 3, 2, 1, 6, 2, 4, 0, 8, 5, 3, 5, 4, 6, 1, 8, 6, 4, 7, 9, 1, 6, 4, 4, 9, 5, 8, 0, 6, 5, 6, 4, 0, 1, 3, 0, 9, 7, 0, 9, 3, 8, 2, 5, 7, 8, 8, 5, 8, 7, 8, 5, 3, 4, 1, 4, 1, 9, 4, 4, 8, 9, 5, 5, 4, 1, 3, 4, 2, 9, 3, 0, 3, 0, 0, 7, 4, 3, 3, 1, 9, 0, 9, 4, 1, 8, 1, 0, 6, 0, 7, 9, 1, 0, 1, 5, 6, 2, 5], point: -45 }
}

/// `1 + 2^-24`, written out: the largest value that rounds to `1.0f32`.
pub open spec fn quality_ceiling() -> DecimalSpec {
    DecimalSpec { digits: seq![1u8, 0, 0, 0, 0, 0, 0, 0, 5, 9, 6, 0, 4, 6, 4, 4, 7, 7, 5, 3, 9, 0, 6, 2, 5], point: 1 }
}

/// The weight `1`, which a media range has when it names none.
pub open spec fn quality_one() -> DecimalSpec {
    DecimalSpec { digits: seq![1u8], point: 1 }
}

/// The weight that the parameter value `s` gives, in normal form; `None` when
/// `s` gives none that counts (not a literal, negative, zero, or above one).
pub open spec fn quality_of(s: Seq<char>) -> Option<DecimalSpec> {
    match parse_float_literal(s) {
        None => None,
        Some(lit) => {
            let mantissa = strip_leading_zeros(lit.integer + lit.fraction);
            if lit.negative || mantissa.len() == 0 {
                None
            } else {
                let d = DecimalSpec {
                    digits: strip_trailing_zeros(mantissa),
                    point: mantissa.len() + lit.exponent - lit.fraction.len(),
                };
                if quality_floor().lt(d) && !quality_ceiling().lt(d) {
                    Some(d)
                } else {
                    None
                }
            }
        },
    }
}

fn quality_floor_exec() -> (d: Decimal)
    ensures
        d@ == quality_floor(),
        d@.normal(),
{
    let d = Decimal { digits: vec![7u8, 0, 0, 6, 4, 9, 2, 3, 2, 1, 6, 2, 4, 0, 8, 5, 3, 5, 4, 6, 1, 8, 6, 4, 7, 9, 1, 6, 4, 4, 9, 5, 8, 0, 6, 5, 6, 4, 0, 1, 3, 0, 9, 7, 0, 9, 3, 8, 2, 5, 7, 8, 8, 5, 8, 7, 8, 5, 3, 4, 1, 4, 1, 9, 4, 4, 8, 9, 5, 5, 4, 1, 3, 4, 2, 9, 3, 0, 3, 0, 0, 7, 4, 3, 3, 1, 9, 0, 9, 4, 1, 8, 1, 0, 6, 0, 7, 9, 1, 0, 1, 5, 6, 2, 5], point: -45 };
    assert(d.digits@ == seq![7u8, 0, 0, 6, 4, 9, 2, 3, 2, 1, 6, 2, 4, 0, 8, 5, 3, 5, 4, 6, 1, 8, 6, 4, 7, 9, 1, 6, 4, 4, 9, 5, 8, 0, 6, 5, 6, 4, 0, 1, 3, 0, 9, 7, 0, 9, 3, 8, 2, 5, 7, 8, 8, 5, 8, 7, 8, 5, 3, 4, 1, 4, 1, 9, 4, 4, 8, 9, 5, 5, 4, 1, 3, 4, 2, 9, 3, 0, 3, 0, 0, 7, 4, 3, 3, 1, 9, 0, 9, 4, 1, 8, 1, 0, 6, 0, 7, 9, 1, 0, 1, 5, 6, 2, 5]);
    d
}

fn quality_ceiling_exec() -> (d: Decimal)
    ensures
        d@ == quality_ceiling(),
        d@.normal(),
{
    let d = Decimal { digits: vec![1u8, 0, 0, 0, 0, 0, 0, 0, 5, 9, 6, 0, 4, 6, 4, 4, 7, 7, 5, 3, 9, 0, 6, 2, 5], point: 1 };
    assert(d.digits@ == seq![1u8, 0, 0, 0, 0, 0, 0, 0, 5, 9, 6, 0, 4, 6, 4, 4, 7, 7, 5, 3, 9, 0, 6, 2, 5]);
    d
}

/// The weight `1`.
pub fn quality_one_exec() -> (d: Decimal)
    ensures
        d@ == quality_one(),
        d@.normal(),
{
    let d = Decimal { digits: vec![1u8], point: 1 };
    assert(d.digits@ == seq![1u8]);
    d
}

fn is_digit_char(c: char) -> (r: bool)
    ensures
        r == is_digit(c),
{
    '0' <= c && c <= '9'
}

fn digit_of_char(c: char) -> (r: u8)
    requires
        is_digit(c),
    ensures
        r == digit_of(c),
        r <= 9,
{
    ((c as u32) - 48) as u8
}

fn digits_end_exec(s: &Vec<char>, i: usize) -> (j: usize)
    requires
        i <= s.len(),
    ensures
        j == digits_end(s@, i as int),
        i <= j <= s.len(),
        forall|k: int| i <= k < j ==> is_digit(#[trigger] s@[k]),
{
    let mut j = i;
    while j < s.len() && is_digit_char(s[j])
        invariant
            i <= j <= s.len(),
            digits_end(s@, i as int) == digits_end(s@, j as int),
            forall|k: int| i <= k < j ==> is_digit(#[trigger] s@[k]),
        decreases s.len() - j,
    {
        j = j + 1;
    }
    j
}

/// Exponents this large put any literal far outside the usable weights.
pub open spec fn exponent_cap() -> nat {
    0x400000000000000000
}

/// The exponent digits `s[a..b]`, as a number, saturated at `exponent_cap()`.
fn exponent_magnitude(s: &Vec<char>, a: usize, b: usize) -> (r: u128)
    requires
        a <= b <= s.len(),
        forall|k: int| a <= k < b ==> is_digit(#[trigger] s@[k]),
    ensures
        r <= exponent_cap(),
        r < exponent_cap() ==> r == digits_value(digits_of(s@.subrange(a as int, b as int))),
        r == exponent_cap() ==> digits_value(digits_of(s@.subrange(a as int, b as int)))
            >= exponent_cap(),
{
    let cap: u128 = 0x400000000000000000;
    let mut r: u128 = 0;
    let mut j = a;
    assert(digits_of(s@.subrange(a as int, a as int)) =~= Seq::<u8>::empty());
    while j < b
        invariant
            a <= j <= b <= s.len(),
            forall|k: int| a <= k < b ==> is_digit(#[trigger] s@[k]),
            cap == exponent_cap(),
            r <= cap,
            r < cap ==> r == digits_value(digits_of(s@.subrange(a as int, j as int))),
            r == cap ==> digits_value(digits_of(s@.subrange(a as int, j as int))) >= cap,
        decreases b - j,
    {
        let d = digit_of_char(s[j]);
        let ghost prev = digits_of(s@.subrange(a as int, j as int));
        let ghost next = digits_of(s@.subrange(a as int, j + 1));
        assert(next.drop_last() =~= prev);
        assert(next.last() == d);
        assert(digits_value(next) == digits_value(prev) * 10 + d as nat);
        if r < cap {
            if r > cap / 10 {
                r = cap;
            } else {
                r = r * 10 + d as u128;
                if r > cap {
                    r = cap;
                }
            }
        }
        j = j + 1;
    }
    r
}

proof fn lemma_strip_leading_skip(d: Seq<u8>, k: int)
    requires
        0 <= k <= d.len(),
        forall|j: int| 0 <= j < k ==> #[trigger] d[j] == 0,
    ensures
        strip_leading_zeros(d) == strip_leading_zeros(d.skip(k)),
    decreases k,
{
    if k > 0 {
        assert(d.drop_first().skip(k - 1) =~= d.skip(k));
        lemma_strip_leading_skip(d.drop_first(), k - 1);
    } else {
        assert(d.skip(0) =~= d);
    }
}

proof fn lemma_strip_trailing_take(d: Seq<u8>, k: int)
    requires
        0 <= k <= d.len(),
        forall|j: int| k <= j < d.len() ==> #[trigger] d[j] == 0,
    ensures
        strip_trailing_zeros(d) == strip_trailing_zeros(d.take(k)),
    decreases d.len() - k,
{
    if k < d.len() {
        assert(d.drop_last().take(k) =~= d.take(k));
        lemma_strip_trailing_take(d.drop_last(), k);
    } else {
        assert(d.take(k) =~= d);
    }
}

/// Appends the digits `s[a..b]` to `out`.
fn push_digits(out: &mut Vec<u8>, s: &Vec<char>, a: usize, b: usize)
    requires
        a <= b <= s.len(),
        forall|k: int| a <= k < b ==> is_digit(#[trigger] s@[k]),
    ensures
        final(out)@ == old(out)@ + digits_of(s@.subrange(a as int, b as int)),
{
    let ghost start = out@;
    let mut j = a;
    while j < b
        invariant
            a <= j <= b <= s.len(),
            forall|k: int| a <= k < b ==> is_digit(#[trigger] s@[k]),
            out@ == start + digits_of(s@.subrange(a as int, j as int)),
        decreases b - j,
    {
        out.push(digit_of_char(s[j]));
        j = j + 1;
        assert(out@ =~= start + digits_of(s@.subrange(a as int, j as int)));
    }
}

/// Where the parts of a finite float literal lie in its text.
struct LiteralScan {
    negative: bool,
    int_start: usize,
    int_end: usize,
    frac_start: usize,
    frac_end: usize,
    exp_negative: bool,
    /// The exponent's magnitude, saturated at `exponent_cap()`.
    magnitude: u128,
}

impl LiteralScan {
    /// `self` describes the literal `lit` read from `s`.
    spec fn describes(self, s: Seq<char>, lit: FloatLiteral) -> bool {
        &&& self.int_start <= self.int_end <= self.frac_start <= self.frac_end <= s.len()
        &&& forall|k: int| self.int_start <= k < self.int_end ==> is_digit(#[trigger] s[k])
        &&& forall|k: int| self.frac_start <= k < self.frac_end ==> is_digit(#[trigger] s[k])
        &&& lit.negative == self.negative
        &&& lit.integer == digits_of(s.subrange(self.int_start as int, self.int_end as int))
        &&& lit.fraction == digits_of(s.subrange(self.frac_start as int, self.frac_end as int))
        &&& self.magnitude <= exponent_cap()
        &&& self.magnitude < exponent_cap() ==> lit.exponent == if self.exp_negative {
            -(self.magnitude as int)
        } else {
            self.magnitude as int
        }
        &&& self.magnitude == exponent_cap() ==> if self.exp_negative {
            lit.exponent <= -(exponent_cap() as int)
        } else {
            lit.exponent >= exponent_cap()
        }
    }
}

/// Reads `s` as a finite float literal.
fn scan_literal(s: &Vec<char>) -> (r: Option<LiteralScan>)
    ensures
        match (r, parse_float_literal(s@)) {
            (Some(scan), Some(lit)) => scan.describes(s@, lit),
            (None, None) => true,
            _ => false,
        },
{
    let n = s.len();
    let i0: usize = if n > 0 && (s[0] == '+' || s[0] == '-') {
        1
    } else {
        0
    };
    let negative = i0 == 1 && s[0] == '-';
    let i1 = digits_end_exec(s, i0);
    let has_point = i1 < n && s[i1] == '.';
    let f0 = if has_point {
        i1 + 1
    } else {
        i1
    };
    let f1 = if has_point {
        digits_end_exec(s, f0)
    } else {
        f0
    };
    if (i1 - i0) + (f1 - f0) == 0 {
        return None;
    }
    if f1 == n {
        return Some(
            LiteralScan {
                negative,
                int_start: i0,
                int_end: i1,
                frac_start: f0,
                frac_end: f1,
                exp_negative: false,
                magnitude: 0,
            },
        );
    }
    if !(s[f1] == 'e' || s[f1] == 'E') {
        return None;
    }
    let x0 = f1 + 1;
    let signed = x0 < n && (s[x0] == '+' || s[x0] == '-');
    let xs = if signed {
        x0 + 1
    } else {
        x0
    };
    let x1 = digits_end_exec(s, xs);
    if x1 == xs || x1 != n {
        return None;
    }
    let exp_negative = signed && s[x0] == '-';
    let magnitude = exponent_magnitude(s, xs, x1);
    Some(
        LiteralScan {
            negative,
            int_start: i0,
            int_end: i1,
            frac_start: f0,
            frac_end: f1,
            exp_negative,
            magnitude,
        },
    )
}

/// The digits of `m` without its leading and trailing zeros; `None` when all
/// its digits are zeros.
fn strip_zeros(m: &Vec<u8>) -> (r: Option<Vec<u8>>)
    requires
        all_digits(m@),
    ensures
        match r {
            Some(d) => {
                &&& strip_leading_zeros(m@).len() > 0
                &&& d@ == strip_trailing_zeros(strip_leading_zeros(m@))
                &&& DecimalSpec { digits: d@, point: 0 }.normal()
            },
            None => strip_leading_zeros(m@).len() == 0,
        },
{
    let len = m.len();
    let mut lz: usize = 0;
    while lz < len && m[lz] == 0
        invariant
            lz <= len == m.len(),
            forall|j: int| 0 <= j < lz ==> #[trigger] m@[j] == 0,
        decreases len - lz,
    {
        lz = lz + 1;
    }
    proof {
        lemma_strip_leading_skip(m@, lz as int);
        let t = m@.skip(lz as int);
        assert(strip_leading_zeros(t) == t);
    }
    if lz == len {
        assert(m@.skip(lz as int) =~= Seq::<u8>::empty());
        return None;
    }
    let mut end: usize = len;
    while end > lz && m[end - 1] == 0
        invariant
            lz < len == m.len(),
            lz <= end <= len,
            m@[lz as int] != 0,
            forall|j: int| end <= j < len ==> #[trigger] m@[j] == 0,
        decreases end - lz,
    {
        end = end - 1;
    }
    let ghost mantissa = m@.skip(lz as int);
    proof {
        assert forall|j: int| end - lz <= j < mantissa.len() implies #[trigger] mantissa[j] == 0 by {
            assert(mantissa[j] == m@[j + lz]);
        }
        lemma_strip_trailing_take(mantissa, end - lz);
        let u = mantissa.take(end - lz);
        assert(u.last() == m@[end - 1]);
        assert(strip_trailing_zeros(u) == u);
    }
    let mut digits: Vec<u8> = Vec::new();
    let mut k = lz;
    while k < end
        invariant
            lz <= k <= end <= len == m.len(),
            digits@ == m@.subrange(lz as int, k as int),
        decreases end - k,
    {
        digits.push(m[k]);
        k = k + 1;
        assert(digits@ =~= m@.subrange(lz as int, k as int));
    }
    assert(digits@ =~= mantissa.take(end - lz));
    assert(DecimalSpec { digits: digits@, point: 0 }.normal()) by {
        assert(digits@[0] == m@[lz as int]);
        assert(digits@.last() == m@[end - 1]);
        assert forall|j: int| 0 <= j < digits@.len() implies #[trigger] digits@[j] <= 9 by {
            assert(digits@[j] == m@[j + lz]);
        }
    }
    Some(digits)
}

/// Whether the normal decimal `d` lies in the usable weights.
fn in_quality_range(d: &Decimal) -> (r: bool)
    requires
        d@.normal(),
    ensures
        r == (quality_floor().lt(d@) && !quality_ceiling().lt(d@)),
{
    let floor = quality_floor_exec();
    let ceiling = quality_ceiling_exec();
    decimal_lt(&floor, d) && !decimal_lt(&ceiling, d)
}

/// The weight that a `q` parameter's value gives; `None` when it gives none
/// that counts.
pub fn parse_quality(s: &Vec<char>) -> (r: Option<Decimal>)
    ensures
        match (r, quality_of(s@)) {
            (Some(d), Some(q)) => d@ == q && d@.normal(),
            (None, None) => true,
            _ => false,
        },
{
    let scan = match scan_literal(s) {
        Some(scan) => scan,
        None => return None,
    };
    let ghost lit = parse_float_literal(s@).unwrap();
    if scan.negative {
        return None;
    }
    let mut m: Vec<u8> = Vec::new();
    push_digits(&mut m, s, scan.int_start, scan.int_end);
    push_digits(&mut m, s, scan.frac_start, scan.frac_end);
    assert(m@ =~= lit.integer + lit.fraction);
    assert(all_digits(m@)) by {
        let a = scan.int_end - scan.int_start;
        assert forall|k: int| 0 <= k < m@.len() implies #[trigger] m@[k] <= 9 by {
            if k < a {
                assert(m@[k] == digit_of(s@[scan.int_start + k]));
            } else {
                assert(m@[k] == digit_of(s@[scan.frac_start + k - a]));
            }
        }
    }
    let digits = match strip_zeros(&m) {
        Some(d) => d,
        None => return None,
    };
    let ghost mantissa = strip_leading_zeros(lit.integer + lit.fraction);
    let mlen = mantissa_len(&m);
    let frac_len = (scan.frac_end - scan.frac_start) as i128;
    let exponent: i128 = if scan.exp_negative {
        -(scan.magnitude as i128)
    } else {
        scan.magnitude as i128
    };
    let d = Decimal { digits, point: mlen as i128 + exponent - frac_len };
    let ghost spec_d = DecimalSpec {
        digits: strip_trailing_zeros(mantissa),
        point: mantissa.len() + lit.exponent - lit.fraction.len(),
    };
    assert(d@.normal());
    assert(spec_d.normal());
    let ok = in_quality_range(&d);
    proof {
        lemma_decimal_order(quality_floor(), d@);
        lemma_decimal_order(quality_ceiling(), d@);
        lemma_decimal_order(quality_floor(), spec_d);
        lemma_decimal_order(quality_ceiling(), spec_d);
        if scan.magnitude < exponent_cap() {
            assert(d@ == spec_d);
        } else if scan.exp_negative {
            assert(d@.point < -45);
            assert(spec_d.point < -45);
        } else {
            assert(d@.point > 1);
            assert(spec_d.point > 1);
        }
    }
    if ok {
        Some(d)
    } else {
        None
    }
}

/// The number of digits of `m` from its first non-zero one on.
fn mantissa_len(m: &Vec<u8>) -> (r: usize)
    ensures
        r == strip_leading_zeros(m@).len(),
{
    let len = m.len();
    let mut lz: usize = 0;
    while lz < len && m[lz] == 0
        invariant
            lz <= len == m.len(),
            forall|j: int| 0 <= j < lz ==> #[trigger] m@[j] == 0,
        decreases len - lz,
    {
        lz = lz + 1;
    }
    proof {
        lemma_strip_leading_skip(m@, lz as int);
        let t = m@.skip(lz as int);
        assert(strip_leading_zeros(t) == t);
    }
    len - lz
}

} // verus!
