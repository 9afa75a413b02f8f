//! The `f32` that an exact decimal weight rounds to, as Rust's float parsing
//! rounds it: to the nearest `f32`, ties to the one with an even bit
//! pattern. Weights are ranked by that `f32`, identified by its bit pattern,
//! which for positive values orders as the values do.
//!
//! Every `f32` in `[0, 2]` is a whole multiple of `2^-149`. The one with bit
//! pattern `b` below `2^23` (zero and the subnormals) is `b * 2^-149`; the
//! one with exponent field `e >= 1` and fraction field `m` is
//! `(2^23 + m) * 2^(e - 1) * 2^-149`. Halfway between the `f32` of `b` and
//! the next one lies `u * 2^s * 2^-150` with `u` and `s` below, which is
//! `u * 5^(150 - s) * 10^(s - 150)`.

use vstd::prelude::*;
use crate::decimal::{
    all_digits, decimal_lt, digits_value, lemma_digits_append, lemma_digits_lower,
    lemma_pow10_le, lemma_scaled_lt_common, pow10, scaled_lt, Decimal, DecimalSpec,
};
use crate::quality::{quality_ceiling, quality_floor, quality_one};

verus! {

/// `5^k`.
pub open spec fn pow5(k: nat) -> nat
    decreases k,
{
    if k == 0 {
        1
    } else {
        5 * pow5((k - 1) as nat)
    }
}

/// The bit pattern of `1.0f32`.
pub open spec fn one_bits() -> nat {
    0x3f80_0000
}

/// The power of two `s` of the midpoint above the `f32` with bit pattern `b`.
pub open spec fn midpoint_shift(b: nat) -> nat {
    if b < 0x80_0000 {
        0
    } else {
        (b / 0x80_0000 - 1) as nat
    }
}

/// The odd factor `u` of the midpoint above the `f32` with bit pattern `b`.
pub open spec fn midpoint_odd(b: nat) -> nat {
    if b < 0x80_0000 {
        2 * b + 1
    } else {
        0x100_0000 + 2 * (b % 0x80_0000) + 1
    }
}

/// The midpoint above the `f32` with bit pattern `b` is
/// `midpoint_mantissa(b) * 10^midpoint_exponent(b)`.
pub open spec fn midpoint_mantissa(b: nat) -> nat {
    midpoint_odd(b) * pow5((150 - midpoint_shift(b)) as nat)
}

/// See `midpoint_mantissa`.
pub open spec fn midpoint_exponent(b: nat) -> int {
    midpoint_shift(b) - 150
}

/// Whether `x` rounds to the `f32` with bit pattern `b` or below it: it
/// lies below the midpoint above that `f32`, or on it when `b` is even.
pub open spec fn rounds_at_or_below(x: DecimalSpec, b: nat) -> bool {
    ||| scaled_lt(x.mantissa(), x.exponent(), midpoint_mantissa(b), midpoint_exponent(b))
    ||| (!scaled_lt(midpoint_mantissa(b), midpoint_exponent(b), x.mantissa(), x.exponent()) && b
        % 2 == 0)
}

/// Whether `x` rounds to the `f32` with bit pattern `b`.
pub open spec fn rounds_to(x: DecimalSpec, b: nat) -> bool {
    &&& rounds_at_or_below(x, b)
    &&& (b == 0 || !rounds_at_or_below(x, (b - 1) as nat))
}

/// Whether `x` rounds to an `f32` above zero and at most one.
pub open spec fn f32_usable(x: DecimalSpec) -> bool {
    !rounds_at_or_below(x, 0) && rounds_at_or_below(x, one_bits())
}

/// The bit pattern of the `f32` that `x` rounds to, for `x` that rounds to
/// one at most `1.0`.
pub open spec fn f32_key(x: DecimalSpec) -> nat {
    choose|b: nat| b <= one_bits() && rounds_to(x, b)
}

proof fn lemma_pow5_pos(k: nat)
    ensures
        pow5(k) >= 1,
    decreases k,
{
    if k > 0 {
        lemma_pow5_pos((k - 1) as nat);
    }
}

/// The midpoints rise with the bit pattern.
proof fn lemma_midpoints_rise(b: nat)
    requires
        b < one_bits(),
    ensures
        scaled_lt(
            midpoint_mantissa(b),
            midpoint_exponent(b),
            midpoint_mantissa(b + 1),
            midpoint_exponent(b + 1),
        ),
{
    let s1 = midpoint_shift(b);
    let s2 = midpoint_shift(b + 1);
    let u1 = midpoint_odd(b);
    let u2 = midpoint_odd(b + 1);
    let t1 = (150 - s1) as nat;
    let t2 = (150 - s2) as nat;
    assert(s1 <= 126 && s2 <= 126);
    if s1 == s2 {
        assert(u1 < u2);
        let p = pow5(t1);
        lemma_pow5_pos(t1);
        assert(u1 * p < u2 * p) by (nonlinear_arith)
            requires
                u1 < u2,
                p >= 1,
        ;
        assert(pow10(0) == 1);
        assert(u2 * p * pow10(0) == u2 * p);
    } else {
        assert(s2 == s1 + 1);
        assert(u1 == 0x200_0000 - 1);
        assert(u2 == 0x100_0000 + 1);
        assert(t1 == t2 + 1);
        let p = pow5(t2);
        lemma_pow5_pos(t2);
        assert(pow5(t1) == 5 * p);
        assert(pow10(1) == 10) by {
            assert(pow10(0) == 1);
        }
        assert(((s2 - 150) - (s1 - 150)) as nat == 1);
        assert(u1 * (5 * p) < (u2 * p) * 10) by (nonlinear_arith)
            requires
                u1 == 0x200_0000 - 1,
                u2 == 0x100_0000 + 1,
                p >= 1,
        ;
    }
}

/// Rounding at or below a bit pattern holds for every larger one.
proof fn lemma_rounding_monotone(x: DecimalSpec, b: nat, c: nat)
    requires
        b <= c <= one_bits(),
        rounds_at_or_below(x, b),
    ensures
        rounds_at_or_below(x, c),
    decreases c - b,
{
    if b < c {
        let xm = x.mantissa();
        let xe = x.exponent();
        let m1 = midpoint_mantissa(b);
        let e1 = midpoint_exponent(b);
        let m2 = midpoint_mantissa(b + 1);
        let e2 = midpoint_exponent(b + 1);
        lemma_midpoints_rise(b);
        let m = if xe <= e1 && xe <= e2 {
            xe
        } else if e1 <= e2 {
            e1
        } else {
            e2
        };
        lemma_scaled_lt_common(xm, xe, m1, e1, m);
        lemma_scaled_lt_common(m1, e1, xm, xe, m);
        lemma_scaled_lt_common(m1, e1, m2, e2, m);
        lemma_scaled_lt_common(xm, xe, m2, e2, m);
        assert(rounds_at_or_below(x, b + 1));
        lemma_rounding_monotone(x, b + 1, c);
    }
}

/// A value rounds to at most one bit pattern up to `1.0`.
proof fn lemma_rounds_to_unique(x: DecimalSpec, b: nat, c: nat)
    requires
        b <= one_bits(),
        c <= one_bits(),
        rounds_to(x, b),
        rounds_to(x, c),
    ensures
        b == c,
{
    if b < c {
        lemma_rounding_monotone(x, b, (c - 1) as nat);
    } else if c < b {
        lemma_rounding_monotone(x, c, (b - 1) as nat);
    }
}

/// The usable weights are those that round to an `f32` above zero and at
/// most one: above `2^-150` (the midpoint above zero, whose bit pattern is
/// even) and at most `1 + 2^-24` (the midpoint above one, also even).
pub proof fn lemma_quality_bounds_round(x: DecimalSpec)
    ensures
        quality_floor().lt(x) == !rounds_at_or_below(x, 0),
        !quality_ceiling().lt(x) == rounds_at_or_below(x, one_bits()),
{
    lemma_floor_value();
    lemma_ceiling_value();
    assert(midpoint_shift(0) == 0);
    assert(midpoint_odd(0) == 1);
    assert(((150 - midpoint_shift(0)) as nat) == 150);
    assert(midpoint_mantissa(0) == pow5(150));
    assert(midpoint_exponent(0) == -150);
    assert(midpoint_shift(one_bits()) == 126);
    assert(midpoint_odd(one_bits()) == 0x100_0001);
    assert(midpoint_mantissa(one_bits()) == 0x100_0001 * pow5(24));
    assert(midpoint_exponent(one_bits()) == -24);
    let fm = pow5(150);
    let cm = 0x100_0001 * pow5(24);
    let m0 = if x.exponent() <= -150 {
        x.exponent()
    } else {
        -150
    };
    lemma_scaled_lt_common(fm, -150, x.mantissa(), x.exponent(), m0);
    lemma_scaled_lt_common(x.mantissa(), x.exponent(), fm, -150, m0);
    let m1 = if x.exponent() <= -24 {
        x.exponent()
    } else {
        -24
    };
    lemma_scaled_lt_common(cm, -24, x.mantissa(), x.exponent(), m1);
    lemma_scaled_lt_common(x.mantissa(), x.exponent(), cm, -24, m1);
}

#[verifier::rlimit(100)]
proof fn lemma_ceiling_value()
    ensures
        digits_value(quality_ceiling().digits) == 0x100_0001 * pow5(24),
{
    reveal_with_fuel(digits_value, 26);
    reveal_with_fuel(pow5, 25);
}

proof fn lemma_pow5_adds(a: nat, b: nat)
    ensures
        pow5(a + b) == pow5(a) * pow5(b),
    decreases a,
{
    if a == 0 {
        assert(a + b == b);
        assert(pow5(a) == 1);
    } else {
        lemma_pow5_adds((a - 1) as nat, b);
        assert(((a - 1) as nat + b) as nat == (a + b - 1) as nat);
        assert(pow5(a + b) == 5 * pow5((a + b - 1) as nat));
        assert(pow5(a) == 5 * pow5((a - 1) as nat));
        assert(5 * (pow5((a - 1) as nat) * pow5(b)) == (5 * pow5((a - 1) as nat)) * pow5(b))
            by (nonlinear_arith);
    }
}

proof fn lemma_pow5_150()
    ensures
        pow5(150) == 700649232162408535461864791644958065640130970938257885878534141944895541342930300743319094181060791015625,
{
    reveal_with_fuel(pow5, 11);
    assert(pow5(10) == 9765625);
    lemma_pow5_adds(10, 10);
    assert(pow5(20) == 95367431640625);
    lemma_pow5_adds(20, 10);
    assert(pow5(30) == 931322574615478515625);
    lemma_pow5_adds(30, 10);
    assert(pow5(40) == 9094947017729282379150390625);
    lemma_pow5_adds(40, 10);
    assert(pow5(50) == 88817841970012523233890533447265625);
    lemma_pow5_adds(50, 10);
    assert(pow5(60) == 867361737988403547205962240695953369140625);
    lemma_pow5_adds(60, 10);
    assert(pow5(70) == 8470329472543003390683225006796419620513916015625);
    lemma_pow5_adds(70, 10);
    assert(pow5(80) == 82718061255302767487140869206996285356581211090087890625);
    lemma_pow5_adds(80, 10);
    assert(pow5(90) == 807793566946316088741610050849573099185363389551639556884765625);
    lemma_pow5_adds(90, 10);
    assert(pow5(100) == 7888609052210118054117285652827862296732064351090230047702789306640625);
    lemma_pow5_adds(100, 10);
    assert(pow5(110) == 77037197775489434122239117703397092741524065928615527809597551822662353515625);
    lemma_pow5_adds(110, 10);
    assert(pow5(120) == 752316384526264005099991383822237233803945956334136013765601092018187046051025390625);
    lemma_pow5_adds(120, 10);
    assert(pow5(130) == 7346839692639296924804603357639035486366659729825547009429698164240107871592044830322265625);
    lemma_pow5_adds(130, 10);
    assert(pow5(140) == 71746481373430634031294954664443705921549411424077607513961896135157303433516062796115875244140625);
    lemma_pow5_adds(140, 10);
    assert(pow5(150) == 700649232162408535461864791644958065640130970938257885878534141944895541342930300743319094181060791015625);
}

proof fn lemma_pow10_15()
    ensures
        pow10(15) == 1000000000000000,
{
    reveal_with_fuel(pow10, 16);
}

#[verifier::rlimit(50)]
proof fn lemma_floor_digits()
    ensures
        digits_value(quality_floor().digits) == 700649232162408535461864791644958065640130970938257885878534141944895541342930300743319094181060791015625,
{
    lemma_pow10_15();
    let c0: Seq<u8> = seq![7u8, 0, 0, 6, 4, 9, 2, 3, 2, 1, 6, 2, 4, 0, 8];
    assert(digits_value(c0) == 700649232162408) by {
        reveal_with_fuel(digits_value, 16);
    }
    let c1: Seq<u8> = seq![5u8, 3, 5, 4, 6, 1, 8, 6, 4, 7, 9, 1, 6, 4, 4];
    assert(digits_value(c1) == 535461864791644) by {
        reveal_with_fuel(digits_value, 16);
    }
    let c2: Seq<u8> = seq![9u8, 5, 8, 0, 6, 5, 6, 4, 0, 1, 3, 0, 9, 7, 0];
    assert(digits_value(c2) == 958065640130970) by {
        reveal_with_fuel(digits_value, 16);
    }
    let c3: Seq<u8> = seq![9u8, 3, 8, 2, 5, 7, 8, 8, 5, 8, 7, 8, 5, 3, 4];
    assert(digits_value(c3) == 938257885878534) by {
        reveal_with_fuel(digits_value, 16);
    }
    let c4: Seq<u8> = seq![1u8, 4, 1, 9, 4, 4, 8, 9, 5, 5, 4, 1, 3, 4, 2];
    assert(digits_value(c4) == 141944895541342) by {
        reveal_with_fuel(digits_value, 16);
    }
    let c5: Seq<u8> = seq![9u8, 3, 0, 3, 0, 0, 7, 4, 3, 3, 1, 9, 0, 9, 4];
    assert(digits_value(c5) == 930300743319094) by {
        reveal_with_fuel(digits_value, 16);
    }
    let c6: Seq<u8> = seq![1u8, 8, 1, 0, 6, 0, 7, 9, 1, 0, 1, 5, 6, 2, 5];
    assert(digits_value(c6) == 181060791015625) by {
        reveal_with_fuel(digits_value, 16);
    }
    let p0 = c0;
    let p1 = p0 + c1;
    lemma_digits_append(p0, c1);
    assert(digits_value(p1) == 700649232162408535461864791644);
    let p2 = p1 + c2;
    lemma_digits_append(p1, c2);
    assert(digits_value(p2) == 700649232162408535461864791644958065640130970);
    let p3 = p2 + c3;
    lemma_digits_append(p2, c3);
    assert(digits_value(p3) == 700649232162408535461864791644958065640130970938257885878534);
    let p4 = p3 + c4;
    lemma_digits_append(p3, c4);
    assert(digits_value(p4) == 700649232162408535461864791644958065640130970938257885878534141944895541342);
    let p5 = p4 + c5;
    lemma_digits_append(p4, c5);
    assert(digits_value(p5) == 700649232162408535461864791644958065640130970938257885878534141944895541342930300743319094);
    let p6 = p5 + c6;
    lemma_digits_append(p5, c6);
    assert(digits_value(p6) == 700649232162408535461864791644958065640130970938257885878534141944895541342930300743319094181060791015625);
    assert(quality_floor().digits =~= p6);
}

proof fn lemma_floor_value()
    ensures
        digits_value(quality_floor().digits) == pow5(150),
{
    lemma_pow5_150();
    lemma_floor_digits();
}

/// The decimal digits of `n`, most significant first.
fn digits_of_small(n: u64) -> (d: Vec<u8>)
    requires
        n >= 1,
    ensures
        all_digits(d@),
        d@.len() >= 1,
        d@[0] != 0,
        digits_value(d@) == n,
    decreases n,
{
    if n < 10 {
        let d = vec![n as u8];
        assert(d@ =~= seq![n as u8]);
        assert(d@.drop_last() =~= Seq::<u8>::empty());
        assert(digits_value(d@) == digits_value(d@.drop_last()) * 10 + d@.last() as nat);
        d
    } else {
        let mut d = digits_of_small(n / 10);
        let ghost before = d@;
        d.push((n % 10) as u8);
        assert(d@.drop_last() =~= before);
        assert(d@[0] == before[0]);
        assert(digits_value(d@) == digits_value(before) * 10 + (n % 10) as nat);
        assert forall|k: int| 0 <= k < d@.len() implies #[trigger] d@[k] <= 9 by {
            if k < before.len() {
                assert(d@[k] == before[k]);
            }
        }
        d
    }
}

/// The decimal digits of five times the number that `d` spells.
fn times_five(d: &Vec<u8>) -> (r: Vec<u8>)
    requires
        all_digits(d@),
        1 <= d@.len() <= 200,
        d@[0] != 0,
    ensures
        all_digits(r@),
        1 <= r@.len() <= d@.len() + 1,
        r@[0] != 0,
        digits_value(r@) == 5 * digits_value(d@),
{
    let n = d.len();
    let ghost ext = d@.push(0u8);
    let mut out: Vec<u8> = Vec::new();
    let mut rem: u8 = 0;
    let mut i: usize = 0;
    assert(ext.take(0) =~= Seq::<u8>::empty());
    while i <= n
        invariant
            n == d@.len(),
            1 <= n <= 200,
            ext == d@.push(0u8),
            all_digits(d@),
            d@[0] != 0,
            i <= n + 1,
            out@.len() == i,
            all_digits(out@),
            rem <= 1,
            digits_value(out@) * 2 + rem == digits_value(ext.take(i as int)),
            i >= 1 ==> out@[0] == d@[0] / 2,
            i >= 2 && d@[0] == 1 ==> out@[1] >= 5,
            i == 1 ==> rem == d@[0] % 2,
        decreases n + 1 - i,
    {
        let digit: u8 = if i < n {
            d[i]
        } else {
            0
        };
        assert(digit == ext[i as int]);
        let cur: u8 = rem * 10 + digit;
        let ghost before = out@;
        out.push(cur / 2);
        rem = cur % 2;
        proof {
            assert(ext.take(i + 1).drop_last() =~= ext.take(i as int));
            assert(out@.drop_last() =~= before);
            assert forall|k: int| 0 <= k < out@.len() implies #[trigger] out@[k] <= 9 by {
                if k < before.len() {
                    assert(out@[k] == before[k]);
                }
            }
            if i >= 1 {
                assert(out@[0] == before[0]);
            }
            if i >= 2 {
                assert(out@[1] == before[1]);
            }
        }
        i = i + 1;
    }
    assert(ext.take((n + 1) as int) =~= ext);
    assert(ext.drop_last() =~= d@);
    assert(digits_value(ext) == digits_value(d@) * 10);
    let ghost v = digits_value(d@);
    assert(rem == 0);
    assert(digits_value(out@) == 5 * v);
    if out[0] == 0 {
        let ghost full = out@;
        out.remove(0);
        proof {
            assert(full =~= seq![0u8] + out@);
            lemma_digits_append(seq![0u8], out@);
            assert(seq![0u8].drop_last() =~= Seq::<u8>::empty());
            assert(digits_value(seq![0u8]) == 0);
            assert(0 * pow10(out@.len()) == 0);
            assert(out@[0] == full[1]);
            assert forall|k: int| 0 <= k < out@.len() implies #[trigger] out@[k] <= 9 by {
                assert(out@[k] == full[k + 1]);
            }
        }
        out
    } else {
        out
    }
}

/// The midpoint above the `f32` with bit pattern `b`, as a normal decimal.
fn midpoint_decimal(b: u32) -> (m: Decimal)
    requires
        b <= one_bits(),
    ensures
        m@.normal(),
        m@.mantissa() == midpoint_mantissa(b as nat),
        m@.exponent() == midpoint_exponent(b as nat),
{
    let (u, s): (u64, u64) = if b < 0x80_0000 {
        (2 * (b as u64) + 1, 0)
    } else {
        (0x100_0000 + 2 * ((b as u64) % 0x80_0000) + 1, (b as u64) / 0x80_0000 - 1)
    };
    assert(u == midpoint_odd(b as nat) && s == midpoint_shift(b as nat));
    assert(s <= 126);
    let mut d = digits_of_small(u);
    proof {
        lemma_digits_lower(d@);
        assert(pow10(8) == 100000000) by {
            reveal_with_fuel(pow10, 9);
        }
        if d@.len() > 8 {
            lemma_pow10_le(8, (d@.len() - 1) as nat);
        }
        assert(pow5(0) == 1);
    }
    let t: u64 = 150 - s;
    let mut k: u64 = 0;
    while k < t
        invariant
            k <= t <= 150,
            all_digits(d@),
            1 <= d@.len() <= 8 + k,
            d@[0] != 0,
            digits_value(d@) == u * pow5(k as nat),
            digits_value(d@) % 2 == 1,
        decreases t - k,
    {
        let ghost before = digits_value(d@);
        d = times_five(&d);
        proof {
            assert(pow5((k + 1) as nat) == 5 * pow5(k as nat));
            assert(u * (5 * pow5(k as nat)) == 5 * (u * pow5(k as nat))) by (nonlinear_arith);
            assert((5 * before) % 2 == before % 2) by (nonlinear_arith);
        }
        k = k + 1;
    }
    proof {
        let dl = d@.drop_last();
        assert(digits_value(d@) == digits_value(dl) * 10 + d@.last() as nat);
        assert((digits_value(dl) * 10 + d@.last() as nat) % 2 == (d@.last() as nat) % 2)
            by (nonlinear_arith);
    }
    let len = d.len();
    Decimal { digits: d, point: len as i128 + s as i128 - 150 }
}

/// Whether `x` rounds to the `f32` with bit pattern `b` or below it.
fn rounds_at_or_below_exec(x: &Decimal, b: u32) -> (r: bool)
    requires
        x@.normal(),
        b <= one_bits(),
    ensures
        r == rounds_at_or_below(x@, b as nat),
{
    let m = midpoint_decimal(b);
    let below = decimal_lt(x, &m);
    let above = decimal_lt(&m, x);
    below || (!above && b % 2 == 0)
}

/// The bit pattern of the `f32` that a usable weight rounds to.
pub fn f32_key_exec(x: &Decimal) -> (r: u32)
    requires
        x@.normal(),
        f32_usable(x@),
    ensures
        r == f32_key(x@),
        1 <= r <= one_bits(),
{
    let mut lo: u32 = 1;
    let mut hi: u32 = 0x3f80_0000;
    while lo < hi
        invariant
            1 <= lo <= hi <= one_bits(),
            x@.normal(),
            !rounds_at_or_below(x@, (lo - 1) as nat),
            rounds_at_or_below(x@, hi as nat),
        decreases hi - lo,
    {
        let mid = lo + (hi - lo) / 2;
        if rounds_at_or_below_exec(x, mid) {
            hi = mid;
        } else {
            lo = mid + 1;
        }
    }
    proof {
        lemma_f32_key_is(x@, lo as nat);
    }
    lo
}

/// The key of a value that rounds to `b` is `b`.
pub proof fn lemma_f32_key_is(x: DecimalSpec, b: nat)
    requires
        b <= one_bits(),
        rounds_to(x, b),
    ensures
        f32_key(x) == b,
{
    let c = f32_key(x);
    assert(c <= one_bits() && rounds_to(x, c));
    lemma_rounds_to_unique(x, b, c);
}

proof fn lemma_pow5_below_pow10(k: nat)
    ensures
        k > 0 ==> pow5(k) < pow10(k),
        pow5(k) <= pow10(k),
    decreases k,
{
    if k > 0 {
        lemma_pow5_below_pow10((k - 1) as nat);
    }
}

/// The weight `1`, which a range without a `q` has, rounds to `1.0`.
pub proof fn lemma_one_usable()
    ensures
        f32_usable(quality_one()),
{
    let one = quality_one();
    assert(one.digits.drop_last() =~= Seq::<u8>::empty());
    assert(one.digits.last() == 1u8);
    assert(digits_value(one.digits) == digits_value(one.digits.drop_last()) * 10 + 1);
    assert(digits_value(Seq::<u8>::empty()) == 0);
    assert(one.mantissa() == 1);
    assert(one.exponent() == 0);
    lemma_pow5_below_pow10(150);
    assert(midpoint_shift(0) == 0);
    assert(midpoint_odd(0) == 1);
    assert(((150 - midpoint_shift(0)) as nat) == 150);
    assert(midpoint_mantissa(0) == pow5(150));
    assert(midpoint_exponent(0) == -150);
    assert(((0 - (-150)) as nat) == 150);
    assert(midpoint_shift(one_bits()) == 126);
    assert(midpoint_odd(one_bits()) == 0x100_0001);
    assert(pow10(24) == 1000000000000000000000000) by {
        reveal_with_fuel(pow10, 25);
    }
    assert(pow5(24) == 59604644775390625) by {
        reveal_with_fuel(pow5, 25);
    }
    assert(midpoint_mantissa(one_bits()) == 0x100_0001 * pow5(24));
    assert(midpoint_exponent(one_bits()) == -24);
    assert(((0 - (-24)) as nat) == 24);
}

} // verus!
