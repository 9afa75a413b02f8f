//! Exact decimal numbers: the value of a digit string, and the comparison of
//! numbers of the form `n * 10^e`.

use vstd::prelude::*;

verus! {

/// `10^k`.
pub open spec fn pow10(k: nat) -> nat
    decreases k,
{
    if k == 0 {
        1
    } else {
        10 * pow10((k - 1) as nat)
    }
}

/// Every element is a decimal digit.
pub open spec fn all_digits(d: Seq<u8>) -> bool {
    forall|i: int| 0 <= i < d.len() ==> #[trigger] d[i] <= 9
}

/// The natural number that the decimal digits `d` spell, most significant first.
pub open spec fn digits_value(d: Seq<u8>) -> nat
    decreases d.len(),
{
    if d.len() == 0 {
        0
    } else {
        digits_value(d.drop_last()) * 10 + d.last() as nat
    }
}

/// `n1 * 10^e1 < n2 * 10^e2`, with `e1`, `e2` possibly negative.
pub open spec fn scaled_lt(n1: nat, e1: int, n2: nat, e2: int) -> bool {
    if e1 <= e2 {
        n1 < n2 * pow10((e2 - e1) as nat)
    } else {
        n1 * pow10((e1 - e2) as nat) < n2
    }
}

/// A positive decimal in normal form `0.d1 d2 ... dk * 10^point`: at least one
/// digit, the first and the last non-zero.
pub struct Decimal {
    pub digits: Vec<u8>,
    pub point: i128,
}

/// The spec-level counterpart of `Decimal`.
pub struct DecimalSpec {
    pub digits: Seq<u8>,
    pub point: int,
}

impl View for Decimal {
    type V = DecimalSpec;

    open spec fn view(&self) -> DecimalSpec {
        DecimalSpec { digits: self.digits@, point: self.point as int }
    }
}

impl DecimalSpec {
    /// The form's invariant.
    pub open spec fn normal(self) -> bool {
        &&& all_digits(self.digits)
        &&& self.digits.len() >= 1
        &&& self.digits[0] != 0
        &&& self.digits.last() != 0
    }

    /// The integer mantissa of the value.
    pub open spec fn mantissa(self) -> nat {
        digits_value(self.digits)
    }

    /// The power of ten that scales `mantissa`.
    pub open spec fn exponent(self) -> int {
        self.point - self.digits.len()
    }

    /// `self < other` as numbers.
    pub open spec fn lt(self, other: DecimalSpec) -> bool {
        scaled_lt(self.mantissa(), self.exponent(), other.mantissa(), other.exponent())
    }
}

/// The digit at `i` of `d`, reading past its end as zero.
pub open spec fn padded(d: Seq<u8>, i: int) -> u8 {
    if 0 <= i < d.len() {
        d[i]
    } else {
        0
    }
}

/// `a` comes before `b` when both are read digit by digit, padded with zeros.
pub open spec fn padded_lt(a: Seq<u8>, b: Seq<u8>) -> bool {
    exists|i: int|
        0 <= i && (forall|j: int| 0 <= j < i ==> padded(a, j) == padded(b, j)) && #[trigger] padded(
            a,
            i,
        ) < padded(b, i)
}

pub proof fn lemma_pow10_pos(k: nat)
    ensures
        pow10(k) >= 1,
    decreases k,
{
    if k > 0 {
        lemma_pow10_pos((k - 1) as nat);
    }
}

pub proof fn lemma_pow10_adds(a: nat, b: nat)
    ensures
        pow10(a + b) == pow10(a) * pow10(b),
    decreases b,
{
    if b == 0 {
        assert(pow10(a) * 1 == pow10(a));
    } else {
        lemma_pow10_adds(a, (b - 1) as nat);
        assert((a + b - 1) as nat == a + (b - 1) as nat);
        let pa = pow10(a);
        let pb = pow10((b - 1) as nat);
        assert(10 * (pa * pb) == pa * (10 * pb)) by (nonlinear_arith);
    }
}

pub proof fn lemma_pow10_le(a: nat, b: nat)
    requires
        a <= b,
    ensures
        pow10(a) <= pow10(b),
    decreases b,
{
    if a < b {
        lemma_pow10_le(a, (b - 1) as nat);
        lemma_pow10_pos((b - 1) as nat);
    }
}

pub proof fn lemma_pow10_succ(a: nat)
    ensures
        pow10(a + 1) == pow10(a) * 10,
{
    assert((a + 1 - 1) as nat == a);
}

/// `scaled_lt` compares the two numbers brought to any common exponent not
/// above either of theirs.
pub proof fn lemma_scaled_lt_common(n1: nat, e1: int, n2: nat, e2: int, m: int)
    requires
        m <= e1,
        m <= e2,
    ensures
        scaled_lt(n1, e1, n2, e2) == (n1 * pow10((e1 - m) as nat) < n2 * pow10((e2 - m) as nat)),
{
    if e1 <= e2 {
        let p = pow10((e1 - m) as nat);
        let d = pow10((e2 - e1) as nat);
        lemma_pow10_pos((e1 - m) as nat);
        lemma_pow10_adds((e2 - e1) as nat, (e1 - m) as nat);
        assert(((e2 - e1) as nat + (e1 - m) as nat) as nat == (e2 - m) as nat);
        assert(n2 * (d * p) == (n2 * d) * p) by (nonlinear_arith);
        assert((n1 * p < (n2 * d) * p) == (n1 < n2 * d)) by (nonlinear_arith)
            requires
                p > 0,
        ;
    } else {
        let p = pow10((e2 - m) as nat);
        let d = pow10((e1 - e2) as nat);
        lemma_pow10_pos((e2 - m) as nat);
        lemma_pow10_adds((e1 - e2) as nat, (e2 - m) as nat);
        assert(((e1 - e2) as nat + (e2 - m) as nat) as nat == (e1 - m) as nat);
        assert(n1 * (d * p) == (n1 * d) * p) by (nonlinear_arith);
        assert(((n1 * d) * p < n2 * p) == (n1 * d < n2)) by (nonlinear_arith)
            requires
                p > 0,
        ;
    }
}

/// The numeric order of decimals is transitive.
pub proof fn lemma_lt_transitive(a: DecimalSpec, b: DecimalSpec, c: DecimalSpec)
    requires
        a.lt(b),
        b.lt(c),
    ensures
        a.lt(c),
{
    let m = if a.exponent() <= b.exponent() && a.exponent() <= c.exponent() {
        a.exponent()
    } else if b.exponent() <= c.exponent() {
        b.exponent()
    } else {
        c.exponent()
    };
    lemma_scaled_lt_common(a.mantissa(), a.exponent(), b.mantissa(), b.exponent(), m);
    lemma_scaled_lt_common(b.mantissa(), b.exponent(), c.mantissa(), c.exponent(), m);
    lemma_scaled_lt_common(a.mantissa(), a.exponent(), c.mantissa(), c.exponent(), m);
}

/// The numeric order of decimals is asymmetric.
pub proof fn lemma_lt_asymmetric(a: DecimalSpec, b: DecimalSpec)
    requires
        a.lt(b),
    ensures
        !b.lt(a),
{
    let m = if a.exponent() <= b.exponent() {
        a.exponent()
    } else {
        b.exponent()
    };
    lemma_scaled_lt_common(a.mantissa(), a.exponent(), b.mantissa(), b.exponent(), m);
    lemma_scaled_lt_common(b.mantissa(), b.exponent(), a.mantissa(), a.exponent(), m);
}

/// Two decimals neither below the other are equal in value: whatever is
/// above one is above the other.
pub proof fn lemma_lt_equal_values_above(a: DecimalSpec, b: DecimalSpec, c: DecimalSpec)
    requires
        !a.lt(b),
        !b.lt(a),
        a.lt(c),
    ensures
        b.lt(c),
{
    let m = if a.exponent() <= b.exponent() && a.exponent() <= c.exponent() {
        a.exponent()
    } else if b.exponent() <= c.exponent() {
        b.exponent()
    } else {
        c.exponent()
    };
    lemma_scaled_lt_common(a.mantissa(), a.exponent(), b.mantissa(), b.exponent(), m);
    lemma_scaled_lt_common(b.mantissa(), b.exponent(), a.mantissa(), a.exponent(), m);
    lemma_scaled_lt_common(a.mantissa(), a.exponent(), c.mantissa(), c.exponent(), m);
    lemma_scaled_lt_common(b.mantissa(), b.exponent(), c.mantissa(), c.exponent(), m);
}

/// No decimal is below itself.
pub proof fn lemma_lt_irreflexive(a: DecimalSpec)
    ensures
        !a.lt(a),
{
    lemma_scaled_lt_common(a.mantissa(), a.exponent(), a.mantissa(), a.exponent(), a.exponent());
}

/// The value of a concatenation.
pub proof fn lemma_digits_append(x: Seq<u8>, y: Seq<u8>)
    ensures
        digits_value(x + y) == digits_value(x) * pow10(y.len()) + digits_value(y),
    decreases y.len(),
{
    if y.len() == 0 {
        assert(x + y =~= x);
        assert(digits_value(x) * 1 == digits_value(x));
    } else {
        lemma_digits_append(x, y.drop_last());
        assert((x + y).drop_last() =~= x + y.drop_last());
        assert((x + y).last() == y.last());
        lemma_pow10_succ((y.len() - 1) as nat);
        let a = digits_value(x);
        let p = pow10((y.len() - 1) as nat);
        let r = digits_value(y.drop_last());
        assert((a * p + r) * 10 + y.last() as nat == a * (p * 10) + (r * 10 + y.last() as nat))
            by (nonlinear_arith);
    }
}

/// Digit strings are below the next power of ten.
pub proof fn lemma_digits_upper(x: Seq<u8>)
    requires
        all_digits(x),
    ensures
        digits_value(x) < pow10(x.len()),
    decreases x.len(),
{
    if x.len() == 0 {
    } else {
        let y = x.drop_last();
        assert(all_digits(y)) by {
            assert forall|i: int| 0 <= i < y.len() implies #[trigger] y[i] <= 9 by {
                assert(y[i] == x[i]);
            }
        }
        lemma_digits_upper(y);
        lemma_pow10_succ(y.len());
        assert(x.last() == x[x.len() - 1]);
        let v = digits_value(y);
        let p = pow10(y.len());
        assert(v * 10 + (x.last() as nat) < p * 10) by (nonlinear_arith)
            requires
                v < p,
                x.last() <= 9,
        ;
    }
}

/// A digit string with a non-zero first digit reaches its power of ten.
pub proof fn lemma_digits_lower(x: Seq<u8>)
    requires
        x.len() >= 1,
        x[0] >= 1,
    ensures
        digits_value(x) >= pow10((x.len() - 1) as nat),
{
    let head = x.take(1);
    let tail = x.skip(1);
    assert(head + tail =~= x);
    lemma_digits_append(head, tail);
    assert(head.drop_last() =~= Seq::<u8>::empty());
    assert(digits_value(Seq::<u8>::empty()) == 0);
    assert(head.last() == x[0]);
    assert(digits_value(head) == x[0] as nat);
    let p = pow10(tail.len());
    assert(x[0] as nat * p >= p) by (nonlinear_arith)
        requires
            x[0] >= 1,
    ;
}

/// Appending zeros multiplies by a power of ten.
pub proof fn lemma_digits_zeros(x: Seq<u8>, k: nat)
    ensures
        digits_value(x + Seq::new(k, |i: int| 0u8)) == digits_value(x) * pow10(k),
    decreases k,
{
    let z = Seq::new(k, |i: int| 0u8);
    lemma_digits_append(x, z);
    lemma_digits_zero_value(k);
}

proof fn lemma_digits_zero_value(k: nat)
    ensures
        digits_value(Seq::new(k, |i: int| 0u8)) == 0,
    decreases k,
{
    if k > 0 {
        let z = Seq::new(k, |i: int| 0u8);
        assert(z.drop_last() =~= Seq::new((k - 1) as nat, |i: int| 0u8));
        lemma_digits_zero_value((k - 1) as nat);
    }
}

/// Of two equally long digit strings, the one with the smaller digit at the
/// first place where they differ is the smaller number.
pub proof fn lemma_digits_first_difference(x: Seq<u8>, y: Seq<u8>, i: int)
    requires
        x.len() == y.len(),
        all_digits(x),
        all_digits(y),
        0 <= i < x.len(),
        forall|j: int| 0 <= j < i ==> x[j] == y[j],
        x[i] < y[i],
    ensures
        digits_value(x) < digits_value(y),
{
    let k = (x.len() - i - 1) as nat;
    let xp = x.take(i);
    let yp = y.take(i);
    assert(xp =~= yp);
    let xh = x.take(i + 1);
    let yh = y.take(i + 1);
    let xt = x.skip(i + 1);
    let yt = y.skip(i + 1);
    assert(xh + xt =~= x);
    assert(yh + yt =~= y);
    lemma_digits_append(xh, xt);
    lemma_digits_append(yh, yt);
    assert(xh.drop_last() =~= xp);
    assert(yh.drop_last() =~= yp);
    assert(xh.last() == x[i]);
    assert(yh.last() == y[i]);
    assert(all_digits(xt)) by {
        assert forall|j: int| 0 <= j < xt.len() implies #[trigger] xt[j] <= 9 by {
            assert(xt[j] == x[j + i + 1]);
        }
    }
    lemma_digits_upper(xt);
    let p = digits_value(xp) * 10;
    let q = pow10(k);
    let rx = digits_value(xt);
    let ry = digits_value(yt);
    let a = x[i] as nat;
    let b = y[i] as nat;
    assert((p + a) * q + rx < (p + b) * q + ry) by (nonlinear_arith)
        requires
            rx < q,
            a < b,
    ;
}

/// The numeric order of normal decimals is the order of their points, then of
/// their digits.
pub proof fn lemma_decimal_order(a: DecimalSpec, b: DecimalSpec)
    requires
        a.normal(),
        b.normal(),
    ensures
        a.lt(b) == (a.point < b.point || (a.point == b.point && padded_lt(a.digits, b.digits))),
{
    let na = a.mantissa();
    let nb = b.mantissa();
    let la = a.digits.len();
    let lb = b.digits.len();
    let ea = a.exponent();
    let eb = b.exponent();
    let m = if ea <= eb { ea } else { eb };
    let sa = (ea - m) as nat;
    let sb = (eb - m) as nat;
    let big_a = na * pow10(sa);
    let big_b = nb * pow10(sb);
    // `a.lt(b)` is `big_a < big_b` in either branch of `scaled_lt`.
    lemma_pow10_pos(sa);
    lemma_pow10_pos(sb);
    assert(pow10(0) == 1);
    if ea <= eb {
        assert(sa == 0);
        assert(pow10(sa) == 1);
        assert(big_a == na) by (nonlinear_arith)
            requires
                pow10(sa) == 1,
                big_a == na * pow10(sa),
        ;
    } else {
        assert(sb == 0);
        assert(pow10(sb) == 1);
        assert(big_b == nb) by (nonlinear_arith)
            requires
                pow10(sb) == 1,
                big_b == nb * pow10(sb),
        ;
    }
    assert(a.lt(b) == (big_a < big_b));
    lemma_digits_upper(a.digits);
    lemma_digits_upper(b.digits);
    lemma_digits_lower(a.digits);
    lemma_digits_lower(b.digits);
    // big_x lies in [10^(point - m - 1), 10^(point - m)).
    lemma_pow10_adds(la, sa);
    lemma_pow10_adds(lb, sb);
    lemma_pow10_adds((la - 1) as nat, sa);
    lemma_pow10_adds((lb - 1) as nat, sb);
    let pa_hi = pow10((la + sa) as nat);
    let pa_lo = pow10((la - 1 + sa) as nat);
    let pb_hi = pow10((lb + sb) as nat);
    let pb_lo = pow10((lb - 1 + sb) as nat);
    assert(big_a < pa_hi) by (nonlinear_arith)
        requires
            na < pow10(la),
            pa_hi == pow10(la) * pow10(sa),
            pow10(sa) >= 1,
            big_a == na * pow10(sa),
    ;
    assert(big_a >= pa_lo) by (nonlinear_arith)
        requires
            na >= pow10((la - 1) as nat),
            pa_lo == pow10((la - 1) as nat) * pow10(sa),
            pow10(sa) >= 1,
            big_a == na * pow10(sa),
    ;
    assert(big_b < pb_hi) by (nonlinear_arith)
        requires
            nb < pow10(lb),
            pb_hi == pow10(lb) * pow10(sb),
            pow10(sb) >= 1,
            big_b == nb * pow10(sb),
    ;
    assert(big_b >= pb_lo) by (nonlinear_arith)
        requires
            nb >= pow10((lb - 1) as nat),
            pb_lo == pow10((lb - 1) as nat) * pow10(sb),
            pow10(sb) >= 1,
            big_b == nb * pow10(sb),
    ;
    if a.point < b.point {
        lemma_pow10_le((la + sa) as nat, (lb - 1 + sb) as nat);
        assert(big_a < big_b);
        assert(a.lt(b));
    } else if a.point > b.point {
        lemma_pow10_le((lb + sb) as nat, (la - 1 + sa) as nat);
        assert(!a.lt(b));
    } else {
        // Same point: pad both digit strings to a common length.
        let len = if la >= lb { la } else { lb };
        let za = Seq::new((len - la) as nat, |i: int| 0u8);
        let zb = Seq::new((len - lb) as nat, |i: int| 0u8);
        let xa = a.digits + za;
        let xb = b.digits + zb;
        lemma_digits_zeros(a.digits, (len - la) as nat);
        lemma_digits_zeros(b.digits, (len - lb) as nat);
        assert(sa == len - la);
        assert(sb == len - lb);
        assert(digits_value(xa) == big_a);
        assert(digits_value(xb) == big_b);
        assert forall|j: int| 0 <= j < len implies #[trigger] xa[j] == padded(a.digits, j)
            && xb[j] == padded(b.digits, j) by {}
        assert(all_digits(xa));
        assert(all_digits(xb));
        if padded_lt(a.digits, b.digits) {
            let i = choose|i: int|
                0 <= i && (forall|j: int| 0 <= j < i ==> padded(a.digits, j) == padded(b.digits, j))
                    && #[trigger] padded(a.digits, i) < padded(b.digits, i);
            assert(i < len);
            assert forall|j: int| 0 <= j < i implies xa[j] == xb[j] by {
                assert(padded(a.digits, j) == padded(b.digits, j));
            }
            lemma_digits_first_difference(xa, xb, i);
        } else if padded_lt(b.digits, a.digits) {
            let i = choose|i: int|
                0 <= i && (forall|j: int| 0 <= j < i ==> padded(b.digits, j) == padded(a.digits, j))
                    && #[trigger] padded(b.digits, i) < padded(a.digits, i);
            assert(i < len);
            assert forall|j: int| 0 <= j < i implies xb[j] == xa[j] by {
                assert(padded(b.digits, j) == padded(a.digits, j));
            }
            lemma_digits_first_difference(xb, xa, i);
        } else {
            assert forall|j: int| 0 <= j < len implies xa[j] == xb[j] by {
                if xa[j] != xb[j] {
                    lemma_first_difference_exists(a.digits, b.digits, j);
                }
            }
            assert(xa =~= xb);
        }
    }
}

/// Where two padded digit strings differ, one of them is `padded_lt` the other.
proof fn lemma_first_difference_exists(a: Seq<u8>, b: Seq<u8>, j: int)
    requires
        0 <= j,
        padded(a, j) != padded(b, j),
    ensures
        padded_lt(a, b) || padded_lt(b, a),
    decreases j,
{
    if exists|k: int| 0 <= k < j && padded(a, k) != padded(b, k) {
        let k = choose|k: int| 0 <= k < j && padded(a, k) != padded(b, k);
        lemma_first_difference_exists(a, b, k);
    } else {
        if padded(a, j) < padded(b, j) {
            assert(padded_lt(a, b));
        } else {
            assert forall|k: int| 0 <= k < j implies padded(b, k) == padded(a, k) by {}
            assert(padded_lt(b, a));
        }
    }
}

/// `a < b` for decimals in normal form.
pub fn decimal_lt(a: &Decimal, b: &Decimal) -> (r: bool)
    requires
        a@.normal(),
        b@.normal(),
    ensures
        r == a@.lt(b@),
{
    proof {
        lemma_decimal_order(a@, b@);
    }
    if a.point != b.point {
        return a.point < b.point;
    }
    let la = a.digits.len();
    let lb = b.digits.len();
    let n = if la >= lb { la } else { lb };
    let mut i: usize = 0;
    while i < n
        invariant
            i <= n,
            n == la || n == lb,
            la <= n,
            lb <= n,
            la == a.digits.len(),
            lb == b.digits.len(),
            a@.normal(),
            b@.normal(),
            a.point == b.point,
            forall|j: int| 0 <= j < i ==> padded(a.digits@, j) == padded(b.digits@, j),
        decreases n - i,
    {
        let da: u8 = if i < la {
            a.digits[i]
        } else {
            0
        };
        let db: u8 = if i < lb {
            b.digits[i]
        } else {
            0
        };
        assert(da == padded(a.digits@, i as int));
        assert(db == padded(b.digits@, i as int));
        if da != db {
            proof {
                lemma_decimal_order(a@, b@);
                if da < db {
                    assert(padded_lt(a.digits@, b.digits@));
                    assert(a@.lt(b@));
                } else {
                    assert forall|j: int| 0 <= j < i implies padded(b.digits@, j) == padded(
                        a.digits@,
                        j,
                    ) by {}
                    assert(padded_lt(b.digits@, a.digits@));
                    lemma_padded_lt_asymmetric(b.digits@, a.digits@);
                    assert(!a@.lt(b@));
                }
            }
            return da < db;
        }
        i = i + 1;
    }
    proof {
        lemma_decimal_order(a@, b@);
        if padded_lt(a.digits@, b.digits@) {
            let k = choose|k: int|
                0 <= k && (forall|j: int| 0 <= j < k ==> padded(a.digits@, j) == padded(
                    b.digits@,
                    j,
                )) && #[trigger] padded(a.digits@, k) < padded(b.digits@, k);
            assert(k >= n);
        }
    }
    false
}

proof fn lemma_padded_lt_asymmetric(a: Seq<u8>, b: Seq<u8>)
    requires
        padded_lt(a, b),
    ensures
        !padded_lt(b, a),
{
    let i = choose|i: int|
        0 <= i && (forall|j: int| 0 <= j < i ==> padded(a, j) == padded(b, j)) && #[trigger] padded(
            a,
            i,
        ) < padded(b, i);
    if padded_lt(b, a) {
        let k = choose|k: int|
            0 <= k && (forall|j: int| 0 <= j < k ==> padded(b, j) == padded(a, j)) && #[trigger] padded(
                b,
                k,
            ) < padded(a, k);
        if k < i {
            assert(padded(a, k) == padded(b, k));
        } else if i < k {
            assert(padded(b, i) == padded(a, i));
        }
    }
}

} // verus!
