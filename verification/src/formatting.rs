//! Number formatting as `{}` and `{:x}` do it, over sequences of characters.

use vstd::prelude::*;

verus! {

/// The lowercase hexadecimal digit for `n < 16`.
pub open spec fn hex_digit_char(n: nat) -> char {
    if n < 10 {
        ((48 + n) as u32) as char
    } else {
        ((87 + n) as u32) as char
    }
}

/// The value of a hexadecimal digit: `0`-`9` and `a`-`f`; 0 for any other
/// character.
pub open spec fn hex_digit_value(c: char) -> nat {
    let v = c as u32;
    if 48 <= v <= 57 {
        (v - 48) as nat
    } else if 97 <= v <= 102 {
        (v - 87) as nat
    } else {
        0
    }
}

/// The number that a string of hexadecimal digits spells, most significant
/// digit first.
pub open spec fn hex_number(s: Seq<char>) -> nat
    decreases s.len(),
{
    if s.len() == 0 {
        0
    } else {
        hex_number(s.drop_last()) * 16 + hex_digit_value(s.last())
    }
}

/// `format!("{:x}", n)`: lowercase hexadecimal, no leading zeros.
pub open spec fn hex_digits(n: nat) -> Seq<char>
    decreases n,
{
    if n < 16 {
        seq![hex_digit_char(n)]
    } else {
        hex_digits(n / 16).push(hex_digit_char(n % 16))
    }
}

/// The decimal digit for `n < 10`.
pub open spec fn dec_digit_char(n: nat) -> char {
    ((48 + n) as u32) as char
}

/// `format!("{}", n)` for an unsigned integer.
pub open spec fn dec_digits(n: nat) -> Seq<char>
    decreases n,
{
    if n < 10 {
        seq![dec_digit_char(n)]
    } else {
        dec_digits(n / 10).push(dec_digit_char(n % 10))
    }
}

/// `s` padded on the left with `'0'` to at least `width` characters
/// (`{:0>width$}`, and `{:0width$}` for non-negative numbers).
pub open spec fn zero_pad(s: Seq<char>, width: nat) -> Seq<char> {
    if s.len() < width {
        Seq::new((width - s.len()) as nat, |i: int| '0') + s
    } else {
        s
    }
}

fn hex_digit_exec(n: u64) -> (c: char)
    requires
        n < 16,
    ensures
        c == hex_digit_char(n as nat),
{
    let b: u8 = if n < 10 {
        48 + n as u8
    } else {
        87 + n as u8
    };
    b as char
}

fn dec_digit_exec(n: u64) -> (c: char)
    requires
        n < 10,
    ensures
        c == dec_digit_char(n as nat),
{
    let b: u8 = 48 + n as u8;
    b as char
}

/// Appends `format!("{:x}", n)` to `out`.
pub fn push_hex(out: &mut Vec<char>, n: u64)
    ensures
        final(out)@ == old(out)@ + hex_digits(n as nat),
    decreases n,
{
    if n < 16 {
        out.push(hex_digit_exec(n));
    } else {
        push_hex(out, n / 16);
        out.push(hex_digit_exec(n % 16));
    }
    assert(final(out)@ =~= old(out)@ + hex_digits(n as nat));
}

/// Appends `format!("{}", n)` to `out`.
pub fn push_dec(out: &mut Vec<char>, n: u64)
    ensures
        final(out)@ == old(out)@ + dec_digits(n as nat),
    decreases n,
{
    if n < 10 {
        out.push(dec_digit_exec(n));
    } else {
        push_dec(out, n / 10);
        out.push(dec_digit_exec(n % 10));
    }
    assert(final(out)@ =~= old(out)@ + dec_digits(n as nat));
}

/// `s` padded on the left with `fill` to at least `width` characters.
pub open spec fn pad_left(s: Seq<char>, width: nat, fill: char) -> Seq<char> {
    if s.len() < width {
        Seq::new((width - s.len()) as nat, |i: int| fill) + s
    } else {
        s
    }
}

/// Appends `format!("{:x}", n)` right-aligned in `width` characters, padded
/// on the left with `fill`.
pub fn push_hex_aligned(out: &mut Vec<char>, n: u64, width: usize, fill: char)
    ensures
        final(out)@ == old(out)@ + pad_left(hex_digits(n as nat), width as nat, fill),
{
    let mut digits: Vec<char> = Vec::new();
    push_hex(&mut digits, n);
    assert(digits@ =~= hex_digits(n as nat));
    let ghost start = out@;
    let len = digits.len();
    if len < width {
        let mut k: usize = 0;
        while k < width - len
            invariant
                k <= width - len,
                len == digits@.len(),
                len < width,
                out@ == start + Seq::new(k as nat, |i: int| fill),
            decreases width - len - k,
        {
            out.push(fill);
            k = k + 1;
            assert(out@ =~= start + Seq::new(k as nat, |i: int| fill));
        }
    }
    let ghost mid = out@;
    let mut j: usize = 0;
    while j < len
        invariant
            j <= len == digits@.len(),
            out@ == mid + digits@.take(j as int),
        decreases len - j,
    {
        out.push(digits[j]);
        j = j + 1;
        assert(out@ =~= mid + digits@.take(j as int));
    }
    assert(digits@.take(len as int) =~= digits@);
    assert(out@ =~= start + pad_left(hex_digits(n as nat), width as nat, fill));
}

/// Appends `format!("{:0>width$x}", n)` to `out`.
pub fn push_hex_padded(out: &mut Vec<char>, n: u64, width: usize)
    ensures
        final(out)@ == old(out)@ + zero_pad(hex_digits(n as nat), width as nat),
{
    push_hex_aligned(out, n, width, '0');
    assert(pad_left(hex_digits(n as nat), width as nat, '0') =~= zero_pad(
        hex_digits(n as nat),
        width as nat,
    ));
}

/// Appends the characters of `s` to `out`.
pub fn push_all(out: &mut Vec<char>, s: &Vec<char>)
    ensures
        final(out)@ == old(out)@ + s@,
{
    let ghost start = out@;
    let mut j: usize = 0;
    while j < s.len()
        invariant
            j <= s@.len(),
            out@ == start + s@.take(j as int),
        decreases s@.len() - j,
    {
        out.push(s[j]);
        j = j + 1;
        assert(out@ =~= start + s@.take(j as int));
    }
    assert(s@.take(s@.len() as int) =~= s@);
}

/// `String::from_iter` over characters.
#[verifier::external_body]
pub(crate) fn string_from_chars(chars: Vec<char>) -> (s: String)
    ensures
        s@ == chars@,
{
    String::from_iter(chars)
}

} // verus!
