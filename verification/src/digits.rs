//! Decimal digit sequences: their numeric value, and rendering a number
//! as its decimal digits, as the date formatting and parsing need them.

use vstd::prelude::*;

verus! {

/// `c` is one of the ten ASCII decimal digits.
pub open spec fn is_digit(c: char) -> bool {
    48 <= c as u32 && c as u32 <= 57
}

/// The numeric value of one decimal digit character.
pub open spec fn digit_val(c: char) -> nat {
    (c as u32 - 48) as nat
}

/// Every character of `s` is a decimal digit.
pub open spec fn all_digits(s: Seq<char>) -> bool {
    forall|i: int| 0 <= i < s.len() ==> is_digit(#[trigger] s[i])
}

/// The value of a digit sequence read as a base-ten numeral.
pub open spec fn digits_val(s: Seq<char>) -> nat
    decreases s.len(),
{
    if s.len() == 0 {
        0
    } else {
        digits_val(s.drop_last()) * 10 + digit_val(s.last())
    }
}

/// The digit character for a value below ten.
pub open spec fn digit_char(d: nat) -> char {
    if d == 0 {
        '0'
    } else if d == 1 {
        '1'
    } else if d == 2 {
        '2'
    } else if d == 3 {
        '3'
    } else if d == 4 {
        '4'
    } else if d == 5 {
        '5'
    } else if d == 6 {
        '6'
    } else if d == 7 {
        '7'
    } else if d == 8 {
        '8'
    } else {
        '9'
    }
}

/// The decimal digits of `n`, most significant first, with no leading zero
/// (a single zero for `n == 0`).
pub open spec fn dec_digits(n: nat) -> Seq<char>
    decreases n,
{
    if n < 10 {
        seq![digit_char(n)]
    } else {
        dec_digits(n / 10).push(digit_char(n % 10))
    }
}

/// `k` zero characters.
pub open spec fn zeroes(k: nat) -> Seq<char> {
    Seq::new(k, |i: int| '0')
}

/// `s` padded on the left with zeroes to at least `w` characters.
pub open spec fn pad_left(s: Seq<char>, w: nat) -> Seq<char> {
    if s.len() >= w {
        s
    } else {
        zeroes((w - s.len()) as nat) + s
    }
}

/// Two characters with the same scalar value are the same character.
proof fn lemma_char_eq(c1: char, c2: char)
    requires
        c1 as u32 == c2 as u32,
    ensures
        c1 == c2,
{
    vstd::utf8::char_u32_cast(c1, c1 as u32);
    vstd::utf8::char_u32_cast(c2, c2 as u32);
}

proof fn lemma_digit_char_val(d: nat)
    requires
        d < 10,
    ensures
        is_digit(digit_char(d)),
        digit_val(digit_char(d)) == d,
{
}

proof fn lemma_dec_digits_all_digits(n: nat)
    ensures
        all_digits(dec_digits(n)),
        dec_digits(n).len() >= 1,
    decreases n,
{
    if n < 10 {
        lemma_digit_char_val(n);
    } else {
        lemma_dec_digits_all_digits(n / 10);
        lemma_digit_char_val(n % 10);
        assert(dec_digits(n) == dec_digits(n / 10).push(digit_char(n % 10)));
    }
}

/// Rendering a number and reading the digits back gives the number.
pub proof fn lemma_dec_digits_val(n: nat)
    ensures
        digits_val(dec_digits(n)) == n,
        all_digits(dec_digits(n)),
        dec_digits(n).len() >= 1,
    decreases n,
{
    lemma_dec_digits_all_digits(n);
    if n < 10 {
        lemma_digit_char_val(n);
        let s = dec_digits(n);
        assert(s =~= seq![digit_char(n)]);
        assert(s.drop_last() =~= Seq::<char>::empty());
        assert(digits_val(s.drop_last()) == 0);
        assert(digits_val(s) == digits_val(s.drop_last()) * 10 + digit_val(s.last()));
        assert(s.last() == digit_char(n));
    } else {
        lemma_dec_digits_val(n / 10);
        lemma_digit_char_val(n % 10);
        let s = dec_digits(n / 10).push(digit_char(n % 10));
        assert(s.drop_last() =~= dec_digits(n / 10));
        assert(digits_val(s) == (n / 10) * 10 + n % 10);
        assert((n / 10) * 10 + n % 10 == n) by (nonlinear_arith);
    }
}

/// A digit sequence of length `w` has value below ten to the `w`.
pub proof fn lemma_digits_val_bound(s: Seq<char>)
    requires
        all_digits(s),
    ensures
        digits_val(s) < pow10(s.len()),
    decreases s.len(),
{
    if s.len() == 0 {
    } else {
        let pre = s.drop_last();
        assert(all_digits(pre));
        lemma_digits_val_bound(pre);
        assert(digit_val(s.last()) <= 9);
        assert(digits_val(pre) * 10 + 9 < pow10(pre.len()) * 10) by (nonlinear_arith)
            requires
                digits_val(pre) < pow10(pre.len()),
        ;
    }
}

/// Ten to the power `k`.
pub open spec fn pow10(k: nat) -> nat
    decreases k,
{
    if k == 0 {
        1
    } else {
        10 * pow10((k - 1) as nat)
    }
}

/// A value all of whose digits are zero is zero, digit by digit.
proof fn lemma_digits_val_zero(s: Seq<char>)
    requires
        all_digits(s),
        digits_val(s) == 0,
    ensures
        s =~= zeroes(s.len()),
    decreases s.len(),
{
    if s.len() > 0 {
        let pre = s.drop_last();
        assert(digits_val(pre) * 10 + digit_val(s.last()) == 0);
        assert(digits_val(pre) == 0) by (nonlinear_arith)
            requires
                digits_val(pre) * 10 + digit_val(s.last()) == 0,
        ;
        lemma_digits_val_zero(pre);
        assert(digit_val(s.last()) == 0);
        lemma_char_eq(s.last(), '0');
        assert(s =~= pre.push(s.last()));
    }
}

/// Reading a zero-padded digit sequence and rendering the value back,
/// padded to the original width, restores the sequence exactly.
pub proof fn lemma_pad_roundtrip(s: Seq<char>)
    requires
        all_digits(s),
        s.len() >= 1,
    ensures
        pad_left(dec_digits(digits_val(s)), s.len()) =~= s,
    decreases s.len(),
{
    let n = digits_val(s);
    lemma_dec_digits_val(n);
    lemma_digits_val_bound(s);
    if s.len() == 1 {
        lemma_digit_char_val(digit_val(s[0]));
        assert(s.drop_last() =~= Seq::<char>::empty());
        assert(n == digit_val(s[0]));
        assert(dec_digits(n) =~= seq![digit_char(digit_val(s[0]))]);
        lemma_char_eq(digit_char(digit_val(s[0])), s[0]);
        assert(pad_left(dec_digits(n), 1) =~= s);
    } else {
        let pre = s.drop_last();
        let d = digit_val(s.last());
        assert(all_digits(pre));
        lemma_pad_roundtrip(pre);
        let m = digits_val(pre);
        lemma_dec_digits_val(m);
        assert(n == m * 10 + d);
        if n < 10 {
            // then m == 0 and d == n: the prefix is all zeroes
            assert(m == 0) by (nonlinear_arith)
                requires
                    n == m * 10 + d,
                    n < 10,
                    d < 10,
            ;
            lemma_digits_val_zero(pre);
            assert(d == n);
            lemma_char_eq(digit_char(n), s.last());
            assert(pad_left(dec_digits(n), s.len()) =~= zeroes((s.len() - 1) as nat) + seq![
                s.last(),
            ]);
            assert(pad_left(dec_digits(n), s.len()) =~= s);
        } else {
            assert(n / 10 == m && n % 10 == d) by (nonlinear_arith)
                requires
                    n == m * 10 + d,
                    d < 10,
            ;
            assert(dec_digits(n) =~= dec_digits(m).push(digit_char(d)));
            lemma_char_eq(digit_char(d), s.last());
            lemma_dec_digits_val(m);
            if dec_digits(m).len() >= s.len() - 1 {
                assert(pad_left(dec_digits(n), s.len()) =~= dec_digits(m).push(s.last()));
                assert(pad_left(dec_digits(m), pre.len()) =~= dec_digits(m));
                assert(pad_left(dec_digits(n), s.len()) =~= s);
            } else {
                let k = (s.len() - 1 - dec_digits(m).len()) as nat;
                assert(pad_left(dec_digits(m), pre.len()) =~= zeroes(k) + dec_digits(m));
                assert(pad_left(dec_digits(n), s.len()) =~= zeroes(k) + dec_digits(m).push(
                    s.last(),
                ));
                assert(pad_left(dec_digits(n), s.len()) =~= (zeroes(k) + dec_digits(m)).push(
                    s.last(),
                ));
                assert(pad_left(dec_digits(n), s.len()) =~= pre.push(s.last()));
                assert(pre.push(s.last()) =~= s);
            }
        }
    }
}

} // verus!
