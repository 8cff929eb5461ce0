//! Decimal digit strings and the natural numbers they denote.

use vstd::prelude::*;
use vstd::arithmetic::div_mod::{
    lemma_fundamental_div_mod, lemma_fundamental_div_mod_converse, lemma_mod_pos_bound,
};

verus! {

/// `10^n`.
pub open spec fn pow10(n: nat) -> nat
    decreases n,
{
    if n == 0 {
        1
    } else {
        10 * pow10((n - 1) as nat)
    }
}

/// `c` is one of the ten ASCII digits.
pub open spec fn is_digit(c: char) -> bool {
    '0' <= c <= '9'
}

/// The value of an ASCII digit.
pub open spec fn digit_value(c: char) -> nat {
    (c as int - 48) as nat
}

/// The ASCII digit for a value below ten.
pub open spec fn digit_char(d: nat) -> char {
    if d == 0 {
        '0'
    } else if d == 1 {
        '1'
    } else if d == 2 {
        '2'
    } else if d == 3 {
        '3'
    } else if d == 4 {
        '4'
    } else if d == 5 {
        '5'
    } else if d == 6 {
        '6'
    } else if d == 7 {
        '7'
    } else if d == 8 {
        '8'
    } else {
        '9'
    }
}

/// Every position of `s` holds an ASCII digit.
pub open spec fn all_digits(s: Seq<char>) -> bool {
    forall|i: int| 0 <= i < s.len() ==> is_digit(#[trigger] s[i])
}

/// Every position of `s` holds the digit zero.
pub open spec fn all_zeros(s: Seq<char>) -> bool {
    forall|i: int| 0 <= i < s.len() ==> #[trigger] s[i] == '0'
}

/// A string of `n` zeros.
pub open spec fn zeros(n: nat) -> Seq<char> {
    Seq::new(n, |i: int| '0')
}

/// The number written by the digit string `s`, most significant digit first.
/// The empty string denotes zero.
pub open spec fn number(s: Seq<char>) -> nat
    decreases s.len(),
{
    if s.len() == 0 {
        0
    } else {
        10 * number(s.drop_last()) + digit_value(s.last())
    }
}

/// The decimal digits of `n` without leading zeros; `0` is written `0`.
pub open spec fn nat_digits(n: nat) -> Seq<char>
    decreases n,
{
    if n < 10 {
        seq![digit_char(n)]
    } else {
        nat_digits(n / 10).push(digit_char(n % 10))
    }
}

/// The last `width` decimal digits of `n`, with leading zeros.
pub open spec fn padded_digits(n: nat, width: nat) -> Seq<char>
    decreases width,
{
    if width == 0 {
        Seq::empty()
    } else {
        padded_digits(n / 10, (width - 1) as nat).push(digit_char(n % 10))
    }
}

/// Whether `c` is an ASCII digit.
pub fn is_digit_char(c: char) -> (r: bool)
    ensures
        r == is_digit(c),
{
    '0' <= c && c <= '9'
}

/// The value of the digit `c`.
pub fn digit_of(c: char) -> (d: u8)
    requires
        is_digit(c),
    ensures
        d == digit_value(c),
        d <= 9,
{
    (c as u32 - 48) as u8
}

/// The ASCII digit for `d`.
pub fn char_of(d: u8) -> (c: char)
    requires
        d < 10,
    ensures
        c == digit_char(d as nat),
        is_digit(c),
        digit_value(c) == d,
{
    (d + 48) as char
}

/// A power of ten is at least one.
pub proof fn lemma_pow10_positive(n: nat)
    ensures
        pow10(n) >= 1,
    decreases n,
{
    if n > 0 {
        lemma_pow10_positive((n - 1) as nat);
    }
}

/// Powers of ten multiply by adding their exponents.
pub proof fn lemma_pow10_add(a: nat, b: nat)
    ensures
        pow10(a + b) == pow10(a) * pow10(b),
    decreases b,
{
    if b == 0 {
        assert(pow10(a) * 1 == pow10(a));
    } else {
        lemma_pow10_add(a, (b - 1) as nat);
        assert(a + b - 1 == a + (b - 1));
        let x = pow10(a);
        let y = pow10((b - 1) as nat);
        assert(10 * (x * y) == x * (10 * y)) by (nonlinear_arith);
    }
}

/// A larger exponent gives no smaller power of ten.
pub proof fn lemma_pow10_monotonic(a: nat, b: nat)
    requires
        a <= b,
    ensures
        pow10(a) <= pow10(b),
    decreases b,
{
    if a < b {
        lemma_pow10_monotonic(a, (b - 1) as nat);
    }
}

/// The digit for the value of a digit is that digit.
pub proof fn lemma_digit_char(c: char)
    requires
        is_digit(c),
    ensures
        digit_char(digit_value(c)) == c,
{
}

/// The digit for a value is a digit, and has that value where the value
/// is below ten.
pub proof fn lemma_digit_char_is_digit(d: nat)
    ensures
        is_digit(digit_char(d)),
        d < 10 ==> digit_value(digit_char(d)) == d,
{
}

/// One digit denotes its value.
pub proof fn lemma_number_single(c: char)
    ensures
        number(seq![c]) == digit_value(c),
{
    assert(seq![c].drop_last() =~= Seq::<char>::empty());
    assert(number(seq![c].drop_last()) == 0);
}

/// A digit string of `n` digits denotes a number below `10^n`.
pub proof fn lemma_number_bound(s: Seq<char>)
    requires
        all_digits(s),
    ensures
        number(s) < pow10(s.len()),
    decreases s.len(),
{
    if s.len() > 0 {
        lemma_number_bound(s.drop_last());
        assert(is_digit(s[s.len() - 1]));
    }
}

/// Digits written after a digit string shift its number by their count
/// and add their own.
pub proof fn lemma_number_concat(a: Seq<char>, b: Seq<char>)
    ensures
        number(a + b) == number(a) * pow10(b.len()) + number(b),
    decreases b.len(),
{
    if b.len() == 0 {
        assert(a + b =~= a);
        assert(number(a) * 1 == number(a));
    } else {
        lemma_number_concat(a, b.drop_last());
        assert((a + b).drop_last() =~= a + b.drop_last());
        assert((a + b).last() == b.last());
        let x = number(a);
        let p = pow10((b.len() - 1) as nat);
        assert(10 * (x * p) == x * (10 * p)) by (nonlinear_arith);
    }
}

/// Zeros alone denote zero.
pub proof fn lemma_number_zeros(s: Seq<char>)
    requires
        all_zeros(s),
    ensures
        number(s) == 0,
    decreases s.len(),
{
    if s.len() > 0 {
        lemma_number_zeros(s.drop_last());
        assert(s[s.len() - 1] == '0');
    }
}

/// A digit string denotes zero only if every digit is zero.
pub proof fn lemma_number_zero_iff(s: Seq<char>)
    requires
        all_digits(s),
    ensures
        number(s) == 0 <==> all_zeros(s),
    decreases s.len(),
{
    if s.len() > 0 {
        lemma_number_zero_iff(s.drop_last());
        assert(is_digit(s[s.len() - 1]));
        if all_zeros(s) {
            lemma_number_zeros(s);
        }
        if number(s) == 0 {
            assert forall|i: int| 0 <= i < s.len() implies #[trigger] s[i] == '0' by {
                if i < s.len() - 1 {
                    assert(s.drop_last()[i] == '0');
                }
            }
        }
    }
}

/// A digit string that starts with a non-zero digit is at least `10^(len-1)`.
pub proof fn lemma_number_lower(s: Seq<char>)
    requires
        all_digits(s),
        s.len() > 0,
        s[0] != '0',
    ensures
        number(s) >= pow10((s.len() - 1) as nat),
    decreases s.len(),
{
    assert(is_digit(s[0]));
    if s.len() > 1 {
        assert(s.drop_last()[0] == s[0]);
        lemma_number_lower(s.drop_last());
    }
}

/// Replacing one digit changes the number by the difference of the two
/// digits at that digit's place.
pub proof fn lemma_number_update(s: Seq<char>, i: int, c: char)
    requires
        0 <= i < s.len(),
    ensures
        number(s.update(i, c)) + digit_value(s[i]) * pow10((s.len() - 1 - i) as nat) == number(s)
            + digit_value(c) * pow10((s.len() - 1 - i) as nat),
{
    let a = s.subrange(0, i);
    let b = s.subrange(i + 1, s.len() as int);
    let p = pow10(b.len());
    assert(s =~= a + (seq![s[i]] + b));
    assert(s.update(i, c) =~= a + (seq![c] + b));
    lemma_number_concat(a, seq![s[i]] + b);
    lemma_number_concat(a, seq![c] + b);
    lemma_number_concat(seq![s[i]], b);
    lemma_number_concat(seq![c], b);
    lemma_number_single(s[i]);
    lemma_number_single(c);
}

/// A digit string splits at any place into a quotient and a remainder by
/// the power of ten of that place.
pub proof fn lemma_number_split(s: Seq<char>, at: int)
    requires
        all_digits(s),
        0 <= at <= s.len(),
    ensures
        number(s) / pow10((s.len() - at) as nat) == number(s.subrange(0, at)),
        number(s) % pow10((s.len() - at) as nat) == number(s.subrange(at, s.len() as int)),
{
    let a = s.subrange(0, at);
    let b = s.subrange(at, s.len() as int);
    assert(s =~= a + b);
    lemma_number_concat(a, b);
    lemma_number_bound(b);
    lemma_fundamental_div_mod_converse(
        number(s) as int,
        pow10(b.len()) as int,
        number(a) as int,
        number(b) as int,
    );
}

/// The decimal writing of a number is a non-empty digit string that
/// spells that number.
pub proof fn lemma_nat_digits(n: nat)
    ensures
        all_digits(nat_digits(n)),
        nat_digits(n).len() >= 1,
        number(nat_digits(n)) == n,
    decreases n,
{
    lemma_digit_char_is_digit(n % 10);
    if n < 10 {
        lemma_number_single(digit_char(n));
    } else {
        lemma_nat_digits(n / 10);
        let init = nat_digits(n / 10);
        let s = nat_digits(n);
        assert(s.drop_last() =~= init);
        assert forall|j: int| 0 <= j < s.len() implies is_digit(#[trigger] s[j]) by {
            if j < init.len() {
                assert(s[j] == init[j]);
            }
        }
    }
}

/// A digit string without leading zeros is the decimal writing of its
/// number.
pub proof fn lemma_nat_digits_of(s: Seq<char>)
    requires
        all_digits(s),
        s.len() > 0,
        s[0] != '0',
    ensures
        nat_digits(number(s)) == s,
    decreases s.len(),
{
    let init = s.drop_last();
    let last = s.last();
    assert(is_digit(last));
    lemma_digit_char(last);
    if s.len() == 1 {
        assert(init =~= Seq::<char>::empty());
        assert(number(init) == 0);
        assert(seq![digit_char(number(s))] =~= s);
    } else {
        assert(init[0] == s[0]);
        lemma_nat_digits_of(init);
        lemma_number_lower(init);
        lemma_pow10_positive((init.len() - 1) as nat);
        assert(init.push(last) =~= s);
    }
}

/// A number written at a width is a digit string of that width that
/// spells the number modulo the power of ten of the width.
pub proof fn lemma_padded_digits(n: nat, width: nat)
    ensures
        all_digits(padded_digits(n, width)),
        padded_digits(n, width).len() == width,
        number(padded_digits(n, width)) == n % pow10(width),
    decreases width,
{
    if width > 0 {
        lemma_digit_char_is_digit(n % 10);
        lemma_padded_digits(n / 10, (width - 1) as nat);
        let init = padded_digits(n / 10, (width - 1) as nat);
        let s = padded_digits(n, width);
        let p = pow10((width - 1) as nat);
        assert(s.drop_last() =~= init);
        assert forall|j: int| 0 <= j < s.len() implies is_digit(#[trigger] s[j]) by {
            if j < init.len() {
                assert(s[j] == init[j]);
            }
        }
        lemma_pow10_positive((width - 1) as nat);
        let a = (n / 10) / p;
        let b = (n / 10) % p;
        lemma_fundamental_div_mod((n / 10) as int, p as int);
        lemma_mod_pos_bound((n / 10) as int, p as int);
        assert(n == a * (10 * p) + (10 * b + n % 10)) by (nonlinear_arith)
            requires
                n / 10 == p * a + b,
                n == 10 * (n / 10) + n % 10,
        ;
        lemma_fundamental_div_mod_converse(
            n as int,
            (10 * p) as int,
            a as int,
            (10 * b + n % 10) as int,
        );
    }
}

/// A digit string is its number written at its own width.
pub proof fn lemma_padded_digits_of(s: Seq<char>)
    requires
        all_digits(s),
    ensures
        padded_digits(number(s), s.len()) == s,
    decreases s.len(),
{
    if s.len() == 0 {
        assert(s =~= Seq::<char>::empty());
    } else {
        let init = s.drop_last();
        let last = s.last();
        assert(is_digit(last));
        lemma_digit_char(last);
        lemma_padded_digits_of(init);
        assert(init.push(last) =~= s);
    }
}

} // verus!
