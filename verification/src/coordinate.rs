//! The coordinate formatter: numeric text is rewritten at a fixed number
//! of decimal places, any other text is handed back as it is.

use vstd::prelude::*;
use vstd::arithmetic::div_mod::{lemma_fundamental_div_mod, lemma_mod_twice};
use crate::digits::{
    all_digits, is_digit, lemma_nat_digits, lemma_number_concat, lemma_padded_digits,
    lemma_pow10_positive, nat_digits, number, padded_digits, pow10,
};
use crate::fixed::{
    in_range, lemma_round_half_even_near, render, render_digits, scaled, scaled_digits, shift,
};
use crate::numeral::{
    digit_run, lemma_digit_run_is, lemma_numeral_wf, minus_at, numeral, scan, sign_len, Numeral,
};
use crate::text::{chars_of, is_space, lemma_trim_identity, trim, trimmed};

verus! {

/// The number of digits that a formatted coordinate has after its decimal
/// point.
pub const COORDINATE_PRECISION: usize = 8;

/// What `s` says as a number, where it says one that can be rendered at
/// `precision` decimal places: white space around it set aside, it is a
/// numeral whose rounded magnitude is in range.
pub open spec fn numeric_value(s: Seq<char>, precision: nat) -> Option<Numeral> {
    match numeral(trim(s)) {
        Some(n) => if in_range(scaled(n, precision), precision) {
            Some(n)
        } else {
            None
        },
        None => None,
    }
}

/// `s` rewritten at `precision` decimal places where it is numeric, and
/// `s` itself where it is not.
pub open spec fn fixed_point(s: Seq<char>, precision: nat) -> Seq<char> {
    match numeric_value(s, precision) {
        Some(n) => render(n.negative, scaled(n, precision), precision),
        None => s,
    }
}

/// Rewrites numeric text with exactly `precision` digits after the decimal
/// point, rounding half to even; returns any other text unchanged.
pub fn format_fixed(value_str: &str, precision: usize) -> (r: String)
    ensures
        r@ == fixed_point(value_str@, precision as nat),
        numeric_value(value_str@, precision as nat) is None ==> r@ == value_str@,
{
    let chars = chars_of(value_str);
    let t = trimmed(&chars);
    proof {
        lemma_numeral_wf(t@);
    }
    match scan(&t) {
        None => value_str.to_owned(),
        Some(sc) => {
            let ghost n = numeral(t@)->0;
            match scaled_digits(&sc, precision, Ghost(n)) {
                None => value_str.to_owned(),
                Some(k) => match render_digits(sc.negative, &k, precision) {
                    Some(s) => s,
                    None => value_str.to_owned(),
                },
            }
        },
    }
}

/// Rewrites a coordinate field with exactly eight digits after the decimal
/// point; a field that holds no number is returned unchanged.
pub fn format_coordinate(value_str: &str) -> (r: String)
    ensures
        r@ == fixed_point(value_str@, COORDINATE_PRECISION as nat),
        numeric_value(value_str@, COORDINATE_PRECISION as nat) is None ==> r@ == value_str@,
{
    format_fixed(value_str, COORDINATE_PRECISION)
}

/// A rendered number reads as the numeral that it was rendered from: the
/// same sign, the whole part and the fraction digits as written, and no
/// exponent.  It has no white space at its ends.
pub proof fn lemma_numeral_of_render(negative: bool, q: nat, precision: nat)
    ensures
        trim(render(negative, q, precision)) == render(negative, q, precision),
        numeral(render(negative, q, precision)) matches Some(m) && m.negative == negative
            && m.int_digits == nat_digits(q / pow10(precision)) && m.frac_digits == padded_digits(
            q % pow10(precision),
            precision,
        ) && m.exponent == 0,
{
    let out = render(negative, q, precision);
    let whole = nat_digits(q / pow10(precision));
    let frac = padded_digits(q % pow10(precision), precision);
    let sl: int = if negative { 1 } else { 0 };
    let w = whole.len() as int;
    lemma_nat_digits(q / pow10(precision));
    lemma_padded_digits(q % pow10(precision), precision);
    assert(negative ==> out[0] == '-');
    assert forall|j: int| sl <= j < sl + w implies is_digit(#[trigger] out[j]) by {
        assert(out[j] == whole[j - sl]);
        assert(is_digit(whole[j - sl]));
    }
    assert(is_digit(out[sl]));
    assert(sign_len(out, 0) == sl);
    assert(minus_at(out, 0) == negative);
    if precision > 0 {
        assert(out[sl + w] == '.');
        assert(out.len() == sl + w + 1 + precision);
        assert forall|j: int| sl + w + 1 <= j < out.len() implies is_digit(#[trigger] out[j]) by {
            assert(out[j] == frac[j - sl - w - 1]);
            assert(is_digit(frac[j - sl - w - 1]));
        }
        lemma_digit_run_is(out, sl, sl + w);
        lemma_digit_run_is(out, sl + w + 1, out.len() as int);
        assert(out.subrange(sl, sl + w) =~= whole);
        assert(out.subrange(sl + w + 1, out.len() as int) =~= frac);
    } else {
        assert(out.len() == sl + w);
        lemma_digit_run_is(out, sl, sl + w);
        assert(digit_run(out, out.len() as int) == out.len());
        assert(out.subrange(sl, sl + w) =~= whole);
        assert(out.subrange(sl + w, out.len() as int) =~= frac);
    }
    assert(is_digit(out[out.len() - 1]));
    assert(!is_space(out[0]) && !is_space(out[out.len() - 1]));
    lemma_trim_identity(out);
}

/// The magnitude that a rendered number spells, in units of
/// `10^-precision`, is the magnitude that was rendered.
pub proof fn lemma_scaled_of_render(negative: bool, q: nat, precision: nat)
    ensures
        numeral(render(negative, q, precision)) matches Some(m) && scaled(m, precision) == q,
{
    lemma_numeral_of_render(negative, q, precision);
    let m = numeral(render(negative, q, precision))->0;
    let p = pow10(precision);
    lemma_nat_digits(q / p);
    lemma_padded_digits(q % p, precision);
    lemma_number_concat(m.int_digits, m.frac_digits);
    lemma_pow10_positive(precision);
    lemma_fundamental_div_mod(q as int, p as int);
    lemma_mod_twice(q as int, p as int);
    assert((q / p) * p == p * (q / p)) by (nonlinear_arith);
    assert(shift(m, precision) == 0);
    assert(pow10(0) == 1);
    assert(number(m.mantissa()) * 1 == number(m.mantissa()));
}

/// What is formatted from numeric text is itself a numeral, with the sign
/// of the text, no exponent and exactly `precision` digits after the
/// decimal point, and its value differs from the value of the text by at
/// most half a unit of `10^-precision`: by nothing where the text has no
/// digits beyond that place.
pub proof fn law_formatted_value(s: Seq<char>, precision: nat)
    requires
        numeric_value(s, precision) is Some,
    ensures
        ({
            let n = numeric_value(s, precision)->0;
            let k = shift(n, precision);
            let q = scaled(n, precision);
            &&& numeral(fixed_point(s, precision)) matches Some(m) && m.negative == n.negative
                && m.exponent == 0 && m.frac_digits.len() == precision && all_digits(m.int_digits)
                && all_digits(m.frac_digits) && number(m.mantissa()) == q
            &&& k >= 0 ==> q == number(n.mantissa()) * pow10(k as nat)
            &&& k < 0 ==> 2 * (q * pow10((-k) as nat) - number(n.mantissa())) <= pow10((-k) as nat)
                && 2 * (number(n.mantissa()) - q * pow10((-k) as nat)) <= pow10((-k) as nat)
        }),
{
    let n = numeric_value(s, precision)->0;
    let k = shift(n, precision);
    let q = scaled(n, precision);
    lemma_numeral_of_render(n.negative, q, precision);
    lemma_scaled_of_render(n.negative, q, precision);
    let m = numeral(render(n.negative, q, precision))->0;
    lemma_nat_digits(q / pow10(precision));
    lemma_padded_digits(q % pow10(precision), precision);
    assert(pow10(0) == 1);
    assert(number(m.mantissa()) * 1 == number(m.mantissa()));
    if k < 0 {
        lemma_pow10_positive((-k) as nat);
        lemma_round_half_even_near(number(n.mantissa()), pow10((-k) as nat));
    }
}

/// Text that is not numeric is formatted to itself.
pub proof fn law_other_text_unchanged(s: Seq<char>, precision: nat)
    requires
        numeric_value(s, precision) is None,
    ensures
        fixed_point(s, precision) == s,
{
}

/// Formatting what was formatted changes nothing more.
pub proof fn law_format_idempotent(s: Seq<char>, precision: nat)
    ensures
        fixed_point(fixed_point(s, precision), precision) == fixed_point(s, precision),
{
    if numeric_value(s, precision) is Some {
        let n = numeric_value(s, precision)->0;
        let q = scaled(n, precision);
        lemma_numeral_of_render(n.negative, q, precision);
        lemma_scaled_of_render(n.negative, q, precision);
    }
}

} // verus!
