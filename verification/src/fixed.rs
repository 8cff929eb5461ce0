//! Fixed-point rendering of numerals.
//!
//! A numeral is scaled to a whole number of units of `10^-precision`,
//! rounding half to even on its exact decimal value, and written out with
//! exactly `precision` digits after the decimal point.  The sign of the
//! numeral is kept, also where the magnitude rounds to zero.

use vstd::prelude::*;
use vstd::arithmetic::div_mod::{
    lemma_fundamental_div_mod, lemma_fundamental_div_mod_converse, lemma_mod_pos_bound,
};
use crate::digits::{
    all_digits, all_zeros, char_of, digit_of, digit_value, is_digit, lemma_nat_digits_of,
    lemma_number_bound, lemma_number_concat, lemma_number_lower, lemma_number_single,
    lemma_number_split, lemma_number_update, lemma_number_zero_iff, lemma_number_zeros,
    lemma_padded_digits_of, lemma_pow10_add, lemma_pow10_monotonic, lemma_pow10_positive,
    nat_digits, number, padded_digits, pow10, zeros,
};
use crate::numeral::{Numeral, Scanned};

verus! {

/// `m / d`, rounded to the nearest whole number, a tie going to the even
/// neighbour.
pub open spec fn round_half_even(m: nat, d: nat) -> nat
    recommends
        d > 0,
{
    let q = m / d;
    let r = m % d;
    if 2 * r < d || (2 * r == d && q % 2 == 0) {
        q
    } else {
        q + 1
    }
}

/// The power of ten by which the mantissa of `n` is multiplied to count
/// units of `10^-precision`.
pub open spec fn shift(n: Numeral, precision: nat) -> int {
    n.exponent - n.frac_digits.len() + precision
}

/// The magnitude of `n` in units of `10^-precision`, rounded half to even.
pub open spec fn scaled(n: Numeral, precision: nat) -> nat {
    let m = number(n.mantissa());
    let k = shift(n, precision);
    if k >= 0 {
        m * pow10(k as nat)
    } else {
        round_half_even(m, pow10((-k) as nat))
    }
}

/// The most digits that the whole part of a rendered number may have: as
/// many as the largest finite double-precision number has.
pub const MAX_WHOLE_DIGITS: usize = 309;

/// `q` units of `10^-precision` have a whole part of at most
/// `MAX_WHOLE_DIGITS` digits.
pub open spec fn in_range(q: nat, precision: nat) -> bool {
    q < pow10(MAX_WHOLE_DIGITS as nat + precision)
}

/// The text for `q` units of `10^-precision`: a minus sign where
/// `negative`, the whole part, and, unless `precision` is zero, a decimal
/// point and exactly `precision` digits.
pub open spec fn render(negative: bool, q: nat, precision: nat) -> Seq<char> {
    let sign = if negative { seq!['-'] } else { Seq::<char>::empty() };
    let whole = nat_digits(q / pow10(precision));
    if precision == 0 {
        sign + whole
    } else {
        sign + whole + seq!['.'] + padded_digits(q % pow10(precision), precision)
    }
}

/// Whether the digits of `s` from `at` on round the digits before `at` up,
/// a tie going to the even neighbour.
pub open spec fn rounds_up(s: Seq<char>, at: int) -> bool {
    let first = s[at];
    let rest = s.subrange(at + 1, s.len() as int);
    first > '5' || (first == '5' && (!all_zeros(rest) || number(s.subrange(0, at)) % 2 == 1))
}

/// The digits of `k` that stand for whole units when the last `precision`
/// digits count fractions.
pub open spec fn whole_part(k: Seq<char>, precision: nat) -> Seq<char> {
    if k.len() > precision {
        k.subrange(0, k.len() - precision)
    } else {
        Seq::empty()
    }
}

/// The last `precision` digits of `k`, with zeros in front where `k` is
/// shorter.
pub open spec fn frac_part(k: Seq<char>, precision: nat) -> Seq<char> {
    if k.len() > precision {
        k.subrange(k.len() - precision, k.len() as int)
    } else {
        zeros((precision - k.len()) as nat) + k
    }
}

/// Rounding half to even moves a quotient by at most half a unit.
pub proof fn lemma_round_half_even_near(m: nat, d: nat)
    requires
        d > 0,
    ensures
        2 * (round_half_even(m, d) * d - m) <= d,
        2 * (m - round_half_even(m, d) * d) <= d,
{
    let q = m / d;
    let r = m % d;
    lemma_fundamental_div_mod(m as int, d as int);
    lemma_mod_pos_bound(m as int, d as int);
    assert(d * q == q * d) by (nonlinear_arith);
    assert((q + 1) * d == q * d + d) by (nonlinear_arith);
}

/// A number below a divisor and below half of it rounds to zero.
proof fn lemma_round_small(m: nat, d: nat)
    requires
        2 * m < d,
    ensures
        round_half_even(m, d) == 0,
{
    lemma_fundamental_div_mod_converse(m as int, d as int, 0, m as int);
}

/// Rounding a digit string at a place is decided by the first digit that
/// is cut off, by whether anything but zeros follows it, and by the
/// parity of what is kept.
pub proof fn lemma_round_digits(s: Seq<char>, at: int)
    requires
        all_digits(s),
        0 <= at < s.len(),
    ensures
        round_half_even(number(s), pow10((s.len() - at) as nat)) == number(s.subrange(0, at)) + (
        if rounds_up(s, at) {
            1nat
        } else {
            0nat
        }),
{
    let kept = s.subrange(0, at);
    let cut = s.subrange(at, s.len() as int);
    let rest = s.subrange(at + 1, s.len() as int);
    let d = pow10((s.len() - at) as nat);
    let p = pow10(rest.len());
    lemma_number_split(s, at);
    assert(cut =~= seq![s[at]] + rest);
    lemma_number_concat(seq![s[at]], rest);
    lemma_number_single(s[at]);
    assert(all_digits(rest)) by {
        assert forall|i: int| 0 <= i < rest.len() implies is_digit(#[trigger] rest[i]) by {
            assert(rest[i] == s[at + 1 + i]);
        }
    }
    lemma_number_bound(rest);
    lemma_number_zero_iff(rest);
    lemma_pow10_positive(rest.len());
    assert(is_digit(s[at]));
    let f = digit_value(s[at]);
    let tl = number(rest);
    let r = number(cut);
    assert(r == f * p + tl);
    assert(d == 10 * p);
    if f <= 4 {
        assert(f * p <= 4 * p) by (nonlinear_arith)
            requires
                f <= 4,
                p >= 0,
        ;
    } else if f == 5 {
        assert(f * p == 5 * p);
    } else {
        assert(f * p >= 6 * p) by (nonlinear_arith)
            requires
                f >= 6,
                p >= 0,
        ;
    }
}

pub proof fn lemma_parts(k: Seq<char>, precision: nat)
    requires
        all_digits(k),
    ensures
        all_digits(whole_part(k, precision)),
        all_digits(frac_part(k, precision)),
        frac_part(k, precision).len() == precision,
        number(k) / pow10(precision) == number(whole_part(k, precision)),
        number(k) % pow10(precision) == number(frac_part(k, precision)),
{
    let whole = whole_part(k, precision);
    let frac = frac_part(k, precision);
    if k.len() > precision {
        lemma_number_split(k, k.len() - precision);
        assert forall|j: int| 0 <= j < whole.len() implies is_digit(#[trigger] whole[j]) by {
            assert(whole[j] == k[j]);
        }
        assert forall|j: int| 0 <= j < frac.len() implies is_digit(#[trigger] frac[j]) by {
            assert(frac[j] == k[k.len() - precision + j]);
        }
    } else {
        let pad = zeros((precision - k.len()) as nat);
        lemma_number_concat(pad, k);
        lemma_number_zeros(pad);
        lemma_number_bound(k);
        lemma_pow10_monotonic(k.len(), precision);
        assert(number(pad) * pow10(k.len()) == 0) by (nonlinear_arith)
            requires
                number(pad) == 0,
        ;
        lemma_fundamental_div_mod_converse(
            number(k) as int,
            pow10(precision) as int,
            0,
            number(k) as int,
        );
        assert(number(whole) == 0);
        assert forall|j: int| 0 <= j < frac.len() implies is_digit(#[trigger] frac[j]) by {
            if j >= pad.len() {
                assert(frac[j] == k[j - pad.len()]);
            }
        }
    }
}

/// Zeros in front of a digit string do not change its number, and what
/// follows them is the decimal writing of that number and tells its size.
pub proof fn lemma_whole_digits(a: Seq<char>, start: int, bound: nat)
    requires
        all_digits(a),
        0 <= start <= a.len(),
        forall|j: int| 0 <= j < start ==> a[j] == '0',
        start < a.len() ==> a[start] != '0',
    ensures
        nat_digits(number(a)) == (if start == a.len() {
            seq!['0']
        } else {
            a.subrange(start, a.len() as int)
        }),
        number(a) < pow10(bound) <==> a.len() - start <= bound,
{
    let lead = a.subrange(0, start);
    let rest = a.subrange(start, a.len() as int);
    assert(a =~= lead + rest);
    lemma_number_concat(lead, rest);
    lemma_number_zeros(lead);
    assert(number(lead) * pow10(rest.len()) == 0) by (nonlinear_arith)
        requires
            number(lead) == 0,
    ;
    lemma_pow10_positive(bound);
    if start < a.len() {
        assert forall|j: int| 0 <= j < rest.len() implies is_digit(#[trigger] rest[j]) by {
            assert(rest[j] == a[start + j]);
        }
        lemma_nat_digits_of(rest);
        lemma_number_bound(rest);
        lemma_number_lower(rest);
        if rest.len() <= bound {
            lemma_pow10_monotonic(rest.len(), bound);
        } else {
            lemma_pow10_monotonic(bound, (rest.len() - 1) as nat);
        }
    } else {
        assert(rest =~= Seq::<char>::empty());
    }
}

/// A magnitude is in range exactly when its whole part has few enough
/// digits.
pub proof fn lemma_in_range_whole(q: nat, precision: nat)
    ensures
        in_range(q, precision) <==> q / pow10(precision) < pow10(MAX_WHOLE_DIGITS as nat),
{
    let p = pow10(precision);
    let x = pow10(MAX_WHOLE_DIGITS as nat);
    lemma_pow10_positive(precision);
    lemma_pow10_add(MAX_WHOLE_DIGITS as nat, precision);
    let a = q / p;
    let b = q % p;
    assert(q == a * p + b && 0 <= b < p) by {
        lemma_fundamental_div_mod(q as int, p as int);
        lemma_mod_pos_bound(q as int, p as int);
        assert(p * a == a * p) by (nonlinear_arith);
    }
    if a < x {
        assert(a * p + b < x * p) by (nonlinear_arith)
            requires
                a + 1 <= x,
                0 <= b < p,
        ;
    } else {
        assert(a * p + b >= x * p) by (nonlinear_arith)
            requires
                a >= x,
                0 <= b,
                p >= 0,
        ;
    }
}

/// Whether `k` holds nothing but zeros from `from` on.
fn zeros_from(k: &Vec<char>, from: usize) -> (r: bool)
    requires
        from <= k.len(),
    ensures
        r == all_zeros(k@.subrange(from as int, k.len() as int)),
{
    let mut i: usize = from;
    while i < k.len()
        invariant
            from <= i <= k.len(),
            forall|j: int| from <= j < i ==> k@[j] == '0',
        decreases k.len() - i,
    {
        if k[i] != '0' {
            assert(k@.subrange(from as int, k.len() as int)[i - from] == k@[i as int]);
            return false;
        }
        i += 1;
    }
    true
}

/// The first `count` characters of `k`.
fn prefix(k: &Vec<char>, count: usize) -> (r: Vec<char>)
    requires
        count <= k.len(),
    ensures
        r@ == k@.subrange(0, count as int),
{
    let mut r: Vec<char> = Vec::new();
    let mut i: usize = 0;
    while i < count
        invariant
            i <= count <= k.len(),
            r@ == k@.subrange(0, i as int),
        decreases count - i,
    {
        r.push(k[i]);
        i += 1;
        assert(r@ =~= k@.subrange(0, i as int));
    }
    r
}

/// The digit string for the number one above that of `k`.
fn increment(k: Vec<char>) -> (r: Vec<char>)
    requires
        all_digits(k@),
    ensures
        all_digits(r@),
        number(r@) == number(k@) + 1,
{
    let ghost start = k@;
    let mut v = k;
    let mut i: usize = v.len();
    let mut carry = true;
    proof {
        assert(pow10(0) == 1);
    }
    while i > 0 && carry
        invariant
            i <= v.len(),
            v.len() == start.len(),
            all_digits(v@),
            number(v@) + (if carry {
                pow10((v.len() - i) as nat)
            } else {
                0
            }) == number(start) + 1,
        decreases i,
    {
        i -= 1;
        let c = v[i];
        let ghost before = v@;
        let ghost p = pow10((v.len() - 1 - i) as nat);
        proof {
            assert(is_digit(before[i as int]));
            assert(pow10((v.len() - i) as nat) == 10 * p);
        }
        if c == '9' {
            v.set(i, '0');
            proof {
                lemma_number_update(before, i as int, '0');
                let nine = digit_value('9');
                let zero = digit_value('0');
                assert(nine * p == 9 * p && zero * p == 0) by (nonlinear_arith)
                    requires
                        nine == 9,
                        zero == 0,
                ;
            }
        } else {
            let d = digit_of(c);
            let up = char_of(d + 1);
            v.set(i, up);
            carry = false;
            proof {
                lemma_number_update(before, i as int, up);
                assert(digit_value(up) * p == digit_value(c) * p + p) by (nonlinear_arith)
                    requires
                        digit_value(up) == digit_value(c) + 1,
                ;
            }
        }
        assert(all_digits(v@)) by {
            assert forall|j: int| 0 <= j < v@.len() implies is_digit(#[trigger] v@[j]) by {
                if j != i {
                    assert(v@[j] == before[j]);
                    assert(is_digit(before[j]));
                }
            }
        }
    }
    if carry {
        let ghost body = v@;
        v.insert(0, '1');
        proof {
            assert(v@ =~= seq!['1'] + body);
            lemma_number_concat(seq!['1'], body);
            lemma_number_single('1');
            assert(1 * pow10(body.len()) == pow10(body.len()));
            assert forall|j: int| 0 <= j < v@.len() implies is_digit(#[trigger] v@[j]) by {
                if j > 0 {
                    assert(v@[j] == body[j - 1]);
                    assert(is_digit(body[j - 1]));
                }
            }
        }
    }
    v
}

/// The digits of the magnitude of `n` in units of `10^-precision`, or
/// `None` where that magnitude is out of range.  The digits may start with
/// zeros, and no digits at all stand for zero.
pub(crate) fn scaled_digits(sc: &Scanned, precision: usize, Ghost(n): Ghost<Numeral>) -> (r: Option<
    Vec<char>,
>)
    requires
        sc.reads(n),
        n.wf(),
    ensures
        match r {
            Some(k) => all_digits(k@) && number(k@) == scaled(n, precision as nat),
            None => !in_range(scaled(n, precision as nat), precision as nat),
        },
{
    let len = sc.mantissa.len();
    let frac_len = len - sc.int_len;
    let k: i128 = sc.exponent - (frac_len as i128) + (precision as i128);
    let limit: i128 = MAX_WHOLE_DIGITS as i128 + precision as i128;
    let ghost m = number(sc.mantissa@);
    let ghost true_shift = shift(n, precision as nat);
    proof {
        assert(all_digits(sc.mantissa@)) by {
            assert forall|j: int| 0 <= j < sc.mantissa@.len() implies is_digit(
                #[trigger] sc.mantissa@[j],
            ) by {
                if j < n.int_digits.len() {
                    assert(sc.mantissa@[j] == n.int_digits[j]);
                } else {
                    assert(sc.mantissa@[j] == n.frac_digits[j - n.int_digits.len()]);
                }
            }
        }
        lemma_number_bound(sc.mantissa@);
        lemma_number_zero_iff(sc.mantissa@);
        assert(sc.mantissa@.subrange(0, len as int) =~= sc.mantissa@);
    }
    if k >= 0 {
        if k > limit {
            if zeros_from(&sc.mantissa, 0) {
                proof {
                    assert(m * pow10(true_shift as nat) == 0) by (nonlinear_arith)
                        requires
                            m == 0,
                    ;
                }
                return Some(Vec::new());
            } else {
                proof {
                    let p = pow10(true_shift as nat);
                    lemma_pow10_monotonic(limit as nat, true_shift as nat);
                    assert(m * p >= p) by (nonlinear_arith)
                        requires
                            m >= 1,
                            p >= 0,
                    ;
                }
                return None;
            }
        }
        let mut out = prefix(&sc.mantissa, len);
        let mut i: i128 = 0;
        while i < k
            invariant
                0 <= i <= k,
                out@ == sc.mantissa@ + zeros(i as nat),
            decreases k - i,
        {
            out.push('0');
            i += 1;
            assert(out@ =~= sc.mantissa@ + zeros(i as nat));
        }
        proof {
            lemma_number_concat(sc.mantissa@, zeros(k as nat));
            lemma_number_zeros(zeros(k as nat));
            assert forall|j: int| 0 <= j < out@.len() implies is_digit(#[trigger] out@[j]) by {
                if j < len {
                    assert(out@[j] == sc.mantissa@[j]);
                }
            }
        }
        Some(out)
    } else {
        let t: i128 = len as i128 + k;
        if t < 0 {
            proof {
                let d = pow10((-true_shift) as nat);
                lemma_pow10_monotonic((len + 1) as nat, (-true_shift) as nat);
                assert(pow10((len + 1) as nat) == 10 * pow10(len as nat));
                lemma_round_small(m, d);
            }
            return Some(Vec::new());
        }
        let at: usize = t as usize;
        let kept = prefix(&sc.mantissa, at);
        let first = sc.mantissa[at];
        let tie_up = !zeros_from(&sc.mantissa, at + 1) || (at > 0 && digit_of(
            sc.mantissa[at - 1],
        ) % 2 == 1);
        let up = first > '5' || (first == '5' && tie_up);
        proof {
            lemma_round_digits(sc.mantissa@, at as int);
            if at > 0 {
                assert(kept@.last() == sc.mantissa@[at - 1]);
            }
            assert forall|j: int| 0 <= j < kept@.len() implies is_digit(#[trigger] kept@[j]) by {
                assert(kept@[j] == sc.mantissa@[j]);
            }
        }
        if up {
            Some(increment(kept))
        } else {
            Some(kept)
        }
    }
}

/// The text for the magnitude that the digits `k` spell, or `None` where
/// it is out of range.
pub(crate) fn render_digits(negative: bool, k: &Vec<char>, precision: usize) -> (r: Option<String>)
    requires
        all_digits(k@),
    ensures
        match r {
            Some(s) => in_range(number(k@), precision as nat) && s@ == render(
                negative,
                number(k@),
                precision as nat,
            ),
            None => !in_range(number(k@), precision as nat),
        },
{
    let len = k.len();
    let split: usize = if len > precision { len - precision } else { 0 };
    let pad: usize = if len > precision { 0 } else { precision - len };
    let ghost whole = whole_part(k@, precision as nat);
    let ghost frac = frac_part(k@, precision as nat);
    let mut start: usize = 0;
    while start < split && k[start] == '0'
        invariant
            start <= split <= len,
            len == k.len(),
            forall|j: int| 0 <= j < start ==> k@[j] == '0',
        decreases split - start,
    {
        start += 1;
    }
    proof {
        lemma_parts(k@, precision as nat);
        lemma_in_range_whole(number(k@), precision as nat);
        assert(whole =~= k@.subrange(0, split as int));
        lemma_whole_digits(whole, start as int, MAX_WHOLE_DIGITS as nat);
        lemma_padded_digits_of(frac);
    }
    if split - start > MAX_WHOLE_DIGITS {
        return None;
    }
    let mut out: Vec<char> = Vec::new();
    if negative {
        out.push('-');
    }
    let ghost sign = out@;
    if start == split {
        out.push('0');
    } else {
        let mut i: usize = start;
        while i < split
            invariant
                start <= i <= split <= k.len(),
                out@ == sign + k@.subrange(start as int, i as int),
            decreases split - i,
        {
            out.push(k[i]);
            i += 1;
            assert(out@ =~= sign + k@.subrange(start as int, i as int));
        }
        assert(k@.subrange(start as int, split as int) =~= whole.subrange(
            start as int,
            whole.len() as int,
        ));
    }
    assert(out@ =~= sign + nat_digits(number(k@) / pow10(precision as nat)));
    if precision > 0 {
        out.push('.');
        let ghost head = out@;
        let mut z: usize = 0;
        while z < pad
            invariant
                z <= pad,
                out@ == head + zeros(z as nat),
            decreases pad - z,
        {
            out.push('0');
            z += 1;
            assert(out@ =~= head + zeros(z as nat));
        }
        let mut i: usize = split;
        while i < len
            invariant
                split <= i <= len,
                len == k.len(),
                out@ == head + zeros(pad as nat) + k@.subrange(split as int, i as int),
            decreases len - i,
        {
            out.push(k[i]);
            i += 1;
            assert(out@ =~= head + zeros(pad as nat) + k@.subrange(split as int, i as int));
        }
        assert(zeros(pad as nat) + k@.subrange(split as int, len as int) =~= frac);
        assert(out@ =~= head + frac);
    }
    Some(crate::text::text_of(&out))
}

} // verus!
