//! The grammar of decimal and scientific notation, and a scanner for it.
//!
//! A numeral is an optional sign, a run of digits with at most one decimal
//! point in or around it, and an optional exponent: `e` or `E`, an optional
//! sign and at least one digit.  At least one digit must stand beside the
//! decimal point.  Nothing else is a numeral: in particular no spelling of
//! infinity or of not-a-number is one.

use vstd::prelude::*;
use crate::digits::{all_digits, digit_of, is_digit, is_digit_char, number};

verus! {

/// What a numeral says: its sign, the digits before and after the decimal
/// point, and the power of ten that scales them.
pub struct Numeral {
    pub negative: bool,
    pub int_digits: Seq<char>,
    pub frac_digits: Seq<char>,
    pub exponent: int,
}

impl Numeral {
    /// All digits of the numeral, the decimal point left out.
    pub open spec fn mantissa(self) -> Seq<char> {
        self.int_digits + self.frac_digits
    }

    /// The digit strings hold digits only.
    pub open spec fn wf(self) -> bool {
        all_digits(self.int_digits) && all_digits(self.frac_digits)
    }
}

/// `c` is a plus or a minus sign.
pub open spec fn is_sign(c: char) -> bool {
    c == '+' || c == '-'
}

/// `c` is the letter that starts an exponent.
pub open spec fn is_exponent_mark(c: char) -> bool {
    c == 'e' || c == 'E'
}

/// The end of the longest run of digits in `s` that starts at `from`.
pub open spec fn digit_run(s: Seq<char>, from: int) -> int
    decreases s.len() - from,
{
    if 0 <= from < s.len() && is_digit(s[from]) {
        digit_run(s, from + 1)
    } else {
        from
    }
}

/// The length of the sign, if any, that stands at `at`.
pub open spec fn sign_len(s: Seq<char>, at: int) -> int {
    if 0 <= at < s.len() && is_sign(s[at]) {
        1
    } else {
        0
    }
}

/// A minus sign stands at `at`.
pub open spec fn minus_at(s: Seq<char>, at: int) -> bool {
    0 <= at < s.len() && s[at] == '-'
}

/// The exponent that `s` holds from `at` to its end, where `at` is the
/// position of the exponent mark; `None` where that part is ill-formed.
pub open spec fn exponent_at(s: Seq<char>, at: int) -> Option<int> {
    let x0 = at + 1 + sign_len(s, at + 1);
    let x1 = digit_run(s, x0);
    if x1 > x0 && x1 == s.len() {
        let magnitude = number(s.subrange(x0, x1)) as int;
        Some(if minus_at(s, at + 1) { -magnitude } else { magnitude })
    } else {
        None
    }
}

/// Reads the whole of `s` as a numeral.
pub open spec fn numeral(s: Seq<char>) -> Option<Numeral> {
    let i0 = sign_len(s, 0);
    let i1 = digit_run(s, i0);
    let f0 = if i1 < s.len() && s[i1] == '.' { i1 + 1 } else { i1 };
    let f1 = digit_run(s, f0);
    if (i1 - i0) + (f1 - f0) == 0 {
        None
    } else if f1 == s.len() {
        Some(Numeral {
            negative: minus_at(s, 0),
            int_digits: s.subrange(i0, i1),
            frac_digits: s.subrange(f0, f1),
            exponent: 0,
        })
    } else if is_exponent_mark(s[f1]) {
        match exponent_at(s, f1) {
            Some(e) => Some(Numeral {
                negative: minus_at(s, 0),
                int_digits: s.subrange(i0, i1),
                frac_digits: s.subrange(f0, f1),
                exponent: e,
            }),
            None => None,
        }
    } else {
        None
    }
}

/// Exponents beyond this magnitude all scale a numeral alike: a non-zero
/// mantissa out of every range that is rendered, or down to zero.
pub const EXPONENT_CAP: u128 = 1_000_000_000_000_000_000_000_000_000_000;

/// `e`, held within the cap on either side.
pub open spec fn clamp_exponent(e: int) -> int {
    if e > EXPONENT_CAP {
        EXPONENT_CAP as int
    } else if e < -EXPONENT_CAP {
        -EXPONENT_CAP
    } else {
        e
    }
}

/// A numeral as the scanner hands it on: the digits in one string, the
/// place of the decimal point in it, and the exponent within the cap.
pub struct Scanned {
    pub negative: bool,
    pub mantissa: Vec<char>,
    pub int_len: usize,
    pub exponent: i128,
}

impl Scanned {
    /// This scan holds what the numeral `n` says.
    pub open spec fn reads(&self, n: Numeral) -> bool {
        &&& self.negative == n.negative
        &&& self.mantissa@ == n.mantissa()
        &&& self.int_len == n.int_digits.len()
        &&& self.exponent == clamp_exponent(n.exponent)
    }
}

/// Where a digit run ends: within the string, after digits only, and before
/// something that is no digit.
pub proof fn lemma_digit_run(s: Seq<char>, from: int)
    requires
        0 <= from <= s.len(),
    ensures
        from <= digit_run(s, from) <= s.len(),
        all_digits(s.subrange(from, digit_run(s, from))),
        digit_run(s, from) < s.len() ==> !is_digit(s[digit_run(s, from)]),
    decreases s.len() - from,
{
    if from < s.len() && is_digit(s[from]) {
        lemma_digit_run(s, from + 1);
        let to = digit_run(s, from);
        assert forall|i: int| 0 <= i < to - from implies is_digit(
            #[trigger] s.subrange(from, to)[i],
        ) by {
            if i > 0 {
                assert(s.subrange(from, to)[i] == s.subrange(from + 1, to)[i - 1]);
            }
        }
    }
}

/// A stretch of digits that is followed by no further digit is a digit run.
pub proof fn lemma_digit_run_is(s: Seq<char>, from: int, to: int)
    requires
        0 <= from <= to <= s.len(),
        forall|i: int| from <= i < to ==> is_digit(#[trigger] s[i]),
        to < s.len() ==> !is_digit(s[to]),
    ensures
        digit_run(s, from) == to,
    decreases to - from,
{
    if from < to {
        lemma_digit_run_is(s, from + 1, to);
    }
}

/// The digit strings of a numeral hold digits only.
pub proof fn lemma_numeral_wf(s: Seq<char>)
    ensures
        numeral(s) matches Some(n) ==> n.wf() && n.mantissa().len() > 0,
{
    let i0 = sign_len(s, 0);
    lemma_digit_run(s, i0);
    let i1 = digit_run(s, i0);
    let f0 = if i1 < s.len() && s[i1] == '.' { i1 + 1 } else { i1 };
    lemma_digit_run(s, f0);
}

/// The end of the run of digits that starts at `from`.
fn scan_digits(t: &Vec<char>, from: usize) -> (to: usize)
    requires
        from <= t.len(),
    ensures
        to == digit_run(t@, from as int),
        from <= to <= t.len(),
{
    let mut to: usize = from;
    while to < t.len() && is_digit_char(t[to])
        invariant
            from <= to <= t.len(),
            digit_run(t@, from as int) == digit_run(t@, to as int),
        decreases t.len() - to,
    {
        to += 1;
    }
    to
}

/// Adds up the digits of `t` from `from` to `to`, stopping to count once
/// the cap is passed.
fn capped_number(t: &Vec<char>, from: usize, to: usize) -> (m: u128)
    requires
        from <= to <= t.len(),
        all_digits(t@.subrange(from as int, to as int)),
    ensures
        m <= EXPONENT_CAP,
        m as int == clamp_exponent(number(t@.subrange(from as int, to as int)) as int),
{
    let mut m: u128 = 0;
    let mut i: usize = from;
    while i < to
        invariant
            from <= i <= to <= t.len(),
            all_digits(t@.subrange(from as int, to as int)),
            m <= EXPONENT_CAP,
            m as int == clamp_exponent(number(t@.subrange(from as int, i as int)) as int),
        decreases to - i,
    {
        proof {
            assert(t@.subrange(from as int, i + 1).drop_last() =~= t@.subrange(
                from as int,
                i as int,
            ));
            assert(t@.subrange(from as int, to as int)[i - from] == t@[i as int]);
        }
        let d = digit_of(t[i]);
        if m < EXPONENT_CAP {
            m = m * 10 + d as u128;
            if m > EXPONENT_CAP {
                m = EXPONENT_CAP;
            }
        }
        i += 1;
    }
    m
}

/// The exponent that `t` holds from the exponent mark at `at` to its end,
/// within the cap; `None` where that part is ill-formed.
fn scan_exponent(t: &Vec<char>, at: usize) -> (r: Option<i128>)
    requires
        at < t.len(),
    ensures
        match exponent_at(t@, at as int) {
            Some(e) => r == Some(clamp_exponent(e) as i128),
            None => r is None,
        },
{
    let mut x0: usize = at + 1;
    let mut minus = false;
    if x0 < t.len() && (t[x0] == '+' || t[x0] == '-') {
        minus = t[x0] == '-';
        x0 += 1;
    }
    let x1 = scan_digits(t, x0);
    proof {
        lemma_digit_run(t@, x0 as int);
    }
    if x1 > x0 && x1 == t.len() {
        let m = capped_number(t, x0, x1);
        if minus {
            Some(-(m as i128))
        } else {
            Some(m as i128)
        }
    } else {
        None
    }
}

/// Reads the whole of `t` as a numeral.
pub fn scan(t: &Vec<char>) -> (r: Option<Scanned>)
    ensures
        match numeral(t@) {
            Some(n) => r matches Some(sc) && sc.reads(n),
            None => r is None,
        },
{
    let mut i0: usize = 0;
    let mut negative = false;
    if t.len() > 0 && (t[0] == '+' || t[0] == '-') {
        negative = t[0] == '-';
        i0 = 1;
    }
    let i1 = scan_digits(t, i0);
    let mut f0: usize = i1;
    if i1 < t.len() && t[i1] == '.' {
        f0 = i1 + 1;
    }
    let f1 = scan_digits(t, f0);
    if (i1 - i0) + (f1 - f0) == 0 {
        return None;
    }
    let exponent: i128 = if f1 == t.len() {
        0
    } else if t[f1] == 'e' || t[f1] == 'E' {
        match scan_exponent(t, f1) {
            Some(e) => e,
            None => {
                return None;
            },
        }
    } else {
        return None;
    };
    let mut mantissa: Vec<char> = Vec::new();
    let mut i: usize = i0;
    while i < i1
        invariant
            i0 <= i <= i1 <= t.len(),
            mantissa@ == t@.subrange(i0 as int, i as int),
        decreases i1 - i,
    {
        mantissa.push(t[i]);
        i += 1;
        assert(mantissa@ =~= t@.subrange(i0 as int, i as int));
    }
    i = f0;
    while i < f1
        invariant
            i0 <= i1 <= f0 <= i <= f1 <= t.len(),
            mantissa@ == t@.subrange(i0 as int, i1 as int) + t@.subrange(f0 as int, i as int),
        decreases f1 - i,
    {
        mantissa.push(t[i]);
        i += 1;
        assert(mantissa@ =~= t@.subrange(i0 as int, i1 as int) + t@.subrange(
            f0 as int,
            i as int,
        ));
    }
    Some(Scanned { negative, mantissa, int_len: i1 - i0, exponent })
}

} // verus!
