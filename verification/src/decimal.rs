//! Decimal notation of rationals as `big_rational_str` reads and writes it:
//! an optional '-', integer digits, and optionally '.' with fractional
//! digits, the repeating ones in parentheses.
use crate::format::{exact_text, expansion_from};
use crate::natural::Natural;
use crate::rational::{abs, canonical, Rational};
use big_rational_str::BigRationalExt;
use num::bigint::Sign;
use num::{BigInt, BigRational};
use vstd::arithmetic::power::pow;
use vstd::prelude::*;

verus! {

/// Whether `c` is one of the ASCII digits '0' to '9'.
pub open spec fn is_ascii_digit(c: char) -> bool {
    '0' <= c && c <= '9'
}

/// Whether every character of `s` is an ASCII digit.
pub open spec fn all_digits(s: Seq<char>) -> bool {
    forall|i: int| 0 <= i < s.len() ==> is_ascii_digit(#[trigger] s[i])
}

/// The number that a string of ASCII digits denotes.
pub open spec fn digits_value(s: Seq<char>) -> nat
    decreases s.len(),
{
    if s.len() == 0 {
        0
    } else {
        digits_value(s.drop_last()) * 10 + (s.last() as nat - 48) as nat
    }
}

/// The length of a leading '-' (0 or 1).
pub open spec fn sign_len(s: Seq<char>) -> int {
    if s.len() > 0 && s[0] == '-' {
        1
    } else {
        0
    }
}

/// Whether `s` is an optional '-' followed by digits, or by digits, one '.'
/// and digits (either run of digits possibly empty): the shapes that a
/// keypad produces.
pub open spec fn is_keypad_text(s: Seq<char>) -> bool {
    let u = s.skip(sign_len(s));
    all_digits(u) || exists|i: int|
        0 <= i < u.len() && u[i] == '.' && all_digits(u.take(i)) && all_digits(u.skip(i + 1))
}

/// The value of keypad-shaped text: `None` where a run of digits that the
/// notation needs is empty (as in "", "-", "5." or ".5").
pub open spec fn keypad_text_value(s: Seq<char>) -> Option<(int, int)> {
    let u = s.skip(sign_len(s));
    let sign: int = if sign_len(s) == 1 {
        -1
    } else {
        1
    };
    if all_digits(u) {
        if u.len() == 0 {
            None
        } else {
            Some(canonical(sign * digits_value(u), 1))
        }
    } else {
        let i = choose|i: int|
            0 <= i < u.len() && u[i] == '.' && all_digits(u.take(i)) && all_digits(u.skip(i + 1));
        let whole = u.take(i);
        let fraction = u.skip(i + 1);
        let scale = pow(10, fraction.len());
        if whole.len() == 0 || fraction.len() == 0 {
            None
        } else {
            Some(canonical(sign * (digits_value(whole) * scale + digits_value(fraction)), scale))
        }
    }
}

/// The rational that `big_rational_str` parses from `s`, if it parses.
pub uninterp spec fn dec_str_value(s: Seq<char>) -> Option<(int, int)>;

/// The view of an optional rational.
pub open spec fn option_view(r: Option<Rational>) -> Option<(int, int)> {
    match r {
        Some(x) => Some(x@),
        None => None,
    }
}

/// Parses decimal notation with `big_rational_str`'s
/// `BigRationalExt::from_dec_str`.  Its results are in lowest terms (it builds
/// them with `num`'s reducing constructors and operators).  Of its result on
/// keypad-shaped text the contract states the value; of other text (fractions
/// with '/', repeating parts, other characters) it says only that the result
/// is a function of the text.
#[verifier::external_body]
pub(crate) fn parse_dec_str(s: &str) -> (r: Option<Rational>)
    ensures
        r matches Some(x) ==> x.wf(),
        option_view(r) == dec_str_value(s@),
        is_keypad_text(s@) ==> option_view(r) == keypad_text_value(s@),
{
    match BigRational::from_dec_str(s) {
        Ok(z) => {
            let (sign, n) = z.numer().to_u32_digits();
            Some(Rational {
                negative: sign == Sign::Minus,
                numer: Natural { limbs: n },
                denom: Natural { limbs: z.denom().to_u32_digits().1 },
            })
        },
        Err(_) => None,
    }
}

/// The text that `big_rational_str` writes for the fraction `v`: ASCII '-'
/// for negatives, the integer part, and the complete fractional expansion
/// with the repeating part in parentheses.
pub open spec fn dec_string(v: (int, int)) -> Seq<char> {
    let n = abs(v.0);
    let d = v.1 as nat;
    (if v.0 < 0 {
        seq!['-']
    } else {
        Seq::empty()
    }) + exact_text(n / d, n % d, d, expansion_from(n % d, d, d, 0))
}

/// Writes a rational in decimal notation with `big_rational_str`'s
/// `BigRationalExt::to_dec_string`, which runs long division until the
/// remainder is zero or repeats (by `d` digits at the latest, for
/// denominator `d`).
#[verifier::external_body]
pub(crate) fn to_dec_string(value: &Rational) -> (r: String)
    requires
        value.wf(),
    ensures
        r@ == dec_string(value@),
{
    let x = BigRational::new_raw(
        BigInt::new(if value.negative { Sign::Minus } else { Sign::Plus }, value.numer.limbs.clone()),
        BigInt::new(Sign::Plus, value.denom.limbs.clone()),
    );
    x.to_dec_string()
}


/// The value of keypad-shaped text, zero where it has none.
pub open spec fn keypad_value_or_zero(s: Seq<char>) -> (int, int) {
    match keypad_text_value(s) {
        Some(v) => v,
        None => (0, 1),
    }
}

/// Appending an ASCII digit to keypad-shaped text keeps its shape.
pub proof fn lemma_keypad_push_digit(s: Seq<char>, c: char)
    requires
        is_keypad_text(s),
        is_ascii_digit(c),
    ensures
        is_keypad_text(s.push(c)),
{
    let t = s.push(c);
    let k = sign_len(s);
    assert(sign_len(t) == k);
    let u = s.skip(k);
    let ut = t.skip(k);
    assert(ut =~= u.push(c));
    if all_digits(u) {
        assert(all_digits(ut));
    } else {
        let i = choose|i: int|
            0 <= i < u.len() && u[i] == '.' && all_digits(u.take(i)) && all_digits(u.skip(i + 1));
        assert(ut.take(i) =~= u.take(i));
        assert(ut.skip(i + 1) =~= u.skip(i + 1).push(c));
        assert(ut[i] == '.');
        assert(all_digits(ut.skip(i + 1)));
    }
}

/// Appending '.' to keypad-shaped text without one (after "0" for empty
/// text) keeps its shape.
pub proof fn lemma_keypad_push_dot(s: Seq<char>)
    requires
        is_keypad_text(s),
        !s.contains('.'),
    ensures
        is_keypad_text(
            (if s.len() == 0 {
                seq!['0']
            } else {
                s
            }).push('.'),
        ),
{
    let s0 = if s.len() == 0 {
        seq!['0']
    } else {
        s
    };
    let k = sign_len(s0);
    assert(k == sign_len(s));
    let u = s0.skip(k);
    if !all_digits(u) {
        let i = choose|i: int|
            0 <= i < u.len() && u[i] == '.' && all_digits(u.take(i)) && all_digits(u.skip(i + 1));
        assert(s.len() > 0);
        assert(s[i + k] == '.');
        assert(s.contains('.'));
    }
    let t = s0.push('.');
    assert(sign_len(t) == k);
    let ut = t.skip(k);
    assert(ut =~= u.push('.'));
    let i = u.len() as int;
    assert(ut.take(i) =~= u);
    assert(ut.skip(i + 1) =~= Seq::<char>::empty());
    assert(ut[i] == '.');
    assert(all_digits(ut.skip(i + 1)));
}

/// Removing a leading '-' from keypad-shaped text keeps its shape.
pub proof fn lemma_keypad_strip_minus(s: Seq<char>)
    requires
        is_keypad_text(s),
        s.len() > 0,
        s[0] == '-',
    ensures
        is_keypad_text(s.skip(1)),
        s.len() > 1 ==> s[1] != '-',
{
    let u = s.skip(1);
    if u.len() > 0 {
        if !all_digits(u) {
            let i = choose|i: int|
                0 <= i < u.len() && u[i] == '.' && all_digits(u.take(i)) && all_digits(u.skip(
                    i + 1,
                ));
            if i > 0 {
                assert(u.take(i)[0] == u[0]);
            }
        }
        assert(u[0] != '-');
    }
    assert(u.skip(0) =~= u);
}

/// Prefixing '-' to keypad-shaped text without one keeps its shape.
pub proof fn lemma_keypad_add_minus(s: Seq<char>)
    requires
        is_keypad_text(s),
        !(s.len() > 0 && s[0] == '-'),
    ensures
        is_keypad_text(seq!['-'] + s),
{
    let t = seq!['-'] + s;
    assert(t[0] == '-');
    assert(t.skip(1) =~= s);
    assert(s.skip(0) =~= s);
}

/// Deleting the last character of keypad-shaped text keeps its shape.
pub proof fn lemma_keypad_drop_last(s: Seq<char>)
    requires
        is_keypad_text(s),
        s.len() > 0,
    ensures
        is_keypad_text(s.drop_last()),
{
    let k = sign_len(s);
    let t = s.drop_last();
    if s.len() == k {
        assert(t =~= Seq::<char>::empty());
        assert(t.skip(0) =~= t);
    } else {
        assert(sign_len(t) == k);
        let u = s.skip(k);
        let ut = t.skip(k);
        assert(ut =~= u.drop_last());
        if all_digits(u) {
            assert(all_digits(ut));
        } else {
            let i = choose|i: int|
                0 <= i < u.len() && u[i] == '.' && all_digits(u.take(i)) && all_digits(u.skip(
                    i + 1,
                ));
            if i == u.len() - 1 {
                assert(ut =~= u.take(i));
            } else {
                assert(ut.take(i) =~= u.take(i));
                assert(ut.skip(i + 1) =~= u.skip(i + 1).drop_last());
                assert(ut[i] == '.');
                assert(all_digits(ut.skip(i + 1)));
            }
        }
    }
}

} // verus!
