//! Decimal rendering of rationals for display: exact where the expansion
//! terminates or repeats within a digit budget, rounded otherwise.
use crate::natural::{
    decimal, digit_char, digit_to_char, nat_add, nat_div, nat_mul, nat_pow, nat_rem, nat_to_decimal,
    Natural,
};
use crate::rational::{abs, Rational};
use crate::text::{append_chars, append_range, string_from_chars};
use vstd::arithmetic::power::pow;
use vstd::prelude::*;

verus! {

/// Number of fractional digits used by [`FormattedRational::new`].
pub const DEFAULT_MAX_DIGITS: usize = 12;

/// The remainder after `k` steps of long division of `r0 / d` (`r0 < d`).
pub open spec fn rem_at(r0: nat, d: nat, k: nat) -> nat
    decreases k,
{
    if k == 0 {
        r0
    } else {
        (10 * rem_at(r0, d, (k - 1) as nat)) % d
    }
}

/// The `k`-th fractional digit (from zero) of `r0 / d`.
pub open spec fn digit_at(r0: nat, d: nat, k: nat) -> nat {
    (10 * rem_at(r0, d, k)) / d
}

/// The characters of fractional digits `i .. j` of `r0 / d`.
pub open spec fn digits_between(r0: nat, d: nat, i: nat, j: nat) -> Seq<char> {
    Seq::new((j - i) as nat, |t: int| digit_char(digit_at(r0, d, (i + t) as nat)))
}

/// How long division of a fraction ends within a digit budget.
pub enum Expansion {
    /// The remainder reached zero after this many digits.
    Terminating(nat),
    /// After `k` digits the remainder equals the one after `start` digits,
    /// so digits `start .. k` repeat forever.
    Repeating(nat, nat),
    /// Neither happened before the budget ran out.
    Long,
}

/// Long division of `r0 / d`, resumed after `k` digits, with at most `max`
/// digits.
pub open spec fn expansion_from(r0: nat, d: nat, max: nat, k: nat) -> Expansion
    decreases max - k,
{
    if rem_at(r0, d, k) == 0 {
        Expansion::Terminating(k)
    } else if exists|j: nat| j < k && rem_at(r0, d, j) == rem_at(r0, d, k) {
        Expansion::Repeating(choose|j: nat| j < k && rem_at(r0, d, j) == rem_at(r0, d, k), k)
    } else if k >= max {
        Expansion::Long
    } else {
        expansion_from(r0, d, max, k + 1)
    }
}

/// The exact decimal text of `q + r0 / d` for an expansion that ended.
pub open spec fn exact_text(q: nat, r0: nat, d: nat, e: Expansion) -> Seq<char> {
    match e {
        Expansion::Terminating(k) => if k == 0 {
            decimal(q)
        } else {
            decimal(q) + seq!['.'] + digits_between(r0, d, 0, k)
        },
        Expansion::Repeating(start, k) => decimal(q) + seq!['.'] + digits_between(r0, d, 0, start)
            + seq!['('] + digits_between(r0, d, start, k) + seq![')'],
        Expansion::Long => decimal(q),
    }
}

/// `s` left-padded with '0' to at least `width` characters.
pub open spec fn pad_zeros(s: Seq<char>, width: nat) -> Seq<char> {
    if s.len() >= width {
        s
    } else {
        Seq::new((width - s.len()) as nat, |i: int| '0') + s
    }
}

/// `s` without its trailing '0' characters.
pub open spec fn trim_zeros(s: Seq<char>) -> Seq<char>
    decreases s.len(),
{
    if s.len() > 0 && s.last() == '0' {
        trim_zeros(s.drop_last())
    } else {
        s
    }
}

/// `n / d` rounded half up to `m` fractional digits, without trailing zeros
/// and without a decimal point when it rounds to a whole number.
pub open spec fn rounded_text(n: nat, d: nat, m: nat) -> Seq<char> {
    let scale = pow(10, m) as nat;
    let scaled = (n * scale * 2 + d) / (d * 2);
    let fraction = trim_zeros(pad_zeros(decimal(scaled % scale), m));
    if fraction.len() == 0 {
        decimal(scaled / scale)
    } else {
        decimal(scaled / scale) + seq!['.'] + fraction
    }
}

/// The Unicode minus sign where `negative` holds.
pub open spec fn minus_sign(negative: bool) -> Seq<char> {
    if negative {
        seq!['\u{2212}']
    } else {
        Seq::empty()
    }
}

/// The rendering of the fraction `v` with at most `m` fractional digits:
/// whether it is rounded, and its text.
pub open spec fn formatted(v: (int, int), m: nat) -> (bool, Seq<char>) {
    let n = abs(v.0);
    let d = v.1 as nat;
    let e = expansion_from(n % d, d, m, 0);
    match e {
        Expansion::Long => (true, minus_sign(v.0 < 0) + rounded_text(n, d, m)),
        _ => (false, minus_sign(v.0 < 0) + exact_text(n / d, n % d, d, e)),
    }
}

/// A rational rendered for display.
#[derive(Clone, Debug, PartialEq, Eq)]
pub struct FormattedRational {
    /// Whether `text` is a rounded rendering of the true value rather than an exact one.
    pub is_approximate: bool,
    /// The rendered value, using the Unicode minus sign for negatives.
    pub text: String,
}

/// The index of `x` among `seen`, if it is there.
fn find_remainder(seen: &Vec<Natural>, x: &Natural) -> (r: Option<usize>)
    requires
        x.wf(),
        forall|i: int| 0 <= i < seen@.len() ==> (#[trigger] seen@[i]).wf(),
    ensures
        match r {
            Some(i) => i < seen@.len() && seen@[i as int]@ == x@,
            None => forall|i: int| 0 <= i < seen@.len() ==> (#[trigger] seen@[i])@ != x@,
        },
{
    let n = seen.len();
    let mut i: usize = 0;
    while i < n
        invariant
            n == seen@.len(),
            i <= n,
            x.wf(),
            forall|j: int| 0 <= j < seen@.len() ==> (#[trigger] seen@[j]).wf(),
            forall|j: int| 0 <= j < i ==> (#[trigger] seen@[j])@ != x@,
        decreases n - i,
    {
        if seen[i].equals(x) {
            return Some(i);
        }
        i = i + 1;
    }
    None
}

/// Renders `numer / denom` rounded half up to `max_digits` places.
///
/// Trailing zeroes are omitted, and a value that rounds to a whole number renders without
/// a decimal point.  The caller supplies the sign.
fn round_to_digits(numer: &Natural, denom: &Natural, max_digits: usize) -> (r: Vec<char>)
    requires
        numer.wf(),
        denom.wf(),
        denom@ > 0,
    ensures
        r@ == rounded_text(numer@, denom@, max_digits as nat),
{
    let ten = Natural::from_u32(10);
    let two = Natural::from_u32(2);
    let scale = nat_pow(&ten, max_digits);
    let doubled = nat_mul(&nat_mul(numer, &scale), &two);
    let twice_denom = nat_mul(denom, &two);
    proof {
        assert(twice_denom@ > 0) by (nonlinear_arith)
            requires
                twice_denom@ == denom@ * 2,
                denom@ > 0,
        ;
        vstd::arithmetic::power::lemma_pow_positive(10, max_digits as nat);
    }
    let scaled = nat_div(&nat_add(&doubled, denom), &twice_denom);
    let integer_part = nat_div(&scaled, &scale);
    let fraction_part = nat_rem(&scaled, &scale);
    let fraction = nat_to_decimal(&fraction_part);
    let mut padded: Vec<char> = Vec::new();
    if fraction.len() < max_digits {
        let zeros = max_digits - fraction.len();
        let mut i: usize = 0;
        while i < zeros
            invariant
                i <= zeros,
                padded@ == Seq::new(i as nat, |j: int| '0'),
            decreases zeros - i,
        {
            padded.push('0');
            proof {
                assert(padded@ =~= Seq::new((i + 1) as nat, |j: int| '0'));
            }
            i = i + 1;
        }
    }
    append_chars(&mut padded, &fraction);
    proof {
        assert(padded@ =~= pad_zeros(fraction@, max_digits as nat));
    }
    let mut end: usize = padded.len();
    proof {
        assert(padded@.subrange(0, end as int) =~= padded@);
    }
    while end > 0 && padded[end - 1] == '0'
        invariant
            end <= padded@.len(),
            trim_zeros(padded@) == trim_zeros(padded@.subrange(0, end as int)),
        decreases end,
    {
        proof {
            let s = padded@.subrange(0, end as int);
            assert(s.drop_last() =~= padded@.subrange(0, end - 1));
        }
        end = end - 1;
    }
    proof {
        let s = padded@.subrange(0, end as int);
        assert(trim_zeros(s) == s);
    }
    let mut out = nat_to_decimal(&integer_part);
    if end > 0 {
        out.push('.');
        append_range(&mut out, &padded, 0, end);
    }
    out
}

impl FormattedRational {
    /// Formats a rational for display using [`DEFAULT_MAX_DIGITS`] fractional digits.
    ///
    /// See [`FormattedRational::with_max_digits`] for the exact rules.
    pub fn new(value: &Rational) -> (r: Self)
        requires
            value.wf(),
        ensures
            r.is_approximate == formatted(value@, DEFAULT_MAX_DIGITS as nat).0,
            r.text@ == formatted(value@, DEFAULT_MAX_DIGITS as nat).1,
    {
        Self::with_max_digits(value, DEFAULT_MAX_DIGITS)
    }

    /// Formats a rational for display, emitting at most `max_digits` fractional digits.
    ///
    /// Repeating decimals are rendered using parenthesis notation (e.g., `1/3` becomes `0.(3)` and `5/12` becomes
    /// `0.41(6)`). If the decimal expansion is longer than `max_digits`, the result is rounded half away from zero
    /// and `is_approximate` is set to `true`.
    pub fn with_max_digits(value: &Rational, max_digits: usize) -> (r: Self)
        requires
            value.wf(),
        ensures
            r.is_approximate == formatted(value@, max_digits as nat).0,
            r.text@ == formatted(value@, max_digits as nat).1,
    {
        let negative = value.is_negative();
        let mut sign: Vec<char> = Vec::new();
        if negative {
            sign.push('\u{2212}');
        }
        proof {
            assert(sign@ =~= minus_sign(value@.0 < 0));
        }
        let magnitude = value.numer_abs();
        let denom = value.denominator();
        let integer_part = nat_div(&magnitude, &denom);
        let mut remainder = nat_rem(&magnitude, &denom);
        let ten = Natural::from_u32(10);
        let ghost n = magnitude@;
        let ghost d = denom@;
        let ghost r0 = n % d;
        let ghost max = max_digits as nat;
        let mut digits: Vec<char> = Vec::new();
        let mut seen: Vec<Natural> = Vec::new();
        let mut repetend_start: Option<usize> = None;
        proof {
            assert(digits@ =~= digits_between(r0, d, 0, 0));
        }
        loop
            invariant_except_break
                seen@.len() <= max_digits,
                repetend_start is None,
            invariant
                max == max_digits as nat,
                n == magnitude@,
                integer_part.wf(),
                integer_part@ == n / d,
                sign@ == minus_sign(value@.0 < 0),
                magnitude.wf(),
                denom.wf(),
                d == denom@,
                d > 0,
                r0 == n % d,
                ten@ == 10,
                remainder.wf(),
                remainder@ == rem_at(r0, d, seen@.len() as nat),
                forall|i: int| 0 <= i < seen@.len() ==> (#[trigger] seen@[i]).wf(),
                forall|i: int|
                    0 <= i < seen@.len() ==> (#[trigger] seen@[i])@ == rem_at(r0, d, i as nat),
                forall|i: nat, j: nat|
                    i < j < seen@.len() ==> rem_at(r0, d, i) != rem_at(r0, d, j),
                digits@ == digits_between(r0, d, 0, seen@.len() as nat),
                expansion_from(r0, d, max, 0) == expansion_from(r0, d, max, seen@.len() as nat),
                formatted(value@, max) == (match expansion_from(r0, d, max, 0) {
                    Expansion::Long => (true, minus_sign(value@.0 < 0) + rounded_text(n, d, max)),
                    _ => (false, minus_sign(value@.0 < 0) + exact_text(
                        integer_part@,
                        r0,
                        d,
                        expansion_from(r0, d, max, 0),
                    )),
                }),
            ensures
                (remainder@ == 0 && repetend_start is None && expansion_from(r0, d, max, 0)
                    == Expansion::Terminating(seen@.len() as nat)) || (match repetend_start {
                    Some(start) => expansion_from(r0, d, max, 0) == Expansion::Repeating(
                        start as nat,
                        seen@.len() as nat,
                    ) && start < seen@.len(),
                    None => false,
                }),
            decreases max_digits - seen@.len(),
        {
            let ghost k = seen@.len() as nat;
            if remainder.is_zero() {
                break;
            }
            match find_remainder(&seen, &remainder) {
                Some(start) => {
                    proof {
                        let j = choose|j: nat| j < k && rem_at(r0, d, j) == rem_at(r0, d, k);
                        assert(rem_at(r0, d, start as nat) == rem_at(r0, d, k));
                        assert(j == start as nat);
                    }
                    repetend_start = Some(start);
                    break;
                },
                None => {},
            }
            proof {
                assert forall|j: nat| j < k implies rem_at(r0, d, j) != rem_at(r0, d, k) by {
                    assert(seen@[j as int]@ == rem_at(r0, d, j));
                }
            }
            if seen.len() >= max_digits {
                proof {
                    assert(!(exists|j: nat| j < k && rem_at(r0, d, j) == rem_at(r0, d, k)));
                    assert(rem_at(r0, d, k) != 0);
                    assert(k >= max);
                    assert(expansion_from(r0, d, max, k) == Expansion::Long);
                }
                let rounded = round_to_digits(&magnitude, &denom, max_digits);
                let mut text = sign;
                append_chars(&mut text, &rounded);
                return FormattedRational { is_approximate: true, text: string_from_chars(&text) };
            }
            seen.push(remainder.clone());
            let scaled = nat_mul(&remainder, &ten);
            let digit = nat_div(&scaled, &denom);
            remainder = nat_rem(&scaled, &denom);
            proof {
                let r = rem_at(r0, d, k);
                assert(r < d) by {
                    if k > 0 {
                        assert(rem_at(r0, d, k) == (10 * rem_at(r0, d, (k - 1) as nat)) % d);
                    }
                }
                assert(scaled@ / d < 10) by (nonlinear_arith)
                    requires
                        scaled@ == r * 10,
                        r < d,
                ;
                assert(rem_at(r0, d, k + 1) == (10 * rem_at(r0, d, k)) % d);
            }
            let c = digit_to_char(digit.to_u32());
            digits.push(c);
            proof {
                assert(digits@ =~= digits_between(r0, d, 0, k + 1));
            }
        }
        let mut text = sign;
        let whole = nat_to_decimal(&integer_part);
        append_chars(&mut text, &whole);
        match repetend_start {
            None => {
                if digits.len() > 0 {
                    text.push('.');
                    append_chars(&mut text, &digits);
                }
            },
            Some(start) => {
                text.push('.');
                append_range(&mut text, &digits, 0, start);
                text.push('(');
                append_range(&mut text, &digits, start, digits.len());
                text.push(')');
            },
        }
        proof {
            let k = seen@.len() as nat;
            match repetend_start {
                None => {
                    if k > 0 {
                        assert(text@ =~= minus_sign(value@.0 < 0) + (decimal(integer_part@)
                            + seq!['.'] + digits_between(r0, d, 0, k)));
                    } else {
                        assert(text@ =~= minus_sign(value@.0 < 0) + decimal(integer_part@));
                    }
                },
                Some(start) => {
                    assert(digits@.subrange(0, start as int) =~= digits_between(
                        r0,
                        d,
                        0,
                        start as nat,
                    ));
                    assert(digits@.subrange(start as int, k as int) =~= digits_between(
                        r0,
                        d,
                        start as nat,
                        k,
                    ));
                    assert(text@ =~= minus_sign(value@.0 < 0) + (decimal(integer_part@)
                        + seq!['.'] + digits_between(r0, d, 0, start as nat) + seq!['(']
                        + digits_between(r0, d, start as nat, k) + seq![')']));
                },
            }
        }
        FormattedRational { is_approximate: false, text: string_from_chars(&text) }
    }
}

/// A negative value renders as the Unicode minus sign followed by the
/// rendering of its magnitude, so rounding goes half away from zero.
pub proof fn lemma_negative_renders_as_minus_magnitude(n: int, d: int, m: nat)
    requires
        n > 0,
        d > 0,
    ensures
        formatted((-n, d), m).0 == formatted((n, d), m).0,
        formatted((-n, d), m).1 == seq!['\u{2212}'] + formatted((n, d), m).1,
{
    assert(abs(-n) == abs(n));
}

/// The characters a rendering is made of: the Unicode minus sign, ASCII
/// digits, '.', '(' and ')'.
pub open spec fn is_rendering_char(c: char) -> bool {
    c == '\u{2212}' || ('0' <= c && c <= '9') || c == '.' || c == '(' || c == ')'
}

/// Whether every character of `s` is a rendering character.
pub open spec fn all_rendering_chars(s: Seq<char>) -> bool {
    forall|i: int| 0 <= i < s.len() ==> is_rendering_char(#[trigger] s[i])
}

/// Whether every character of `s` is an ASCII digit.
spec fn all_digit_chars(s: Seq<char>) -> bool {
    forall|i: int| 0 <= i < s.len() ==> '0' <= #[trigger] s[i] && s[i] <= '9'
}

proof fn lemma_digit_char_is_digit(d: nat)
    requires
        d < 10,
    ensures
        '0' <= digit_char(d) && digit_char(d) <= '9',
{
}

proof fn lemma_decimal_is_digits(n: nat)
    ensures
        all_digit_chars(decimal(n)),
    decreases n,
{
    if n < 10 {
        lemma_digit_char_is_digit(n);
    } else {
        lemma_decimal_is_digits(n / 10);
        lemma_digit_char_is_digit(n % 10);
        let s = decimal(n);
        assert forall|i: int| 0 <= i < s.len() implies '0' <= #[trigger] s[i] && s[i] <= '9' by {
            if i < decimal(n / 10).len() {
                assert(s[i] == decimal(n / 10)[i]);
            }
        }
    }
}

proof fn lemma_rem_below(r0: nat, d: nat, k: nat)
    requires
        r0 < d,
    ensures
        rem_at(r0, d, k) < d,
    decreases k,
{
    if k > 0 {
        lemma_rem_below(r0, d, (k - 1) as nat);
    }
}

proof fn lemma_digits_between_are_digits(r0: nat, d: nat, i: nat, j: nat)
    requires
        r0 < d,
    ensures
        all_digit_chars(digits_between(r0, d, i, j)),
{
    let s = digits_between(r0, d, i, j);
    assert forall|t: int| 0 <= t < s.len() implies '0' <= #[trigger] s[t] && s[t] <= '9' by {
        let k = (i + t) as nat;
        lemma_rem_below(r0, d, k);
        let r = rem_at(r0, d, k);
        assert((10 * r) / d < 10) by (nonlinear_arith)
            requires
                r < d,
        ;
        lemma_digit_char_is_digit(digit_at(r0, d, k));
    }
}

proof fn lemma_trim_is_prefix(s: Seq<char>)
    ensures
        trim_zeros(s).len() <= s.len(),
        forall|i: int| 0 <= i < trim_zeros(s).len() ==> #[trigger] trim_zeros(s)[i] == s[i],
    decreases s.len(),
{
    if s.len() > 0 && s.last() == '0' {
        lemma_trim_is_prefix(s.drop_last());
    }
}

proof fn lemma_rounded_text_chars(n: nat, d: nat, m: nat)
    requires
        d > 0,
    ensures
        all_rendering_chars(rounded_text(n, d, m)),
{
    let scale = pow(10, m) as nat;
    let scaled = (n * scale * 2 + d) / (d * 2);
    let digits = decimal(scaled % scale);
    let padded = pad_zeros(digits, m);
    lemma_decimal_is_digits(scaled % scale);
    lemma_decimal_is_digits(scaled / scale);
    assert(all_digit_chars(padded)) by {
        if digits.len() < m {
            let zeros = Seq::new((m - digits.len()) as nat, |i: int| '0');
            assert forall|i: int| 0 <= i < padded.len() implies '0' <= #[trigger] padded[i]
                && padded[i] <= '9' by {
                if i < zeros.len() {
                    assert(padded[i] == zeros[i]);
                } else {
                    assert(padded[i] == digits[i - zeros.len()]);
                }
            }
        }
    }
    lemma_trim_is_prefix(padded);
    let fraction = trim_zeros(padded);
    let r = rounded_text(n, d, m);
    let whole = decimal(scaled / scale);
    assert forall|i: int| 0 <= i < r.len() implies is_rendering_char(#[trigger] r[i]) by {
        if i < whole.len() {
            assert(r[i] == whole[i]);
        } else if i > whole.len() {
            assert(r[i] == fraction[i - whole.len() - 1]);
        }
    }
}

proof fn lemma_exact_text_chars(q: nat, r0: nat, d: nat, e: Expansion)
    requires
        r0 < d,
    ensures
        all_rendering_chars(exact_text(q, r0, d, e)),
{
    lemma_decimal_is_digits(q);
    let whole = decimal(q);
    let t = exact_text(q, r0, d, e);
    match e {
        Expansion::Terminating(k) => {
            lemma_digits_between_are_digits(r0, d, 0, k);
            let ds = digits_between(r0, d, 0, k);
            assert forall|i: int| 0 <= i < t.len() implies is_rendering_char(#[trigger] t[i]) by {
                if i < whole.len() {
                    assert(t[i] == whole[i]);
                } else if i > whole.len() {
                    assert(t[i] == ds[i - whole.len() - 1]);
                }
            }
        },
        Expansion::Repeating(start, k) => {
            lemma_digits_between_are_digits(r0, d, 0, start);
            lemma_digits_between_are_digits(r0, d, start, k);
            let a = digits_between(r0, d, 0, start);
            let b = digits_between(r0, d, start, k);
            let p1 = whole.len() + 1;
            let p2 = p1 + a.len() + 1;
            assert forall|i: int| 0 <= i < t.len() implies is_rendering_char(#[trigger] t[i]) by {
                if i < whole.len() {
                    assert(t[i] == whole[i]);
                } else if p1 <= i < p1 + a.len() {
                    assert(t[i] == a[i - p1]);
                } else if p2 <= i < p2 + b.len() {
                    assert(t[i] == b[i - p2]);
                }
            }
        },
        Expansion::Long => {
            assert forall|i: int| 0 <= i < t.len() implies is_rendering_char(#[trigger] t[i]) by {
                assert(t[i] == whole[i]);
            }
        },
    }
}

/// A rendering uses only the Unicode minus sign, ASCII digits, '.', '(' and
/// ')': in particular it never holds an ASCII '-'.
pub proof fn lemma_rendering_chars(v: (int, int), m: nat)
    requires
        v.1 > 0,
    ensures
        all_rendering_chars(formatted(v, m).1),
        !formatted(v, m).1.contains('-'),
{
    let n = abs(v.0);
    let d = v.1 as nat;
    let sign = minus_sign(v.0 < 0);
    let body = match expansion_from(n % d, d, m, 0) {
        Expansion::Long => {
            lemma_rounded_text_chars(n, d, m);
            rounded_text(n, d, m)
        },
        e => {
            lemma_exact_text_chars(n / d, n % d, d, e);
            exact_text(n / d, n % d, d, e)
        },
    };
    let t = formatted(v, m).1;
    assert(t == sign + body);
    assert forall|i: int| 0 <= i < t.len() implies is_rendering_char(#[trigger] t[i]) by {
        if i >= sign.len() {
            assert(t[i] == body[i - sign.len()]);
        }
    }
    if t.contains('-') {
        let i = choose|i: int| 0 <= i < t.len() && t[i] == '-';
        assert(is_rendering_char(t[i]));
    }
}

} // verus!
