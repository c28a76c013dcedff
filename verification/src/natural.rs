//! Arbitrary-precision natural numbers, held as base 2^32 limbs (least
//! significant first).  The arithmetic is done by `num`'s `BigUint`.
use num::BigUint;
use vstd::arithmetic::power::pow;
use vstd::prelude::*;

verus! {

/// The value of a little-endian sequence of base 2^32 limbs.
pub open spec fn limbs_value(s: Seq<u32>) -> nat
    decreases s.len(),
{
    if s.len() == 0 {
        0
    } else {
        s[0] as nat + 4294967296 * limbs_value(s.drop_first())
    }
}

/// A limb sequence is normalized when it has no most-significant zero limb.
pub open spec fn limbs_normalized(s: Seq<u32>) -> bool {
    s.len() == 0 || s.last() != 0
}

/// A normalized, non-empty limb sequence has a positive value.
proof fn lemma_normalized_nonempty_positive(s: Seq<u32>)
    requires
        limbs_normalized(s),
        s.len() > 0,
    ensures
        limbs_value(s) > 0,
    decreases s.len(),
{
    if s.len() > 1 {
        let t = s.drop_first();
        assert(t.last() == s.last());
        lemma_normalized_nonempty_positive(t);
    }
}

/// Two normalized limb sequences with the same value are the same sequence.
proof fn lemma_normalized_unique(a: Seq<u32>, b: Seq<u32>)
    requires
        limbs_normalized(a),
        limbs_normalized(b),
        limbs_value(a) == limbs_value(b),
    ensures
        a == b,
    decreases a.len(),
{
    if a.len() == 0 {
        if b.len() > 0 {
            lemma_normalized_nonempty_positive(b);
        }
        assert(a =~= b);
    } else if b.len() == 0 {
        lemma_normalized_nonempty_positive(a);
    } else {
        let ta = a.drop_first();
        let tb = b.drop_first();
        assert(a[0] == b[0] && limbs_value(ta) == limbs_value(tb));
        if ta.len() > 0 {
            assert(ta.last() == a.last());
        }
        if tb.len() > 0 {
            assert(tb.last() == b.last());
        }
        lemma_normalized_unique(ta, tb);
        assert(a =~= seq![a[0]] + ta);
        assert(b =~= seq![b[0]] + tb);
    }
}

/// A normalized limb sequence of two or more limbs is at least 2^32.
proof fn lemma_long_is_large(s: Seq<u32>)
    requires
        limbs_normalized(s),
        s.len() >= 2,
    ensures
        limbs_value(s) >= 4294967296,
{
    let t = s.drop_first();
    assert(t.last() == s.last());
    lemma_normalized_nonempty_positive(t);
}

/// A natural number of arbitrary size.
#[derive(Debug, PartialEq, Eq)]
pub struct Natural {
    pub(crate) limbs: Vec<u32>,
}

impl View for Natural {
    type V = nat;

    closed spec fn view(&self) -> nat {
        limbs_value(self.limbs@)
    }
}

impl Natural {
    /// The representation invariant: no most-significant zero limb.
    pub closed spec fn wf(&self) -> bool {
        limbs_normalized(self.limbs@)
    }

    /// The natural number `v`.
    pub fn from_u32(v: u32) -> (r: Natural)
        ensures
            r.wf(),
            r@ == v,
    {
        let mut limbs: Vec<u32> = Vec::new();
        if v != 0 {
            limbs.push(v);
        }
        proof {
            if v != 0 {
                assert(limbs@.drop_first() =~= Seq::<u32>::empty());
                assert(limbs_value(Seq::<u32>::empty()) == 0);
            }
        }
        Natural { limbs }
    }

    /// The natural number `v`.
    pub fn from_u64(v: u64) -> (r: Natural)
        ensures
            r.wf(),
            r@ == v,
    {
        let lo: u32 = (v % 4294967296) as u32;
        let hi: u32 = (v / 4294967296) as u32;
        let mut limbs: Vec<u32> = Vec::new();
        if hi != 0 {
            limbs.push(lo);
            limbs.push(hi);
            proof {
                assert(limbs@.drop_first() =~= seq![hi]);
                assert(seq![hi].drop_first() =~= Seq::<u32>::empty());
                assert(limbs_value(Seq::<u32>::empty()) == 0);
                assert(limbs_value(seq![hi]) == hi);
            }
        } else if lo != 0 {
            limbs.push(lo);
            proof {
                assert(limbs@.drop_first() =~= Seq::<u32>::empty());
                assert(limbs_value(Seq::<u32>::empty()) == 0);
            }
        }
        Natural { limbs }
    }

    /// Whether the number is zero.
    pub fn is_zero(&self) -> (b: bool)
        requires
            self.wf(),
        ensures
            b == (self@ == 0),
    {
        proof {
            if self.limbs@.len() > 0 {
                lemma_normalized_nonempty_positive(self.limbs@);
            }
        }
        self.limbs.len() == 0
    }

    /// Whether two numbers are equal.
    pub fn equals(&self, other: &Natural) -> (b: bool)
        requires
            self.wf(),
            other.wf(),
        ensures
            b == (self@ == other@),
    {
        if self.limbs.len() != other.limbs.len() {
            proof {
                if self@ == other@ {
                    lemma_normalized_unique(self.limbs@, other.limbs@);
                }
            }
            return false;
        }
        let n = self.limbs.len();
        let mut i: usize = 0;
        while i < n
            invariant
                n == self.limbs@.len(),
                n == other.limbs@.len(),
                self.wf(),
                other.wf(),
                i <= n,
                forall|j: int| 0 <= j < i ==> self.limbs@[j] == other.limbs@[j],
            decreases n - i,
        {
            if self.limbs[i] != other.limbs[i] {
                proof {
                    if self@ == other@ {
                        lemma_normalized_unique(self.limbs@, other.limbs@);
                    }
                }
                return false;
            }
            i = i + 1;
        }
        proof {
            assert(self.limbs@ =~= other.limbs@);
        }
        true
    }

    /// The value as a `u32`, for a number below 2^32.
    pub fn to_u32(&self) -> (v: u32)
        requires
            self.wf(),
            self@ < 4294967296,
        ensures
            v == self@,
    {
        if self.limbs.len() == 0 {
            0
        } else {
            proof {
                if self.limbs@.len() >= 2 {
                    lemma_long_is_large(self.limbs@);
                }
                assert(self.limbs@.drop_first() =~= Seq::<u32>::empty());
            }
            self.limbs[0]
        }
    }

}

impl Clone for Natural {
    /// A copy of the number.
    fn clone(&self) -> (r: Natural)
        ensures
            r@ == self@,
            r.wf() == self.wf(),
    {
        let limbs = self.limbs.clone();
        proof {
            assert(limbs@ =~= self.limbs@);
        }
        Natural { limbs }
    }
}

/// The character of a decimal digit below ten.
pub open spec fn digit_char(d: nat) -> char {
    (48 + d) as char
}

/// The decimal notation of a natural number, without leading zeros.
pub open spec fn decimal(n: nat) -> Seq<char>
    decreases n,
{
    if n < 10 {
        seq![digit_char(n)]
    } else {
        decimal(n / 10) + seq![digit_char(n % 10)]
    }
}

/// The character of the decimal digit `d`.
pub fn digit_to_char(d: u32) -> (c: char)
    requires
        d < 10,
    ensures
        c == digit_char(d as nat),
{
    let b: u8 = (48 + d) as u8;
    b as char
}

/// Sum, computed by `num`'s `BigUint` addition.
#[verifier::external_body]
pub(crate) fn nat_add(a: &Natural, b: &Natural) -> (r: Natural)
    ensures
        r.wf(),
        r@ == a@ + b@,
{
    Natural { limbs: (BigUint::new(a.limbs.clone()) + BigUint::new(b.limbs.clone())).to_u32_digits() }
}

/// Product, computed by `num`'s `BigUint` multiplication.
#[verifier::external_body]
pub(crate) fn nat_mul(a: &Natural, b: &Natural) -> (r: Natural)
    ensures
        r.wf(),
        r@ == a@ * b@,
{
    Natural { limbs: (BigUint::new(a.limbs.clone()) * BigUint::new(b.limbs.clone())).to_u32_digits() }
}

/// Quotient rounded down, computed by `num`'s `BigUint` division.
#[verifier::external_body]
pub(crate) fn nat_div(a: &Natural, b: &Natural) -> (r: Natural)
    requires
        b@ > 0,
    ensures
        r.wf(),
        r@ == a@ / b@,
{
    Natural { limbs: (BigUint::new(a.limbs.clone()) / BigUint::new(b.limbs.clone())).to_u32_digits() }
}

/// Remainder, computed by `num`'s `BigUint` remainder.
#[verifier::external_body]
pub(crate) fn nat_rem(a: &Natural, b: &Natural) -> (r: Natural)
    requires
        b@ > 0,
    ensures
        r.wf(),
        r@ == a@ % b@,
{
    Natural { limbs: (BigUint::new(a.limbs.clone()) % BigUint::new(b.limbs.clone())).to_u32_digits() }
}

/// Power, computed by `num::pow`.
#[verifier::external_body]
pub(crate) fn nat_pow(base: &Natural, exp: usize) -> (r: Natural)
    ensures
        r.wf(),
        r@ == pow(base@ as int, exp as nat),
{
    Natural { limbs: num::pow(BigUint::new(base.limbs.clone()), exp).to_u32_digits() }
}

/// Decimal notation, computed by `num`'s `Display` for `BigUint`.
#[verifier::external_body]
pub(crate) fn nat_to_decimal(a: &Natural) -> (r: Vec<char>)
    ensures
        r@ == decimal(a@),
{
    BigUint::new(a.limbs.clone()).to_string().chars().collect()
}

} // verus!
