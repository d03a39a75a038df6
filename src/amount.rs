//! Unbounded non-negative amounts of the channel currency.

use candid::Nat;
use num_bigint::BigUint;
use std::cmp::Ordering;
use vstd::prelude::*;

verus! {

/// The number whose little-endian base-256 digits are `s`.
pub open spec fn le_value(s: Seq<u8>) -> nat
    decreases s.len(),
{
    if s.len() == 0 {
        0
    } else {
        s[0] as nat + 256 * le_value(s.drop_first())
    }
}

/// `s` is the shortest little-endian form of its value: at least one digit,
/// and no trailing zero digit unless the value is zero itself.
pub open spec fn is_minimal_le(s: Seq<u8>) -> bool {
    &&& s.len() >= 1
    &&& (s.len() == 1 || s.last() != 0u8)
}

/// Sum of a sequence of naturals.
pub open spec fn sum_nats(s: Seq<nat>) -> nat
    decreases s.len(),
{
    if s.len() == 0 {
        0
    } else {
        sum_nats(s.drop_last()) + s.last()
    }
}

/// A trailing zero digit does not change the value.
pub proof fn lemma_le_value_trailing_zero(s: Seq<u8>)
    ensures
        le_value(s.push(0u8)) == le_value(s),
    decreases s.len(),
{
    let t = s.push(0u8);
    assert(le_value(t) == t[0] as nat + 256 * le_value(t.drop_first()));
    if s.len() == 0 {
        assert(t.drop_first() =~= Seq::<u8>::empty());
        assert(le_value(Seq::<u8>::empty()) == 0);
    } else {
        assert(t.drop_first() =~= s.drop_first().push(0u8));
        assert(t[0] == s[0]);
        lemma_le_value_trailing_zero(s.drop_first());
    }
}

/// An amount of the channel currency, of any size.
#[derive(Debug)]
pub struct Amount {
    bytes: Vec<u8>,
}

impl View for Amount {
    type V = nat;

    closed spec fn view(&self) -> nat {
        le_value(self.bytes@)
    }
}

/// Relies on candid's `Nat` addition (a `num_bigint::BigUint` sum) and on
/// `BigUint::to_bytes_le`, which returns the minimal little-endian digits.
#[verifier::external_body]
fn nat_add(a: &Vec<u8>, b: &Vec<u8>) -> (r: Vec<u8>)
    ensures
        le_value(r@) == le_value(a@) + le_value(b@),
        is_minimal_le(r@),
{
    let x = Nat(BigUint::from_bytes_le(a));
    let y = Nat(BigUint::from_bytes_le(b));
    (x + y).0.to_bytes_le()
}

/// Relies on the ordering of candid's `Nat`, which is the numeric ordering
/// of the wrapped `num_bigint::BigUint`.
#[verifier::external_body]
fn nat_cmp(a: &Vec<u8>, b: &Vec<u8>) -> (r: Ordering)
    ensures
        (r is Less) == (le_value(a@) < le_value(b@)),
        (r is Equal) == (le_value(a@) == le_value(b@)),
        (r is Greater) == (le_value(a@) > le_value(b@)),
{
    Nat(BigUint::from_bytes_le(a)).cmp(&Nat(BigUint::from_bytes_le(b)))
}

/// Relies on candid's `From<u64> for Nat` and on `BigUint::to_bytes_le`.
#[verifier::external_body]
fn nat_from_u64(x: u64) -> (r: Vec<u8>)
    ensures
        le_value(r@) == x,
        is_minimal_le(r@),
{
    Nat::from(x).0.to_bytes_le()
}

impl Amount {
    #[verifier::type_invariant]
    closed spec fn minimal(self) -> bool {
        is_minimal_le(self.bytes@)
    }

    /// The minimal little-endian digits of the amount.
    pub closed spec fn le_bytes(self) -> Seq<u8> {
        self.bytes@
    }

    /// The amount zero.
    pub fn zero() -> (r: Amount)
        ensures
            r@ == 0,
    {
        let r = Amount { bytes: vec![0u8] };
        assert(r.bytes@.drop_first() =~= Seq::<u8>::empty());
        assert(le_value(r.bytes@.drop_first()) == 0);
        r
    }

    /// The amount `x`.
    pub fn from_u64(x: u64) -> (r: Amount)
        ensures
            r@ == x as nat,
    {
        Amount { bytes: nat_from_u64(x) }
    }

    /// The amount whose little-endian digits are `digits`; trailing zero
    /// digits are dropped.
    pub fn from_le_bytes(digits: Vec<u8>) -> (r: Amount)
        ensures
            r@ == le_value(digits@),
    {
        let mut bytes = digits;
        if bytes.len() == 0 {
            bytes.push(0u8);
            assert(bytes@.drop_first() =~= Seq::<u8>::empty());
            assert(le_value(Seq::<u8>::empty()) == 0);
            assert(le_value(bytes@) == bytes@[0] as nat + 256 * le_value(bytes@.drop_first()));
            assert(digits@ =~= Seq::<u8>::empty());
        }
        while bytes.len() > 1 && bytes[bytes.len() - 1] == 0
            invariant
                bytes@.len() >= 1,
                le_value(bytes@) == le_value(digits@),
            decreases bytes@.len(),
        {
            let ghost before = bytes@;
            bytes.pop();
            proof {
                lemma_le_value_trailing_zero(bytes@);
                assert(before =~= bytes@.push(0u8));
            }
        }
        Amount { bytes }
    }

    /// The sum of two amounts.
    pub fn add(&self, other: &Amount) -> (r: Amount)
        ensures
            r@ == self@ + other@,
    {
        Amount { bytes: nat_add(&self.bytes, &other.bytes) }
    }

    /// Whether this amount is strictly smaller than `other`.
    pub fn less_than(&self, other: &Amount) -> (r: bool)
        ensures
            r == (self@ < other@),
    {
        match nat_cmp(&self.bytes, &other.bytes) {
            Ordering::Less => true,
            _ => false,
        }
    }

    /// Whether two amounts are equal.
    pub fn equals(&self, other: &Amount) -> (r: bool)
        ensures
            r == (self@ == other@),
    {
        match nat_cmp(&self.bytes, &other.bytes) {
            Ordering::Equal => true,
            _ => false,
        }
    }

    /// The minimal little-endian digits of the amount.
    pub fn to_le_bytes(&self) -> (r: &Vec<u8>)
        ensures
            r@ == self.le_bytes(),
            is_minimal_le(r@),
            self@ == le_value(r@),
    {
        proof {
            use_type_invariant(self);
        }
        &self.bytes
    }
}

impl Clone for Amount {
    fn clone(&self) -> (r: Amount)
        ensures
            r@ == self@,
            r.le_bytes() == self.le_bytes(),
    {
        proof {
            use_type_invariant(self);
        }
        Amount { bytes: self.bytes.clone() }
    }
}

impl PartialEq for Amount {
    fn eq(&self, other: &Amount) -> (r: bool) {
        self.equals(other)
    }
}

impl vstd::std_specs::cmp::PartialEqSpecImpl for Amount {
    open spec fn obeys_eq_spec() -> bool {
        true
    }

    open spec fn eq_spec(&self, other: &Amount) -> bool {
        self@ == other@
    }
}

impl Eq for Amount {

}

impl Default for Amount {
    fn default() -> (r: Amount)
        ensures
            r@ == 0,
    {
        Amount::zero()
    }
}

} // verus!
