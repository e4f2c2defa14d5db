//! The field that the engine computes in.
//!
//! Every element stands for a residue below the field's modulus; the
//! operations are specified on those residues.

use vstd::prelude::*;

verus! {

/// The sum of two residues.
pub open spec fn add_mod(x: nat, y: nat, m: nat) -> nat {
    (x + y) % m
}

/// The difference of two residues.
pub open spec fn sub_mod(x: nat, y: nat, m: nat) -> nat {
    ((x - y) % (m as int)) as nat
}

/// The product of two residues.
pub open spec fn mul_mod(x: nat, y: nat, m: nat) -> nat {
    (x * y) % m
}

/// The additive inverse of a residue.
pub open spec fn neg_mod(x: nat, m: nat) -> nat {
    ((0 - x) % (m as int)) as nat
}

/// A number between the modulus and its negative is a multiple of the
/// modulus only if it is zero.
pub proof fn lemma_small_multiple(d: int, m: nat)
    requires
        -(m as int) < d < m,
        d % (m as int) == 0,
    ensures
        d == 0,
{
    if d > 0 {
        vstd::arithmetic::div_mod::lemma_small_mod(d as nat, m);
    } else if d < 0 {
        vstd::arithmetic::div_mod::lemma_mod_add_multiples_vanish(d, m as int);
        vstd::arithmetic::div_mod::lemma_small_mod((m + d) as nat, m);
    }
}

/// The difference of two residues below the modulus is zero exactly when
/// they are equal.
pub proof fn lemma_sub_mod_zero(x: nat, y: nat, m: nat)
    requires
        x < m,
        y < m,
    ensures
        sub_mod(x, y, m) == 0 <==> x == y,
{
    if x == y {
        vstd::arithmetic::div_mod::lemma_small_mod(0, m);
    } else {
        vstd::arithmetic::div_mod::lemma_mod_bound(x - y, m as int);
        if sub_mod(x, y, m) == 0 {
            lemma_small_multiple(x - y, m);
        }
    }
}

/// Unequal residues below the modulus have unequal sums with a third.
pub proof fn lemma_add_mod_cancel(x: nat, y: nat, z: nat, m: nat)
    requires
        x < m,
        y < m,
        add_mod(x, z, m) == add_mod(y, z, m),
    ensures
        x == y,
{
    vstd::arithmetic::div_mod::lemma_mod_equivalence((x + z) as int, (y + z) as int, m as int);
    assert((x + z) - (y + z) == x - y);
    lemma_small_multiple(x - y, m);
}

/// An element of a field of residues.
pub trait Field: Copy {
    /// The number of elements of the field.
    spec fn modulus() -> nat;

    /// The residue that the element stands for.
    spec fn value(&self) -> nat;

    /// Every element stands for a residue below the modulus, and the field
    /// has more than one element.
    proof fn lemma_value_in_range(&self)
        ensures
            Self::modulus() > 1,
            self.value() < Self::modulus(),
    ;

    /// The additive identity.
    fn zero() -> (r: Self)
        ensures
            r.value() == 0,
    ;

    /// The multiplicative identity.
    fn one() -> (r: Self)
        ensures
            r.value() == 1,
    ;

    /// The sum of two elements.
    fn add(&self, rhs: &Self) -> (r: Self)
        ensures
            r.value() == add_mod(self.value(), rhs.value(), Self::modulus()),
    ;

    /// The difference of two elements.
    fn sub(&self, rhs: &Self) -> (r: Self)
        ensures
            r.value() == sub_mod(self.value(), rhs.value(), Self::modulus()),
    ;

    /// The product of two elements.
    fn mul(&self, rhs: &Self) -> (r: Self)
        ensures
            r.value() == mul_mod(self.value(), rhs.value(), Self::modulus()),
    ;

    /// The additive inverse of an element.
    fn neg(&self) -> (r: Self)
        ensures
            r.value() == neg_mod(self.value(), Self::modulus()),
    ;

    /// Whether two elements stand for the same residue.
    fn is_equal(&self, rhs: &Self) -> (r: bool)
        ensures
            r == (self.value() == rhs.value()),
    ;
}

} // verus!
