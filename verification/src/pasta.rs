//! The base field of the Pallas curve.
//!
//! The arithmetic is that of `halo2_proofs::pasta::Fp`, the type `Fp` of
//! pasta_curves. An element is held as its canonical 32 bytes, and what the
//! functions of `Fp` return for such bytes is taken on trust: it is stated
//! here, but not proved.

use vstd::prelude::*;
use crate::field::{add_mod, mul_mod, neg_mod, sub_mod, Field};
use halo2_proofs::pasta::group::ff::PrimeField;

verus! {

/// The order of the field:
/// `0x40000000000000000000000000000000224698fc094cf91b992d30ed00000001`.
pub open spec fn pasta_modulus() -> nat {
    0x4000_0000_0000_0000_0000_0000_0000_0000nat * 0x1_0000_0000_0000_0000nat
        * 0x1_0000_0000_0000_0000nat + 0x2246_98fc_094c_f91b_992d_30ed_0000_0001nat
}

/// The number that a sequence of bytes spells, least significant byte first.
pub open spec fn le_value(bytes: Seq<u8>) -> nat
    decreases bytes.len(),
{
    if bytes.len() == 0 {
        0
    } else {
        bytes[0] as nat + 256 * le_value(bytes.skip(1))
    }
}

/// Whether 32 bytes spell a residue below the modulus.
pub open spec fn is_canonical(bytes: Seq<u8>) -> bool {
    bytes.len() == 32 && le_value(bytes) < pasta_modulus()
}

/// Two byte sequences of one length that spell the same number are equal.
pub proof fn lemma_le_value_injective(a: Seq<u8>, b: Seq<u8>)
    requires
        a.len() == b.len(),
        le_value(a) == le_value(b),
    ensures
        a == b,
    decreases a.len(),
{
    if a.len() > 0 {
        let ra = le_value(a.skip(1));
        let rb = le_value(b.skip(1));
        assert(a[0] as nat + 256 * ra == b[0] as nat + 256 * rb);
        assert(a[0] == b[0]);
        assert(ra == rb);
        lemma_le_value_injective(a.skip(1), b.skip(1));
        assert forall|i: int| 0 <= i < a.len() implies a[i] == b[i] by {
            if i > 0 {
                assert(a[i] == a.skip(1)[i - 1]);
                assert(b[i] == b.skip(1)[i - 1]);
            }
        }
    }
    assert(a =~= b);
}

/// `Fp::from_repr`, `Fp::add` and `Fp::to_repr` of pasta_curves: the sum of
/// two field elements, each given and returned as its canonical 32 bytes.
#[verifier::external_body]
fn repr_add(a: &[u8; 32], b: &[u8; 32]) -> (r: [u8; 32])
    requires
        is_canonical(a@),
        is_canonical(b@),
    ensures
        le_value(r@) == add_mod(le_value(a@), le_value(b@), pasta_modulus()),
{
    let x = halo2_proofs::pasta::Fp::from_repr(*a).unwrap();
    let y = halo2_proofs::pasta::Fp::from_repr(*b).unwrap();
    x.add(&y).to_repr()
}

/// `Fp::from_repr`, `Fp::sub` and `Fp::to_repr` of pasta_curves: the
/// difference of two field elements, each given and returned as its canonical
/// 32 bytes.
#[verifier::external_body]
fn repr_sub(a: &[u8; 32], b: &[u8; 32]) -> (r: [u8; 32])
    requires
        is_canonical(a@),
        is_canonical(b@),
    ensures
        le_value(r@) == sub_mod(le_value(a@), le_value(b@), pasta_modulus()),
{
    let x = halo2_proofs::pasta::Fp::from_repr(*a).unwrap();
    let y = halo2_proofs::pasta::Fp::from_repr(*b).unwrap();
    x.sub(&y).to_repr()
}

/// `Fp::from_repr`, `Fp::mul` and `Fp::to_repr` of pasta_curves: the product
/// of two field elements, each given and returned as its canonical 32 bytes.
#[verifier::external_body]
fn repr_mul(a: &[u8; 32], b: &[u8; 32]) -> (r: [u8; 32])
    requires
        is_canonical(a@),
        is_canonical(b@),
    ensures
        le_value(r@) == mul_mod(le_value(a@), le_value(b@), pasta_modulus()),
{
    let x = halo2_proofs::pasta::Fp::from_repr(*a).unwrap();
    let y = halo2_proofs::pasta::Fp::from_repr(*b).unwrap();
    x.mul(&y).to_repr()
}

/// `Fp::from_repr`, `Fp::neg` and `Fp::to_repr` of pasta_curves: the additive
/// inverse of a field element, given and returned as its canonical 32 bytes.
#[verifier::external_body]
fn repr_neg(a: &[u8; 32]) -> (r: [u8; 32])
    requires
        is_canonical(a@),
    ensures
        le_value(r@) == neg_mod(le_value(a@), pasta_modulus()),
{
    let x = halo2_proofs::pasta::Fp::from_repr(*a).unwrap();
    x.neg().to_repr()
}

/// `Fp::from(u64)` and `Fp::to_repr` of pasta_curves: the canonical 32 bytes
/// of the field element that a 64-bit number stands for, which spell that
/// number.
#[verifier::external_body]
fn repr_from_u64(v: u64) -> (r: [u8; 32])
    ensures
        le_value(r@) == v,
{
    halo2_proofs::pasta::Fp::from(v).to_repr()
}

/// `Fp::from_repr` of pasta_curves accepts 32 bytes exactly when they spell a
/// number below the modulus.
#[verifier::external_body]
fn repr_is_canonical(bytes: &[u8; 32]) -> (r: bool)
    ensures
        r == is_canonical(bytes@),
{
    halo2_proofs::pasta::Fp::from_repr(*bytes).is_some().into()
}

/// The modulus is above every 64-bit number.
pub proof fn lemma_modulus_large()
    ensures
        pasta_modulus() > 0xffff_ffff_ffff_ffff,
{
    assert(0x4000_0000_0000_0000_0000_0000_0000_0000nat * 0x1_0000_0000_0000_0000nat
        * 0x1_0000_0000_0000_0000nat > 0) by (nonlinear_arith);
}

/// An element of the Pallas base field, held as its canonical bytes.
#[derive(Clone, Copy, Debug, PartialEq, Eq)]
pub struct PastaFp {
    repr: [u8; 32],
}

impl PastaFp {
    #[verifier::type_invariant]
    spec fn canonical(self) -> bool {
        is_canonical(self.repr@)
    }

    /// The bytes that the element is held as.
    pub closed spec fn repr_spec(self) -> Seq<u8> {
        self.repr@
    }

    /// The element that a 64-bit number stands for.
    pub fn from_u64(v: u64) -> (r: Self)
        ensures
            r.value() == v,
    {
        let repr = repr_from_u64(v);
        proof {
            lemma_modulus_large();
            vstd::arithmetic::div_mod::lemma_small_mod(v as nat, pasta_modulus());
        }
        PastaFp { repr }
    }

    /// The element that 32 bytes spell, least significant byte first; `None`
    /// where they spell a number that is not below the modulus.
    pub fn from_repr(bytes: [u8; 32]) -> (r: Option<Self>)
        ensures
            r is Some <==> le_value(bytes@) < pasta_modulus(),
            r matches Some(x) ==> x.repr_spec() == bytes@ && x.value() == le_value(bytes@),
    {
        if repr_is_canonical(&bytes) {
            proof {
                vstd::arithmetic::div_mod::lemma_small_mod(le_value(bytes@), pasta_modulus());
            }
            Some(PastaFp { repr: bytes })
        } else {
            None
        }
    }

    /// The canonical bytes of the element, least significant byte first.
    pub fn to_repr(&self) -> (r: [u8; 32])
        ensures
            r@ == self.repr_spec(),
            le_value(r@) == self.value(),
    {
        proof {
            use_type_invariant(self);
            vstd::arithmetic::div_mod::lemma_small_mod(le_value(self.repr@), pasta_modulus());
        }
        self.repr
    }
}

impl Field for PastaFp {
    open spec fn modulus() -> nat {
        pasta_modulus()
    }

    closed spec fn value(&self) -> nat {
        le_value(self.repr@) % pasta_modulus()
    }

    proof fn lemma_value_in_range(&self) {
        lemma_modulus_large();
        vstd::arithmetic::div_mod::lemma_mod_bound(
            le_value(self.repr@) as int,
            pasta_modulus() as int,
        );
    }

    fn zero() -> (r: Self) {
        PastaFp::from_u64(0)
    }

    fn one() -> (r: Self) {
        PastaFp::from_u64(1)
    }

    fn add(&self, rhs: &Self) -> (r: Self) {
        proof {
            use_type_invariant(self);
            use_type_invariant(rhs);
            lemma_modulus_large();
            vstd::arithmetic::div_mod::lemma_small_mod(le_value(self.repr@), pasta_modulus());
            vstd::arithmetic::div_mod::lemma_small_mod(le_value(rhs.repr@), pasta_modulus());
        }
        let repr = repr_add(&self.repr, &rhs.repr);
        proof {
            vstd::arithmetic::div_mod::lemma_mod_bound(
                (le_value(self.repr@) + le_value(rhs.repr@)) as int,
                pasta_modulus() as int,
            );
            vstd::arithmetic::div_mod::lemma_small_mod(le_value(repr@), pasta_modulus());
        }
        PastaFp { repr }
    }

    fn sub(&self, rhs: &Self) -> (r: Self) {
        proof {
            use_type_invariant(self);
            use_type_invariant(rhs);
            lemma_modulus_large();
            vstd::arithmetic::div_mod::lemma_small_mod(le_value(self.repr@), pasta_modulus());
            vstd::arithmetic::div_mod::lemma_small_mod(le_value(rhs.repr@), pasta_modulus());
        }
        let repr = repr_sub(&self.repr, &rhs.repr);
        proof {
            vstd::arithmetic::div_mod::lemma_mod_bound(
                le_value(self.repr@) - le_value(rhs.repr@),
                pasta_modulus() as int,
            );
            vstd::arithmetic::div_mod::lemma_small_mod(le_value(repr@), pasta_modulus());
        }
        PastaFp { repr }
    }

    fn mul(&self, rhs: &Self) -> (r: Self) {
        proof {
            use_type_invariant(self);
            use_type_invariant(rhs);
            lemma_modulus_large();
            vstd::arithmetic::div_mod::lemma_small_mod(le_value(self.repr@), pasta_modulus());
            vstd::arithmetic::div_mod::lemma_small_mod(le_value(rhs.repr@), pasta_modulus());
        }
        let repr = repr_mul(&self.repr, &rhs.repr);
        proof {
            vstd::arithmetic::div_mod::lemma_mod_bound(
                (le_value(self.repr@) * le_value(rhs.repr@)) as int,
                pasta_modulus() as int,
            );
            vstd::arithmetic::div_mod::lemma_small_mod(le_value(repr@), pasta_modulus());
        }
        PastaFp { repr }
    }

    fn neg(&self) -> (r: Self) {
        proof {
            use_type_invariant(self);
            lemma_modulus_large();
            vstd::arithmetic::div_mod::lemma_small_mod(le_value(self.repr@), pasta_modulus());
        }
        let repr = repr_neg(&self.repr);
        proof {
            vstd::arithmetic::div_mod::lemma_mod_bound(
                0 - le_value(self.repr@),
                pasta_modulus() as int,
            );
            vstd::arithmetic::div_mod::lemma_small_mod(le_value(repr@), pasta_modulus());
        }
        PastaFp { repr }
    }

    fn is_equal(&self, rhs: &Self) -> (r: bool) {
        proof {
            use_type_invariant(self);
            use_type_invariant(rhs);
            vstd::arithmetic::div_mod::lemma_small_mod(le_value(self.repr@), pasta_modulus());
            vstd::arithmetic::div_mod::lemma_small_mod(le_value(rhs.repr@), pasta_modulus());
        }
        let mut i: usize = 0;
        while i < 32
            invariant
                i <= 32,
                self.value() == le_value(self.repr@),
                rhs.value() == le_value(rhs.repr@),
                forall|j: int| 0 <= j < i ==> self.repr@[j] == rhs.repr@[j],
            decreases 32 - i,
        {
            if self.repr[i] != rhs.repr[i] {
                proof {
                    if le_value(self.repr@) == le_value(rhs.repr@) {
                        lemma_le_value_injective(self.repr@, rhs.repr@);
                        assert(self.repr@[i as int] == rhs.repr@[i as int]);
                    }
                }
                return false;
            }
            i += 1;
        }
        assert(self.repr@ =~= rhs.repr@);
        true
    }
}

} // verus!
