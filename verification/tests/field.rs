use fibo_circuit::field::Field;
use fibo_circuit::pasta::PastaFp;

fn fp(v: u64) -> PastaFp {
    PastaFp::from_u64(v)
}

fn bytes_of(limbs: [u64; 4]) -> [u8; 32] {
    let mut bytes = [0u8; 32];
    for (i, limb) in limbs.iter().enumerate() {
        bytes[8 * i..8 * i + 8].copy_from_slice(&limb.to_le_bytes());
    }
    bytes
}

const MODULUS: [u64; 4] =
    [0x992d30ed00000001, 0x224698fc094cf91b, 0x0000000000000000, 0x4000000000000000];

fn modulus_minus(n: u64) -> PastaFp {
    let mut limbs = MODULUS;
    limbs[0] -= n;
    PastaFp::from_repr(bytes_of(limbs)).unwrap()
}

#[test]
fn from_u64_spells_the_number_in_little_endian() {
    assert_eq!(fp(0).to_repr(), [0u8; 32]);
    let mut expected = [0u8; 32];
    expected[0] = 0x02;
    expected[1] = 0x01;
    assert_eq!(fp(0x0102).to_repr(), expected);
    assert_eq!(fp(u64::MAX).to_repr(), bytes_of([u64::MAX, 0, 0, 0]));
}

#[test]
fn from_repr_accepts_exactly_the_numbers_below_the_modulus() {
    assert_eq!(PastaFp::from_repr(bytes_of(MODULUS)), None);
    assert_eq!(PastaFp::from_repr([0xffu8; 32]), None);
    let mut above = MODULUS;
    above[0] += 1;
    assert_eq!(PastaFp::from_repr(bytes_of(above)), None);
    let mut below = MODULUS;
    below[0] -= 1;
    let largest = PastaFp::from_repr(bytes_of(below)).unwrap();
    assert_eq!(largest.to_repr(), bytes_of(below));
    assert_eq!(PastaFp::from_repr(bytes_of([7, 0, 0, 0])), Some(fp(7)));
}

#[test]
fn zero_and_one_are_the_identities() {
    assert_eq!(PastaFp::zero(), fp(0));
    assert_eq!(PastaFp::one(), fp(1));
    assert_eq!(fp(41).add(&PastaFp::zero()), fp(41));
    assert_eq!(fp(41).mul(&PastaFp::one()), fp(41));
}

#[test]
fn add_sums_and_wraps_at_the_modulus() {
    assert_eq!(fp(2).add(&fp(3)), fp(5));
    assert_eq!(fp(u64::MAX).add(&fp(1)).to_repr(), bytes_of([0, 1, 0, 0]));
    assert_eq!(modulus_minus(1).add(&fp(1)), fp(0));
    assert_eq!(modulus_minus(1).add(&fp(3)), fp(2));
    assert_eq!(modulus_minus(1).add(&modulus_minus(1)), modulus_minus(2));
}

#[test]
fn sub_subtracts_and_wraps_below_zero() {
    assert_eq!(fp(5).sub(&fp(3)), fp(2));
    assert_eq!(fp(3).sub(&fp(3)), fp(0));
    assert_eq!(fp(1).sub(&fp(2)), modulus_minus(1));
    assert_eq!(fp(0).sub(&modulus_minus(1)), fp(1));
}

#[test]
fn mul_multiplies_and_reduces() {
    assert_eq!(fp(3).mul(&fp(4)), fp(12));
    assert_eq!(fp(0).mul(&fp(4)), fp(0));
    assert_eq!(fp(1 << 32).mul(&fp(1 << 32)).to_repr(), bytes_of([0, 1, 0, 0]));
    assert_eq!(modulus_minus(1).mul(&modulus_minus(1)), fp(1));
    assert_eq!(modulus_minus(1).mul(&fp(2)), modulus_minus(2));
}

#[test]
fn neg_gives_the_additive_inverse() {
    assert_eq!(fp(0).neg(), fp(0));
    assert_eq!(fp(1).neg(), modulus_minus(1));
    assert_eq!(modulus_minus(5).neg(), fp(5));
    assert_eq!(fp(9).add(&fp(9).neg()), fp(0));
}

#[test]
fn is_equal_compares_the_residues() {
    assert!(fp(7).is_equal(&fp(7)));
    assert!(!fp(7).is_equal(&fp(8)));
    assert!(!fp(1).is_equal(&fp(1 << 8)));
    assert!(modulus_minus(1).is_equal(&fp(0).sub(&fp(1))));
    assert!(!modulus_minus(1).is_equal(&modulus_minus(2)));
}
