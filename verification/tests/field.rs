use ed448_rust::bytes::{less_than, low_bytes, same_bytes, take_57};
use ed448_rust::constants::{CURVE_D, MODULUS, ORDER, ROOT_EXPONENT};
use ed448_rust::field::Field;
use ed448_rust::private_key::{assemble, clamp};
use ed448_rust::Scalar;

fn bytes57(hex: &str) -> [u8; 57] {
    let v = hex::decode(hex).unwrap();
    assert_eq!(v.len(), 57);
    let mut out = [0u8; 57];
    out.copy_from_slice(&v);
    out
}

fn field(hex: &str) -> Field {
    Field::from_bytes(&bytes57(hex)).unwrap()
}

fn small(n: u8) -> Field {
    let mut b = [0u8; 57];
    b[0] = n;
    Field::from_bytes(&b).unwrap()
}

const A: &str = "efcdab8967452301efcdab8967452301efcdab8967452301efcdab8967452301efcdab8967452301efcdab8967452301000000000000000000";
const B: &str = "fafffffffffffffffffffffffffffffffffffffffffffffffffffffffeffffffffffffffffffffffffffffffffffffffffffffffffffffff00";
const P_MINUS_ONE: &str = "fefffffffffffffffffffffffffffffffffffffffffffffffffffffffeffffffffffffffffffffffffffffffffffffffffffffffffffffff00";

#[test]
fn constants_have_their_values() {
    let mut p = [0xffu8; 57];
    p[28] = 0xfe;
    p[56] = 0;
    assert_eq!(MODULUS, p);
    // d = p - 39081
    let mut d = p;
    d[0] = 0x56;
    d[1] = 0x67;
    assert_eq!(CURVE_D, d);
    assert_eq!(
        ORDER,
        bytes57("f34458ab92c27823558fc58d72c26c219036d6ae49db4ec4e923ca7cffffffffffffffffffffffffffffffffffffffffffffffffffffff3f00")
    );
    // (p + 1) / 4 = 2^446 - 2^222
    let mut e = [0u8; 57];
    e[27] = 0xc0;
    for b in e.iter_mut().take(55).skip(28) {
        *b = 0xff;
    }
    e[55] = 0x3f;
    assert_eq!(ROOT_EXPONENT, e);
}

#[test]
fn field_rejects_values_out_of_range() {
    assert!(Field::from_bytes(&MODULUS).is_none());
    assert!(Field::from_bytes(&[0xff; 57]).is_none());
    let mut above = MODULUS;
    above[0] = 0;
    above[56] = 1;
    assert!(Field::from_bytes(&above).is_none());
    assert!(Field::from_bytes(&bytes57(P_MINUS_ONE)).is_some());
    assert!(Field::from_bytes(&[0; 57]).is_some());
}

#[test]
fn field_bytes_round_trip() {
    assert_eq!(field(A).to_bytes(), bytes57(A));
    assert_eq!(Field::zero().to_bytes(), [0u8; 57]);
    assert_eq!(Field::one().to_bytes(), small(1).to_bytes());
    assert_eq!(Field::curve_d().to_bytes(), CURVE_D);
}

#[test]
fn field_addition() {
    assert_eq!(
        field(A).add(&field(B)).to_bytes(),
        bytes57("eacdab8967452301efcdab8967452301efcdab8967452301efcdab8967452301efcdab8967452301efcdab8967452301000000000000000000")
    );
    // (p - 1) + 1 wraps to zero
    assert!(field(P_MINUS_ONE).add(&Field::one()).is_zero());
    assert_eq!(small(2).add(&small(3)).to_bytes(), small(5).to_bytes());
}

#[test]
fn field_subtraction() {
    assert_eq!(
        field(A).sub(&field(B)).to_bytes(),
        bytes57("f4cdab8967452301efcdab8967452301efcdab8967452301efcdab8967452301efcdab8967452301efcdab8967452301000000000000000000")
    );
    assert_eq!(
        field(B).sub(&field(A)).to_bytes(),
        bytes57("0b32547698badcfe1032547698badcfe1032547698badcfe1032547697badcfe1032547698badcfe1032547698badcfeffffffffffffffff00")
    );
    // 0 - 1 = p - 1
    assert_eq!(Field::zero().sub(&Field::one()).to_bytes(), bytes57(P_MINUS_ONE));
    assert!(field(A).sub(&field(A)).is_zero());
}

#[test]
fn field_multiplication() {
    assert_eq!(
        field(A).mul(&field(B)).to_bytes(),
        bytes57("54faa44ffaa44ffa54faa44ffaa44ffa54faa44ffaa44ffa54faa44ff9a44ffa54faa44ffaa44ffa54faa44ffaa44ffaffffffffffffffff00")
    );
    assert_eq!(small(7).mul(&small(6)).to_bytes(), small(42).to_bytes());
    // (p - 1)^2 = 1
    assert_eq!(field(P_MINUS_ONE).square().to_bytes(), small(1).to_bytes());
    assert_eq!(field(A).square().to_bytes(), field(A).mul(&field(A)).to_bytes());
}

#[test]
fn field_negation() {
    assert_eq!(
        field(A).neg().to_bytes(),
        bytes57("1032547698badcfe1032547698badcfe1032547698badcfe1032547697badcfe1032547698badcfe1032547698badcfeffffffffffffffff00")
    );
    assert!(Field::zero().neg().is_zero());
    assert_eq!(Field::one().neg().to_bytes(), bytes57(P_MINUS_ONE));
}

#[test]
fn field_inverse() {
    assert_eq!(
        small(2).invert().unwrap().to_bytes(),
        bytes57("00000000000000000000000000000000000000000000000000000080ffffffffffffffffffffffffffffffffffffffffffffffffffffff7f00")
    );
    assert_eq!(
        field(A).invert().unwrap().to_bytes(),
        bytes57("73ef57a2ed61e041dffee8b7c7067adfbc1d9d441523e9047d28e73bf34a1be03fed8473d95ee2db60b2ad50e7d5a99c066cc834b0303c6400")
    );
    assert_eq!(Field::one().invert().unwrap().to_bytes(), small(1).to_bytes());
    assert!(Field::zero().invert().is_none());
    let a = field(A);
    assert_eq!(a.mul(&a.invert().unwrap()).to_bytes(), small(1).to_bytes());
}

#[test]
fn field_division() {
    assert_eq!(
        field(A).div(&field(B)).to_bytes(),
        bytes57("9ca3dd4aebbec5ff9ca3dd4aebbec5ff9ca3dd4aebbec5ff9ca3dd4aeabec5ff9ca3dd4aebbec5ff9ca3dd4aebbec5ffffffffffffffffff00")
    );
    // division by zero gives zero
    assert!(field(A).div(&Field::zero()).is_zero());
    assert_eq!(small(42).div(&small(6)).to_bytes(), small(7).to_bytes());
}

#[test]
fn field_square_root() {
    assert_eq!(small(4).sqrt().unwrap().to_bytes(), small(2).to_bytes());
    let a = field(A);
    let root = a.square().sqrt().unwrap();
    assert_eq!(root.to_bytes(), bytes57(A));
    assert!(Field::zero().sqrt().unwrap().is_zero());
    // 7 is no square modulo p
    assert!(small(7).sqrt().is_none());
}

#[test]
fn field_predicates() {
    assert!(Field::zero().is_zero());
    assert!(!Field::one().is_zero());
    assert!(Field::one().is_odd());
    assert!(!small(2).is_odd());
    assert!(!field(P_MINUS_ONE).is_odd());
    assert!(field(A).equals(&field(A)));
    assert!(!field(A).equals(&field(B)));
    assert_eq!(Field::select(true, &small(1), &small(2)).to_bytes(), small(1).to_bytes());
    assert_eq!(Field::select(false, &small(1), &small(2)).to_bytes(), small(2).to_bytes());
}

#[test]
fn bytes_are_compared_as_numbers() {
    let mut low = [0u8; 57];
    let mut high = [0u8; 57];
    low[0] = 0xff;
    high[1] = 0x01;
    assert!(less_than(&low, &high));
    assert!(!less_than(&high, &low));
    assert!(!less_than(&low, &low));
    assert!(same_bytes(&low, &low));
    assert!(!same_bytes(&low, &high));
    low[56] = 1;
    assert!(less_than(&high, &low));
}

#[test]
fn low_bytes_pads_and_cuts() {
    let mut expected = [0u8; 57];
    expected[0] = 1;
    expected[1] = 2;
    assert_eq!(low_bytes(&[1, 2]), expected);
    assert_eq!(low_bytes(&[]), [0u8; 57]);
    let long: Vec<u8> = (0..100).collect();
    let cut = low_bytes(&long);
    assert_eq!(&cut[..], &long[..57]);
    assert_eq!(&take_57(&long, 40)[..], &long[40..97]);
}

#[test]
fn scalar_reduction() {
    assert_eq!(Scalar::reduce(&ORDER).to_bytes(), [0u8; 57]);
    let mut one = [0u8; 57];
    one[0] = 1;
    assert_eq!(
        Scalar::reduce(&bytes57("f44458ab92c27823558fc58d72c26c219036d6ae49db4ec4e923ca7cffffffffffffffffffffffffffffffffffffffffffffffffffffff3f00")).to_bytes(),
        one
    );
    let mut ones = [0xffu8; 57];
    ones[56] = 0x7f;
    assert_eq!(
        Scalar::reduce(&ones).to_bytes(),
        bytes57("ff19764fa9da7a0eb955e174e41a7b26bddf9253a26c4962772cb86b0601000000000000000000000000000000000000000000000000000000")
    );
    let long: Vec<u8> = (0..114).collect();
    assert_eq!(
        Scalar::reduce(&long).to_bytes(),
        bytes57("36389e5a5809a7491d7bbb887ff501806431c77e4e3113e0261f81c8613bebe4d5c2f21ca2f4e11ee0f8d6d1b7bad91ad1a772d427bf0d1700")
    );
    assert_eq!(Scalar::reduce(&[]).to_bytes(), [0u8; 57]);
}

#[test]
fn scalar_range() {
    assert!(!Scalar::from_bytes(ORDER).is_canonical());
    let mut below = ORDER;
    below[0] -= 1;
    assert!(Scalar::from_bytes(below).is_canonical());
    assert!(Scalar::from_bytes([0; 57]).is_canonical());
    assert!(!Scalar::from_bytes([0xff; 57]).is_canonical());
}

#[test]
fn scalar_mul_add() {
    let mut h = [0u8; 57];
    h[..8].copy_from_slice(&0xabcdef0123456789u64.to_le_bytes());
    let mut s = [0u8; 57];
    s[..17].copy_from_slice(&hex::decode("7766554433221100998877665544332211").unwrap());
    let mut r = ORDER;
    r[0] -= 1;
    let out = Scalar::from_bytes(h).mul_add(&Scalar::from_bytes(s), &Scalar::from_bytes(r));
    assert_eq!(
        out.to_bytes(),
        bytes57("aeb600d16b8560b106c8de4a0cc3839a0c0d261fb4a0a07f0b0000000000000000000000000000000000000000000000000000000000000000")
    );
    assert!(out.is_canonical());
}

#[test]
fn clamp_fixes_the_bits() {
    let s = clamp([0xff; 57]).to_bytes();
    assert_eq!(s[0], 0xfc);
    assert_eq!(s[55], 0xff);
    assert_eq!(s[56], 0);
    assert_eq!(&s[1..55], &[0xffu8; 54][..]);
    let z = clamp([0; 57]).to_bytes();
    assert_eq!(z[55], 0x80);
    assert_eq!(z[0], 0);
    assert_eq!(z[56], 0);
    let mut mixed = [0u8; 57];
    mixed[0] = 0x07;
    mixed[55] = 0x12;
    mixed[56] = 0x34;
    let m = clamp(mixed).to_bytes();
    assert_eq!((m[0], m[55], m[56]), (0x04, 0x92, 0x00));
}

#[test]
fn assemble_joins_the_halves() {
    let sig = assemble(&[1u8; 57], &[2u8; 57]);
    assert_eq!(sig.len(), 114);
    assert_eq!(&sig[..57], &[1u8; 57][..]);
    assert_eq!(&sig[57..], &[2u8; 57][..]);
}
