use ed448_rust::constants::{BASE_Y, MODULUS, ORDER};
use ed448_rust::{Point, PublicKey, Scalar};

fn bytes57(hex: &str) -> [u8; 57] {
    let v = hex::decode(hex).unwrap();
    assert_eq!(v.len(), 57);
    let mut out = [0u8; 57];
    out.copy_from_slice(&v);
    out
}

fn scalar(n: u64) -> Scalar {
    let mut b = [0u8; 57];
    b[..8].copy_from_slice(&n.to_le_bytes());
    Scalar::from_bytes(b)
}

const IDENTITY: &str = "010000000000000000000000000000000000000000000000000000000000000000000000000000000000000000000000000000000000000000";
const BASE: &str = "14fa30f25b790898adc8d74e2c13bdfdc4397ce61cffd33ad7c2a0051e9c78874098a36c7373ea4b62c7c9563720768824bcb66e71463f6900";
const TWICE_BASE: &str = "ed8693eacdfbeada6ba0cdd1beb2bcbb98302a3a8365650db8c4d88a726de3b7d74d8835a0d76e03b0c2865020d659b38d04d74a63e905ae80";
const THRICE_BASE: &str = "fcd68e5813ac22b8af2dd0fe689afabff06767db1b333abb581d4eec823ce4fcb9c35623958d4a9a44a63ad47adacb06f75c12d5dba805e080";

#[test]
fn identity_and_base_encode() {
    assert_eq!(Point::identity().encode(), bytes57(IDENTITY));
    assert_eq!(Point::base().encode(), bytes57(BASE));
    assert_eq!(Point::base().encode(), BASE_Y);
}

#[test]
fn doubling_and_addition() {
    let b = Point::base();
    assert_eq!(b.double().encode(), bytes57(TWICE_BASE));
    assert_eq!(b.add(&b).encode(), bytes57(TWICE_BASE));
    assert_eq!(b.double().add(&b).encode(), bytes57(THRICE_BASE));
    assert_eq!(b.add(&b.double()).encode(), bytes57(THRICE_BASE));
    assert_eq!(b.add(&Point::identity()).encode(), bytes57(BASE));
    assert_eq!(Point::identity().double().encode(), bytes57(IDENTITY));
}

#[test]
fn multiples_of_the_base_point() {
    let b = Point::base();
    assert_eq!(b.scalar_mul(&scalar(0)).encode(), bytes57(IDENTITY));
    assert_eq!(b.scalar_mul(&scalar(1)).encode(), bytes57(BASE));
    assert_eq!(b.scalar_mul(&scalar(2)).encode(), bytes57(TWICE_BASE));
    assert_eq!(b.scalar_mul(&scalar(3)).encode(), bytes57(THRICE_BASE));
}

#[test]
fn the_order_annihilates_the_base_point() {
    let b = Point::base();
    assert_eq!(b.scalar_mul(&Scalar::from_bytes(ORDER)).encode(), bytes57(IDENTITY));
    let mut below = ORDER;
    below[0] -= 1;
    // [l - 1]B = -B: the same y, the other x
    let mut negative = bytes57(BASE);
    negative[56] |= 0x80;
    assert_eq!(b.scalar_mul(&Scalar::from_bytes(below)).encode(), negative);
}

#[test]
fn equality_is_that_of_affine_points() {
    let b = Point::base();
    let twice = b.double();
    let sum = b.add(&b);
    assert!(twice.equals(&sum));
    assert!(!twice.equals(&b));
    let decoded = Point::decode(&bytes57(TWICE_BASE)).unwrap();
    assert!(decoded.equals(&twice));
    assert!(Point::identity().equals(&b.scalar_mul(&Scalar::from_bytes(ORDER))));
}

#[test]
fn decode_then_encode() {
    for hex in [IDENTITY, BASE, TWICE_BASE, THRICE_BASE] {
        let p = Point::decode(&bytes57(hex)).unwrap();
        assert_eq!(p.encode(), bytes57(hex));
    }
}

#[test]
fn encode_then_decode_on_multiples() {
    let b = Point::base();
    for n in [1u64, 2, 3, 5, 0xffff_ffff, 0x1234_5678_9abc_def0] {
        let p = b.scalar_mul(&scalar(n));
        let q = Point::decode(&p.encode()).unwrap();
        assert!(q.equals(&p));
        assert_eq!(q.encode(), p.encode());
    }
}

#[test]
fn decode_rejects_wrong_lengths() {
    let base = bytes57(BASE);
    assert!(Point::decode(&base[..56]).is_none());
    assert!(Point::decode(&[]).is_none());
    let mut long = base.to_vec();
    long.push(0);
    assert!(Point::decode(&long).is_none());
}

#[test]
fn decode_rejects_y_out_of_range() {
    assert!(Point::decode(&MODULUS).is_none());
    let mut with_sign = MODULUS;
    with_sign[56] = 0x80;
    assert!(Point::decode(&with_sign).is_none());
    // bits 448 to 454 belong to y
    let mut high = bytes57(BASE);
    high[56] |= 0x01;
    assert!(Point::decode(&high).is_none());
}

#[test]
fn decode_rejects_y_off_the_curve() {
    let mut two = [0u8; 57];
    two[0] = 2;
    assert!(Point::decode(&two).is_none());
    let mut six = [0u8; 57];
    six[0] = 6;
    assert!(Point::decode(&six).is_none());
}

#[test]
fn decode_rejects_a_sign_on_zero() {
    // y = 1 has x = 0, which has no negative
    let mut signed_identity = bytes57(IDENTITY);
    signed_identity[56] = 0x80;
    assert!(Point::decode(&signed_identity).is_none());
    assert!(Point::decode(&bytes57(IDENTITY)).is_some());
}

#[test]
fn decode_takes_the_root_with_the_sign() {
    let plain = Point::decode(&bytes57(BASE)).unwrap();
    let mut other = bytes57(BASE);
    other[56] |= 0x80;
    let negative = Point::decode(&other).unwrap();
    assert!(!plain.equals(&negative));
    assert_eq!(negative.encode(), other);
    // B + (-B) is the neutral element
    assert_eq!(plain.add(&negative).encode(), bytes57(IDENTITY));
}

#[test]
fn points_of_small_order() {
    // (0, -1) has order two, (1, 0) has order four
    let mut minus_one = MODULUS;
    minus_one[0] = 0xfe;
    let two = Point::decode(&minus_one).unwrap();
    assert_eq!(two.double().encode(), bytes57(IDENTITY));
    let mut x_one = [0u8; 57];
    x_one[56] = 0x80;
    let four = Point::decode(&x_one).unwrap();
    assert_eq!(four.double().encode(), minus_one);
    assert_eq!(four.double().double().encode(), bytes57(IDENTITY));
}

#[test]
fn public_key_of_a_scalar() {
    assert_eq!(PublicKey::from(scalar(1)).as_byte(), &bytes57(BASE));
    assert_eq!(PublicKey::from(scalar(3)).as_byte(), &bytes57(THRICE_BASE));
    assert_eq!(PublicKey::from_scalar(&scalar(2)).as_byte(), &bytes57(TWICE_BASE));
}
