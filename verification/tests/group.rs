use sigma_protocol::dlog_group::{
    exponentiate, generator, identity, inverse, is_identity, random_scalar_in_group_range,
    EcPoint, Scalar, GROUP_SIZE, SCALAR_SIZE,
};
use sigma_protocol::serialization::SerializationError;

const GENERATOR: [u8; 33] = [
    0x02, 0x79, 0xBE, 0x66, 0x7E, 0xF9, 0xDC, 0xBB, 0xAC, 0x55, 0xA0, 0x62, 0x95, 0xCE, 0x87, 0x0B,
    0x07, 0x02, 0x9B, 0xFC, 0xDB, 0x2D, 0xCE, 0x28, 0xD9, 0x59, 0xF2, 0x81, 0x5B, 0x16, 0xF8, 0x17,
    0x98,
];

const DOUBLE_GENERATOR: [u8; 33] = [
    0x02, 0xC6, 0x04, 0x7F, 0x94, 0x41, 0xED, 0x7D, 0x6D, 0x30, 0x45, 0x40, 0x6E, 0x95, 0xC0, 0x7C,
    0xD8, 0x5C, 0x77, 0x8E, 0x4B, 0x8C, 0xEF, 0x3C, 0xA7, 0xAB, 0xAC, 0x09, 0xB9, 0x5C, 0x70, 0x9E,
    0xE5,
];

const ORDER: [u8; 32] = [
    0xFF, 0xFF, 0xFF, 0xFF, 0xFF, 0xFF, 0xFF, 0xFF, 0xFF, 0xFF, 0xFF, 0xFF, 0xFF, 0xFF, 0xFF, 0xFE,
    0xBA, 0xAE, 0xDC, 0xE6, 0xAF, 0x48, 0xA0, 0x3B, 0xBF, 0xD2, 0x5E, 0x8C, 0xD0, 0x36, 0x41, 0x41,
];

fn scalar(last: u8) -> Scalar {
    let mut b = vec![0u8; 32];
    b[31] = last;
    Scalar::from_bytes(&b).unwrap()
}

#[test]
fn sizes() {
    assert_eq!(GROUP_SIZE, 33);
    assert_eq!(EcPoint::GROUP_SIZE, 33);
    assert_eq!(SCALAR_SIZE, 32);
}

#[test]
fn identity_is_zero_bytes() {
    assert_eq!(identity().sigma_serialize_bytes(), vec![0u8; 33]);
    assert!(is_identity(&identity()));
}

#[test]
fn generator_is_compressed_point() {
    let bytes = generator().sigma_serialize_bytes();
    assert_eq!(bytes.len(), 33);
    assert!(bytes[0] == 0x02 || bytes[0] == 0x03);
    assert_eq!(bytes, GENERATOR.to_vec());
    assert!(!is_identity(&generator()));
}

#[test]
fn ser_roundtrip() {
    for p in [generator(), identity(), generator().mul(&generator()), inverse(&generator())] {
        let bytes = p.sigma_serialize_bytes();
        assert_eq!(EcPoint::sigma_parse_bytes(&bytes), Ok(p));
    }
}

#[test]
fn serialize_appends() {
    let mut w = vec![7u8];
    generator().sigma_serialize(&mut w);
    assert_eq!(w.len(), 34);
    assert_eq!(w[0], 7);
    assert_eq!(&w[1..], &GENERATOR[..]);
}

#[test]
fn parse_at_position() {
    let mut bytes = vec![9u8, 9];
    bytes.extend_from_slice(&GENERATOR);
    bytes.push(1);
    assert_eq!(EcPoint::sigma_parse(&bytes, 2), Ok((generator(), 35)));
}

#[test]
fn parse_zero_first_byte_is_identity() {
    let mut bytes = vec![0u8; 33];
    bytes[5] = 0xAA;
    assert_eq!(EcPoint::sigma_parse_bytes(&bytes), Ok(identity()));
}

#[test]
fn parse_short_buffer() {
    assert_eq!(
        EcPoint::sigma_parse_bytes(&GENERATOR[..32].to_vec()),
        Err(SerializationError::UnexpectedEof)
    );
    assert_eq!(EcPoint::sigma_parse(&GENERATOR.to_vec(), 1), Err(SerializationError::UnexpectedEof));
}

#[test]
fn parse_invalid_point() {
    let mut bytes = vec![0xFFu8; 33];
    bytes[0] = 0x02;
    assert_eq!(EcPoint::sigma_parse_bytes(&bytes), Err(SerializationError::DecodingError));
    let mut uncompressed = GENERATOR.to_vec();
    uncompressed[0] = 0x04;
    assert_eq!(EcPoint::sigma_parse_bytes(&uncompressed), Err(SerializationError::DecodingError));
}

#[test]
fn product_of_generators() {
    let g2 = generator().mul(&generator());
    assert_eq!(g2.sigma_serialize_bytes(), DOUBLE_GENERATOR.to_vec());
}

#[test]
fn product_with_identity() {
    assert_eq!(generator().mul(&identity()), generator());
    assert_eq!(identity().mul(&generator()), generator());
    assert_eq!(identity().mul(&identity()), identity());
}

#[test]
fn product_with_inverse_is_identity() {
    let inv = inverse(&generator());
    assert!(!inv.same(&generator()));
    assert_eq!(inv.sigma_serialize_bytes()[0], 0x03);
    assert_eq!(&inv.sigma_serialize_bytes()[1..], &GENERATOR[1..]);
    assert_eq!(generator().mul(&inv), identity());
    assert_eq!(generator().neg(), inv);
    assert_eq!(inverse(&identity()), identity());
}

#[test]
fn exponentiate_generator() {
    assert_eq!(exponentiate(&generator(), &scalar(1)), generator());
    assert_eq!(exponentiate(&generator(), &scalar(2)).sigma_serialize_bytes(), DOUBLE_GENERATOR.to_vec());
    assert_eq!(exponentiate(&generator(), &scalar(0)), identity());
}

#[test]
fn exponentiate_identity_stays_identity() {
    assert_eq!(exponentiate(&identity(), &scalar(5)), identity());
}

#[test]
fn scalar_is_reduced_modulo_order() {
    assert_eq!(Scalar::from_bytes(&ORDER.to_vec()).unwrap().to_bytes(), vec![0u8; 32]);
    let mut above = ORDER.to_vec();
    above[31] = 0x43;
    assert_eq!(Scalar::from_bytes(&above).unwrap(), scalar(2));
    let all = Scalar::from_bytes(&vec![0xFFu8; 32]).unwrap().to_bytes();
    let expected: [u8; 32] = [
        0, 0, 0, 0, 0, 0, 0, 0, 0, 0, 0, 0, 0, 0, 0, 0x01, 0x45, 0x51, 0x23, 0x19, 0x50, 0xB7,
        0x5F, 0xC4, 0x40, 0x2D, 0xA1, 0x73, 0x2F, 0xC9, 0xBE, 0xBE,
    ];
    assert_eq!(all, expected.to_vec());
}

#[test]
fn scalar_canonical_bytes_stay() {
    let mut below = ORDER.to_vec();
    below[31] = 0x40;
    let s = Scalar::from_bytes(&below).unwrap();
    assert_eq!(s.to_bytes(), below);
    assert!(s.same(&s.clone()));
    assert!(!s.same(&scalar(1)));
}

#[test]
fn scalar_wrong_length() {
    assert_eq!(Scalar::from_bytes(&vec![1u8; 31]), None);
    assert_eq!(Scalar::from_bytes(&vec![1u8; 33]), None);
}

#[test]
fn random_scalar_is_canonical() {
    let s = random_scalar_in_group_range();
    let bytes = s.to_bytes();
    assert_eq!(bytes.len(), 32);
    assert_eq!(Scalar::from_bytes(&bytes), Some(s));
}

#[test]
fn from_base16() {
    let hex = "0279be667ef9dcbbac55a06295ce870b07029bfcdb2dce28d959f2815b16f81798".to_string();
    assert_eq!(EcPoint::from_base16_str(hex), Some(generator()));
    assert_eq!(EcPoint::from_base16_str("zz".to_string()), None);
    assert_eq!(EcPoint::from_base16_str("0279be".to_string()), None);
    assert_eq!(EcPoint::from_base16_str("00".repeat(33)), Some(identity()));
}

#[test]
fn point_copy_and_same() {
    let g = generator();
    assert_eq!(g.copy(), g);
    assert!(g.same(&g.copy()));
    assert!(!g.same(&identity()));
}

#[test]
fn parse_compact_point_is_normalized() {
    let mut compact = GENERATOR.to_vec();
    compact[0] = 0x05;
    let p = EcPoint::sigma_parse_bytes(&compact).unwrap();
    assert_eq!(p, generator());
    assert_eq!(p.sigma_serialize_bytes(), GENERATOR.to_vec());
}

#[test]
fn parse_odd_sign_point() {
    let mut odd = GENERATOR.to_vec();
    odd[0] = 0x03;
    let p = EcPoint::sigma_parse_bytes(&odd).unwrap();
    assert_eq!(p, inverse(&generator()));
    assert_eq!(p.sigma_serialize_bytes(), odd);
}

#[test]
fn from_base16_upper_case() {
    let hex = "0279BE667EF9DCBBAC55A06295CE870B07029BFCDB2DCE28D959F2815B16F81798".to_string();
    assert_eq!(EcPoint::from_base16_str(hex), Some(generator()));
    assert_eq!(EcPoint::from_base16_str("0".to_string()), None);
}
