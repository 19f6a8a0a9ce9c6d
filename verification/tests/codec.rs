//! Wire codec tests: fixed layouts, round trips, error cases, and bit-exact
//! transport of IEEE-754 doubles.

use calc_utils::bytes::{read_u32_le, read_u64_le, write_u32_le, write_u64_le};
use calc_utils::deserialize::{ByteCursor, Deserializable, Deserializer};
use calc_utils::serialize::{Serializable, Serializer};
use calc_utils::{MathRequest, MathResult, Operation, ProtocolError};

fn encode<T: Serializable>(v: &T) -> Vec<u8> {
    let mut buf: Vec<u8> = Vec::new();
    buf.serialize(v);
    buf
}

fn decode<T: Deserializable>(bytes: Vec<u8>) -> Result<T, ProtocolError> {
    let mut cur = ByteCursor::new(bytes);
    cur.deserialize::<T>()
}

#[test]
fn u32_little_endian_layout() {
    let mut buf: Vec<u8> = Vec::new();
    write_u32_le(1, &mut buf);
    assert_eq!(buf, vec![1, 0, 0, 0]);
    let mut buf2: Vec<u8> = Vec::new();
    write_u32_le(0xdead_beef, &mut buf2);
    assert_eq!(buf2, vec![0xef, 0xbe, 0xad, 0xde]);
    assert_eq!(read_u32_le(&buf2, 0), 0xdead_beef);
}

#[test]
fn u64_little_endian_layout() {
    let mut buf: Vec<u8> = Vec::new();
    write_u64_le(0x0102_0304_0506_0708, &mut buf);
    assert_eq!(buf, vec![8, 7, 6, 5, 4, 3, 2, 1]);
    assert_eq!(read_u64_le(&buf, 0), 0x0102_0304_0506_0708);
}

#[test]
fn operation_wire_codes() {
    assert_eq!(Operation::Addition.to_code(), 0);
    assert_eq!(Operation::Subtraction.to_code(), 1);
    assert_eq!(Operation::Multiplication.to_code(), 2);
    assert_eq!(Operation::Division.to_code(), 3);
}

#[test]
fn operation_symbols() {
    assert_eq!(Operation::Addition.symbol(), '+');
    assert_eq!(Operation::Subtraction.symbol(), '-');
    assert_eq!(Operation::Multiplication.symbol(), '*');
    assert_eq!(Operation::Division.symbol(), '/');
}

#[test]
fn request_fixed_layout_is_24_bytes() {
    let r = MathRequest {
        id: 7,
        operation: Operation::Multiplication,
        a: 1.5f64.to_bits(),
        b: 2.5f64.to_bits(),
    };
    let bytes = encode(&r);
    assert_eq!(bytes.len(), 24);
    let mut expected = vec![7, 0, 0, 0, 2, 0, 0, 0];
    expected.extend(1.5f64.to_le_bytes());
    expected.extend(2.5f64.to_le_bytes());
    assert_eq!(bytes, expected);
}

#[test]
fn result_fixed_layout_is_12_bytes() {
    let r = MathResult { id: 9, res: 240.0f64.to_bits() };
    let bytes = encode(&r);
    assert_eq!(bytes.len(), 12);
    let mut expected = vec![9, 0, 0, 0];
    expected.extend(240.0f64.to_le_bytes());
    assert_eq!(bytes, expected);
}

#[test]
fn request_round_trip() {
    let r = MathRequest {
        id: 0xffff_ffff,
        operation: Operation::Division,
        a: 988027.0f64.to_bits(),
        b: 991.0f64.to_bits(),
    };
    let back: MathRequest = decode(encode(&r)).unwrap();
    assert_eq!(back, r);
}

#[test]
fn result_round_trip() {
    let r = MathResult { id: 0, res: (-0.0f64).to_bits() };
    let back: MathResult = decode(encode(&r)).unwrap();
    assert_eq!(back, r);
}

#[test]
fn truncated_request_is_rejected() {
    let r = MathRequest { id: 1, operation: Operation::Addition, a: 0, b: 0 };
    let mut bytes = encode(&r);
    bytes.truncate(10);
    let e = decode::<MathRequest>(bytes).unwrap_err();
    assert_eq!(e, ProtocolError::TruncatedInput);
}

#[test]
fn truncated_result_is_rejected() {
    let e = decode::<MathResult>(vec![1, 2, 3]).unwrap_err();
    assert_eq!(e, ProtocolError::TruncatedInput);
}

#[test]
fn unknown_operation_code_is_rejected() {
    let r = MathRequest { id: 1, operation: Operation::Addition, a: 0, b: 0 };
    let mut bytes = encode(&r);
    bytes[4] = 9;
    let e = decode::<MathRequest>(bytes).unwrap_err();
    assert_eq!(e, ProtocolError::InvalidOperationCode);
}

#[test]
fn decoder_does_not_read_past_buffer() {
    let e = decode::<MathRequest>(Vec::new()).unwrap_err();
    assert_eq!(e, ProtocolError::TruncatedInput);
}

#[test]
fn division_semantics_survive_the_codec() {
    // IEEE-754 special values travel as bit patterns, byte-exact.
    let pos_inf = (1.0f64 / 0.0f64).to_bits();
    let neg_inf = (-1.0f64 / 0.0f64).to_bits();
    let nan = (0.0f64 / 0.0f64).to_bits();
    for bits in [pos_inf, neg_inf, nan] {
        let r = MathResult { id: 3, res: bits };
        let back: MathResult = decode(encode(&r)).unwrap();
        assert_eq!(back.res, bits);
    }
    assert!(f64::from_bits(pos_inf).is_infinite() && f64::from_bits(pos_inf) > 0.0);
    assert!(f64::from_bits(neg_inf).is_infinite() && f64::from_bits(neg_inf) < 0.0);
    assert!(f64::from_bits(nan).is_nan());
}

#[test]
fn random_id_constructors_fill_fields() {
    let a = 40.0f64.to_bits();
    let b = 200.0f64.to_bits();
    let r = MathRequest::add(a, b);
    assert_eq!(r.operation, Operation::Addition);
    assert_eq!(r.a, a);
    assert_eq!(r.b, b);
    assert_eq!(MathRequest::subtract(a, b).operation, Operation::Subtraction);
    assert_eq!(MathRequest::multiply(a, b).operation, Operation::Multiplication);
    assert_eq!(MathRequest::divide(a, b).operation, Operation::Division);
}
