use pbf::{Field, ProtoError, Protobuf, Type};
use pbf::{zagzig, zigzag};

#[test]
fn varint_concrete_bytes() {
    // encode(0) is the single zero byte, and encode(300) is [0xAC, 0x02].
    let mut pb = Protobuf::new();
    pb.write_varint(0);
    assert_eq!(pb.take(), vec![0x00]);

    let mut pb = Protobuf::new();
    pb.write_varint(300);
    assert_eq!(pb.take(), vec![0xAC, 0x02]);
}

#[test]
fn varint_boundary_byte() {
    // 0x80 is the first value needing a continuation byte; its encoding
    // must still terminate, and decode back to 0x80.
    let mut pb = Protobuf::new();
    pb.write_varint(0x80);
    let bytes = pb.take();
    assert_eq!(bytes, vec![0x80, 0x01]);
    let mut pb = Protobuf::from_input(bytes);
    assert_eq!(pb.read_varint::<u64>().unwrap(), 0x80);
}

#[test]
fn varint_max_roundtrip() {
    let mut pb = Protobuf::new();
    pb.write_varint(u64::MAX);
    let bytes = pb.take();
    assert_eq!(bytes.len(), 10);
    let mut pb = Protobuf::from_input(bytes);
    assert_eq!(pb.read_varint::<u64>().unwrap(), u64::MAX);
}

#[test]
fn zigzag_concrete_values() {
    assert_eq!(zigzag(-5), 9);
    assert_eq!(zagzig(9), -5);
    assert_eq!(zigzag(0), 0);
    assert_eq!(zigzag(-1), 1);
    assert_eq!(zigzag(1), 2);
}

#[test]
fn field_key_packing() {
    // decode_key(encode_key(tag = 5, type = Bytes)) == (5, Bytes), here at
    // a small tag and at the largest tag that fits a key.
    let mut pb = Protobuf::new();
    pb.write_field(5, Type::Bytes);
    pb.write_field(0x1FFF_FFFF_FFFF_FFFF, Type::Fixed32);

    let bytes = pb.take();
    let mut pb = Protobuf::from_input(bytes);
    assert_eq!(
        pb.read_field().unwrap(),
        Field {
            tag: 5,
            wire_type: Type::Bytes
        }
    );
    assert_eq!(
        pb.read_field().unwrap(),
        Field {
            tag: 0x1FFF_FFFF_FFFF_FFFF,
            wire_type: Type::Fixed32
        }
    );
}

#[test]
fn fixed_width_bit_exactness() {
    // write_fixed(5.5_f64) then read_fixed reproduces 5.5 bit-exactly, and
    // -5 as a fixed i32 takes the raw little-endian bytes FB FF FF FF.
    let mut pb = Protobuf::new();
    pb.write_fixed(5.5_f64.to_bits());
    let bytes = pb.take();
    let mut pb = Protobuf::from_input(bytes);
    assert_eq!(f64::from_bits(pb.read_fixed::<u64>().unwrap()), 5.5);

    let mut pb = Protobuf::new();
    pb.write_fixed(-5_i32);
    let bytes = pb.take();
    assert_eq!(bytes, vec![0xFB, 0xFF, 0xFF, 0xFF]);
    let mut pb = Protobuf::from_input(bytes);
    assert_eq!(pb.read_fixed::<i32>().unwrap(), -5);
}

#[test]
fn string_field_wire_bytes() {
    // A field key for tag 1 with the Bytes wire type, then the payload
    // "hello", is exactly [0x0A, 0x05, 'h', 'e', 'l', 'l', 'o'].
    let mut pb = Protobuf::new();
    pb.write_string_field(1, "hello");
    let bytes = pb.take();
    assert_eq!(bytes, vec![0x0A, 0x05, 0x68, 0x65, 0x6C, 0x6C, 0x6F]);

    let mut pb = Protobuf::from_input(bytes);
    let field = pb.read_field().unwrap();
    assert_eq!(field.tag, 1);
    assert_eq!(field.wire_type, Type::Bytes);
    assert_eq!(pb.read_string().unwrap(), "hello");
}

#[test]
fn packed_wire_bytes() {
    // write_packed(tag = 1, [1, 2, 3]) produces [0x0A, 0x03, 1, 2, 3] and
    // reads back as [1, 2, 3] exactly.
    let mut pb = Protobuf::new();
    pb.write_packed_varint::<u64>(1, &[1, 2, 3]);
    let bytes = pb.take();
    assert_eq!(bytes, vec![0x0A, 0x03, 0x01, 0x02, 0x03]);

    let mut pb = Protobuf::from_input(bytes);
    let field = pb.read_field().unwrap();
    assert_eq!(field.wire_type, Type::Bytes);
    assert_eq!(pb.read_packed::<u64>().unwrap(), vec![1, 2, 3]);
}

#[test]
fn truncated_varint_is_bounds_error() {
    // A lone continuation byte never terminates: a bounds error.
    let mut pb = Protobuf::from_input(vec![0x80]);
    assert_eq!(pb.decode_varint(), Err(ProtoError::Bounds));

    // An empty buffer has nothing to decode at all.
    let mut pb = Protobuf::from_input(vec![]);
    assert_eq!(pb.decode_varint(), Err(ProtoError::Bounds));
}

#[test]
fn reserved_wire_code_is_format_error() {
    // Key 0x0B has wire-type code 3, which is reserved.
    let mut pb = Protobuf::from_input(vec![0x0B]);
    assert_eq!(pb.read_field(), Err(ProtoError::Format));
}

#[test]
fn packed_overrun_is_misalignment_error() {
    // The length prefix claims one byte, but the first element's varint
    // takes two: the run and its stated length disagree.
    let mut pb = Protobuf::from_input(vec![0x01, 0xAC, 0x02]);
    assert_eq!(pb.read_packed::<u64>(), Err(ProtoError::Misalignment));
}

#[test]
fn invalid_utf8_is_encoding_error() {
    // 0xFF can never appear in UTF-8.
    let mut pb = Protobuf::from_input(vec![0x01, 0xFF]);
    assert_eq!(pb.read_string(), Err(ProtoError::Encoding));
}

#[test]
fn truncated_payload_is_bounds_error() {
    // The length prefix announces four bytes; only one follows.
    let mut pb = Protobuf::from_input(vec![0x04, 0x61]);
    assert_eq!(pb.read_bytes(), Err(ProtoError::Bounds));

    // A fixed 32-bit read two bytes before the end runs out as well.
    let mut pb = Protobuf::from_input(vec![0x01, 0x02]);
    assert_eq!(pb.read_fixed::<u32>(), Err(ProtoError::Bounds));
}

#[test]
fn take_empties_the_session() {
    let mut pb = Protobuf::new();
    pb.write_varint(7);
    assert_eq!(pb.len(), 1);
    assert!(!pb.is_empty());
    let bytes = pb.take();
    assert_eq!(bytes, vec![0x07]);
    assert!(pb.is_empty());
    assert_eq!(pb.len(), 0);
}
