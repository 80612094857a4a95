use pbf::bit_cast::BitCast;
use pbf::{Field, Protobuf, Type};
use pbf::{zagzig, zigzag};

#[test]
fn it_works() {
    let buf = vec![];
    let pb = Protobuf::from_input(buf);
    assert_eq!(pb.pos, 0);
}

#[test]
fn test_zigzag() {
    assert_eq!(zigzag(0), 0);
    assert_eq!(zagzig(0), 0);
    assert_eq!(zagzig(zigzag(0)), 0);
    assert_eq!(zagzig(zigzag(5)), 5);
    assert_eq!(zagzig(zigzag(-5)), -5);

    let max_i64 = i64::MAX;
    let min_i64 = i64::MIN;
    assert_eq!(zagzig(zigzag(max_i64)), max_i64);
    assert_eq!(zagzig(zigzag(min_i64)), min_i64);
}

#[test]
fn test_varint() {
    let mut pb = Protobuf::new();
    pb.write_varint(1);
    pb.write_varint(300);
    pb.write_varint(0x7fffffffffffffff);

    let bytes = pb.take();
    assert_eq!(
        bytes,
        &[1, 172, 2, 255, 255, 255, 255, 255, 255, 255, 255, 127]
    );

    let mut pb = Protobuf::from_input(bytes);
    assert_eq!(pb.read_varint::<u64>().unwrap(), 1);
    assert_eq!(pb.read_varint::<u64>().unwrap(), 300);
    assert_eq!(pb.read_varint::<u64>().unwrap(), 0x7fffffffffffffff);
}

#[derive(Debug, PartialEq)]
enum TestEnum {
    A,
    B,
    C,
}

impl BitCast for TestEnum {
    fn width() -> usize {
        1
    }
    fn to_u64(&self) -> u64 {
        match self {
            TestEnum::A => 1,
            TestEnum::B => 2,
            TestEnum::C => 3,
        }
    }
    fn from_u64(value: u64) -> Self {
        match value {
            1 => TestEnum::A,
            2 => TestEnum::B,
            3 => TestEnum::C,
            _ => panic!("Invalid enum value"),
        }
    }
}

#[test]
fn test_varint_field() {
    let mut pb = Protobuf::new();
    // unsigned
    pb.write_varint_field(0, 5_u8);
    pb.write_varint_field(1, 1_u16);
    pb.write_varint_field(2, 300_u32);
    pb.write_varint_field(3, 0x7fffffffffffffff_u64);
    // signed
    pb.write_varint_field(4, -5_i8);
    pb.write_varint_field(5, -1_i16);
    pb.write_varint_field(6, -300_i32);
    pb.write_varint_field(7, -94949494949_i64);
    // bool
    pb.write_varint_field(8, true);
    pb.write_varint_field(9, false);
    // enum
    pb.write_varint_field(10, TestEnum::B);
    // float, carried by its bit pattern
    pb.write_varint_field(11, std::f32::consts::PI.to_bits());
    pb.write_varint_field(12, (-std::f64::consts::PI).to_bits());

    let bytes = pb.take();
    let mut pb = Protobuf::from_input(bytes);

    // unsigned
    // tag 0
    assert_eq!(
        pb.read_field().unwrap(),
        Field {
            tag: 0,
            wire_type: Type::Varint
        }
    );
    assert_eq!(pb.read_varint::<u8>().unwrap(), 5);
    // tag 1
    assert_eq!(
        pb.read_field().unwrap(),
        Field {
            tag: 1,
            wire_type: Type::Varint
        }
    );
    assert_eq!(pb.read_varint::<u16>().unwrap(), 1);
    // tag 2
    assert_eq!(
        pb.read_field().unwrap(),
        Field {
            tag: 2,
            wire_type: Type::Varint
        }
    );
    assert_eq!(pb.read_varint::<u32>().unwrap(), 300);
    // tag 3
    assert_eq!(
        pb.read_field().unwrap(),
        Field {
            tag: 3,
            wire_type: Type::Varint
        }
    );
    assert_eq!(pb.read_varint::<u64>().unwrap(), 0x7fffffffffffffff);

    // signed
    // tag 4
    assert_eq!(
        pb.read_field().unwrap(),
        Field {
            tag: 4,
            wire_type: Type::Varint
        }
    );
    assert_eq!(pb.read_varint::<i8>().unwrap(), -5);
    // tag 5
    assert_eq!(
        pb.read_field().unwrap(),
        Field {
            tag: 5,
            wire_type: Type::Varint
        }
    );
    assert_eq!(pb.read_varint::<i16>().unwrap(), -1);
    // tag 6
    assert_eq!(
        pb.read_field().unwrap(),
        Field {
            tag: 6,
            wire_type: Type::Varint
        }
    );
    assert_eq!(pb.read_varint::<i32>().unwrap(), -300);
    // tag 7
    assert_eq!(
        pb.read_field().unwrap(),
        Field {
            tag: 7,
            wire_type: Type::Varint
        }
    );
    assert_eq!(pb.read_varint::<i64>().unwrap(), -94949494949);

    // bool
    // tag 8
    assert_eq!(
        pb.read_field().unwrap(),
        Field {
            tag: 8,
            wire_type: Type::Varint
        }
    );
    assert!(pb.read_varint::<bool>().unwrap());
    // tag 9
    assert_eq!(
        pb.read_field().unwrap(),
        Field {
            tag: 9,
            wire_type: Type::Varint
        }
    );
    assert!(!pb.read_varint::<bool>().unwrap());

    // enum
    // tag 10
    assert_eq!(
        pb.read_field().unwrap(),
        Field {
            tag: 10,
            wire_type: Type::Varint
        }
    );
    assert_eq!(pb.read_varint::<TestEnum>().unwrap(), TestEnum::B);

    // float
    // tag 11
    assert_eq!(
        pb.read_field().unwrap(),
        Field {
            tag: 11,
            wire_type: Type::Varint
        }
    );
    assert_eq!(
        f32::from_bits(pb.read_varint::<u32>().unwrap()),
        std::f32::consts::PI
    );
    // tag 12
    assert_eq!(
        pb.read_field().unwrap(),
        Field {
            tag: 12,
            wire_type: Type::Varint
        }
    );
    assert_eq!(
        f64::from_bits(pb.read_varint::<u64>().unwrap()),
        -std::f64::consts::PI
    );
}

#[test]
fn test_s_varint_field() {
    let mut pb = Protobuf::new();
    pb.write_s_varint_field(1, 5_i8);
    pb.write_s_varint_field(2, 5_i16);
    pb.write_s_varint_field(3, 5_i32);
    pb.write_s_varint_field(4, 5_i64);
    pb.write_s_varint_field(5, -5_i8);
    pb.write_s_varint_field(6, -5_i16);
    pb.write_s_varint_field(7, -5_i32);
    pb.write_s_varint_field(8, -5_i64);

    let bytes = pb.take();
    let mut pb = Protobuf::from_input(bytes);

    assert_eq!(
        pb.read_field().unwrap(),
        Field {
            tag: 1,
            wire_type: Type::Varint
        }
    );
    assert_eq!(pb.read_s_varint::<i8>().unwrap(), 5);
    assert_eq!(
        pb.read_field().unwrap(),
        Field {
            tag: 2,
            wire_type: Type::Varint
        }
    );
    assert_eq!(pb.read_s_varint::<i16>().unwrap(), 5);
    assert_eq!(
        pb.read_field().unwrap(),
        Field {
            tag: 3,
            wire_type: Type::Varint
        }
    );
    assert_eq!(pb.read_s_varint::<i32>().unwrap(), 5);
    assert_eq!(
        pb.read_field().unwrap(),
        Field {
            tag: 4,
            wire_type: Type::Varint
        }
    );
    assert_eq!(pb.read_s_varint::<i64>().unwrap(), 5);
    assert_eq!(
        pb.read_field().unwrap(),
        Field {
            tag: 5,
            wire_type: Type::Varint
        }
    );
    assert_eq!(pb.read_s_varint::<i8>().unwrap(), -5);
    assert_eq!(
        pb.read_field().unwrap(),
        Field {
            tag: 6,
            wire_type: Type::Varint
        }
    );
    assert_eq!(pb.read_s_varint::<i16>().unwrap(), -5);
    assert_eq!(
        pb.read_field().unwrap(),
        Field {
            tag: 7,
            wire_type: Type::Varint
        }
    );
    assert_eq!(pb.read_s_varint::<i32>().unwrap(), -5);
    assert_eq!(
        pb.read_field().unwrap(),
        Field {
            tag: 8,
            wire_type: Type::Varint
        }
    );
    assert_eq!(pb.read_s_varint::<i64>().unwrap(), -5);
}

#[test]
fn test_fixed() {
    let mut pb = Protobuf::new();
    pb.write_fixed_field(1, 5_u32);
    pb.write_fixed_field(2, -5_i32);
    pb.write_fixed_field(3, 5.5_f32.to_bits());
    pb.write_fixed_field(4, 5_u64);
    pb.write_fixed_field(5, -5_i64);
    pb.write_fixed_field(6, 5.5_f64.to_bits());

    let bytes = pb.take();
    let mut pb = Protobuf::from_input(bytes);

    assert_eq!(
        pb.read_field().unwrap(),
        Field {
            tag: 1,
            wire_type: Type::Fixed32
        }
    );
    assert_eq!(pb.read_fixed::<u32>().unwrap(), 5);
    assert_eq!(
        pb.read_field().unwrap(),
        Field {
            tag: 2,
            wire_type: Type::Fixed32
        }
    );
    assert_eq!(pb.read_fixed::<i32>().unwrap(), -5);
    assert_eq!(
        pb.read_field().unwrap(),
        Field {
            tag: 3,
            wire_type: Type::Fixed32
        }
    );
    assert_eq!(f32::from_bits(pb.read_fixed::<u32>().unwrap()), 5.5);
    assert_eq!(
        pb.read_field().unwrap(),
        Field {
            tag: 4,
            wire_type: Type::Fixed64
        }
    );
    assert_eq!(pb.read_fixed::<u64>().unwrap(), 5);
    assert_eq!(
        pb.read_field().unwrap(),
        Field {
            tag: 5,
            wire_type: Type::Fixed64
        }
    );
    assert_eq!(pb.read_fixed::<i64>().unwrap(), -5);
    assert_eq!(
        pb.read_field().unwrap(),
        Field {
            tag: 6,
            wire_type: Type::Fixed64
        }
    );
    assert_eq!(f64::from_bits(pb.read_fixed::<u64>().unwrap()), 5.5);
}

#[test]
fn test_string() {
    let mut pb = Protobuf::new();
    pb.write_string_field(1, "hello");
    pb.write_string_field(2, "world");

    let bytes = pb.take();
    let mut pb = Protobuf::from_input(bytes);

    assert_eq!(
        pb.read_field().unwrap(),
        Field {
            tag: 1,
            wire_type: Type::Bytes
        }
    );
    assert_eq!(pb.read_string().unwrap(), "hello");
    assert_eq!(
        pb.read_field().unwrap(),
        Field {
            tag: 2,
            wire_type: Type::Bytes
        }
    );
    assert_eq!(pb.read_string().unwrap(), "world");
}

#[test]
fn test_bytes() {
    let mut pb = Protobuf::new();
    pb.write_bytes_field(1, &[1, 2, 3]);
    pb.write_bytes_field(2, &[4, 5, 6]);

    let bytes = pb.take();
    let mut pb = Protobuf::from_input(bytes);

    assert_eq!(
        pb.read_field().unwrap(),
        Field {
            tag: 1,
            wire_type: Type::Bytes
        }
    );
    assert_eq!(pb.read_bytes().unwrap(), &[1, 2, 3]);
    assert_eq!(
        pb.read_field().unwrap(),
        Field {
            tag: 2,
            wire_type: Type::Bytes
        }
    );
    assert_eq!(pb.read_bytes().unwrap(), &[4, 5, 6]);
}

#[test]
fn test_write_field() {
    let mut pb = Protobuf::new();
    pb.write_field(1, Type::Varint);
    pb.write_field(2, Type::Null);

    let bytes = pb.take();
    let mut pb = Protobuf::from_input(bytes);

    assert_eq!(
        pb.read_field().unwrap(),
        Field {
            tag: 1,
            wire_type: Type::Varint,
        }
    );
    assert_eq!(
        pb.read_field().unwrap(),
        Field {
            tag: 2,
            wire_type: Type::Null,
        }
    );
}

#[test]
fn test_set_pos() {
    let mut pb = Protobuf::new();
    pb.write_varint_field(1, 5);
    pb.write_varint_field(2, 5);
    pb.write_varint_field(3, 5);

    let bytes = pb.take();
    let mut pb = Protobuf::from_input(bytes);

    pb.set_pos(2);
    assert_eq!(
        pb.read_field().unwrap(),
        Field {
            tag: 2,
            wire_type: Type::Varint
        }
    );
    assert_eq!(pb.read_varint::<u8>().unwrap(), 5);
    assert_eq!(
        pb.read_field().unwrap(),
        Field {
            tag: 3,
            wire_type: Type::Varint
        }
    );
    assert_eq!(pb.read_varint::<u8>().unwrap(), 5);
}

#[test]
fn test_skip() {
    let mut pb = Protobuf::new();
    pb.write_varint_field(1, 5_u8);
    pb.write_fixed_field(2, -5_i32);
    pb.write_fixed_field(3, 5.5_f64.to_bits());
    pb.write_packed_varint::<u16>(4, &[1, 2, 3, 4, 5]);
    pb.write_field(5, Type::Null);
    pb.write_varint_field(6, false);

    let bytes = pb.take();
    let mut pb = Protobuf::from_input(bytes);

    let mut field = pb.read_field().unwrap();
    pb.skip(field.wire_type).unwrap(); // skip 1 Type::Varint
    field = pb.read_field().unwrap();
    pb.skip(field.wire_type).unwrap(); // skip 2 Type::Fixed32
    field = pb.read_field().unwrap();
    pb.skip(field.wire_type).unwrap(); // skip 3 Type::Fixed64
    field = pb.read_field().unwrap();
    pb.skip(field.wire_type).unwrap(); // skip 4 Type::Bytes
    field = pb.read_field().unwrap();
    pb.skip(field.wire_type).unwrap(); // skip 5 Type::Null
    assert_eq!(
        pb.read_field().unwrap(),
        Field {
            tag: 6,
            wire_type: Type::Varint
        }
    );
}

#[test]
fn test_packed_and_s_packed() {
    let mut pb = Protobuf::new();
    pb.write_packed_varint::<u16>(1, &[1, 2, 3]);
    pb.write_packed_varint::<u32>(
        2,
        &[4.4_f32.to_bits(), 5.5_f32.to_bits(), 6.6_f32.to_bits()],
    );
    pb.write_packed_s_varint(3, &[-1, -2, -3]);

    let bytes = pb.take();
    let mut pb = Protobuf::from_input(bytes);

    assert_eq!(
        pb.read_field().unwrap(),
        Field {
            tag: 1,
            wire_type: Type::Bytes
        }
    );
    assert_eq!(pb.read_packed::<u16>().unwrap(), vec![1, 2, 3]);
    assert_eq!(
        pb.read_field().unwrap(),
        Field {
            tag: 2,
            wire_type: Type::Bytes
        }
    );
    let floats: Vec<f32> = pb
        .read_packed::<u32>()
        .unwrap()
        .into_iter()
        .map(f32::from_bits)
        .collect();
    assert_eq!(floats, vec![4.4, 5.5, 6.6]);
    assert_eq!(
        pb.read_field().unwrap(),
        Field {
            tag: 3,
            wire_type: Type::Bytes
        }
    );
    assert_eq!(pb.read_s_packed::<i32>().unwrap(), vec![-1, -2, -3]);
}
