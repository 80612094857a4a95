use pbf::{Field, ProtoError, ProtoRead, ProtoWrite, Protobuf, Type};

#[derive(Debug, PartialEq, Default)]
struct TestMessage {
    a: i32,
    b: String,
}

impl TestMessage {
    fn new(a: i32, b: &str) -> Self {
        TestMessage { a, b: b.to_owned() }
    }
}

impl ProtoWrite for TestMessage {
    fn write(&self, pb: &mut Protobuf) {
        pb.write_varint_field::<u64>(1, self.a as u64);
        pb.write_string_field(2, &self.b);
    }
}

impl ProtoRead for TestMessage {
    fn read(&mut self, tag: u64, pb: &mut Protobuf) -> Result<(), ProtoError> {
        match tag {
            1 => self.a = pb.read_varint::<i32>()?,
            2 => self.b = pb.read_string()?,
            _ => panic!("Invalid tag"),
        }
        Ok(())
    }
}

#[test]
fn test_message() {
    let mut pb = Protobuf::new();
    let msg = TestMessage::new(1, "hello");
    pb.write_message(1, &msg);

    let bytes = pb.take();
    let mut pb = Protobuf::from_input(bytes);

    // first read in the field for the message
    let field = pb.read_field().unwrap();
    assert_eq!(
        field,
        Field {
            tag: 1,
            wire_type: Type::Bytes
        }
    );

    let mut msg = TestMessage::default();
    pb.read_message(&mut msg).unwrap();
    assert_eq!(msg.a, 1);
    assert_eq!(msg.b, "hello");
}

#[derive(Debug, PartialEq, Default)]
struct SkippingMessage {
    a: i32,
    b: String,
}

impl ProtoWrite for SkippingMessage {
    fn write(&self, pb: &mut Protobuf) {
        pb.write_varint_field::<u64>(1, self.a as u64);
        pb.write_string_field(2, &self.b);
    }
}

impl ProtoRead for SkippingMessage {
    fn read(&mut self, tag: u64, pb: &mut Protobuf) -> Result<(), ProtoError> {
        if tag == 2 {
            self.b = pb.read_string()?
        }
        Ok(())
    }
}

#[test]
fn test_message_with_skip() {
    let mut pb = Protobuf::new();
    let msg = SkippingMessage {
        a: 1,
        b: "hello".to_owned(),
    };
    pb.write_message(1, &msg);

    let bytes = pb.take();
    let mut pb = Protobuf::from_input(bytes);

    // first read in the field for the message
    let field = pb.read_field().unwrap();
    assert_eq!(
        field,
        Field {
            tag: 1,
            wire_type: Type::Bytes
        }
    );

    let mut msg = SkippingMessage::default();
    pb.read_message(&mut msg).unwrap();
    assert_eq!(msg.a, 0);
    assert_eq!(msg.b, "hello");
}

#[test]
fn unicode_string() {
    let mut pb = Protobuf::new();
    pb.write_string("你好");

    let bytes = pb.take();
    let mut pb = Protobuf::from_input(bytes);

    assert_eq!(pb.read_string().unwrap(), "你好");
}

/// A reader that only knows the byte-blob field under tag 2; every other
/// tag falls back to the engine's skip.
#[derive(Debug, PartialEq, Default)]
struct OnlyTagTwo {
    data: Vec<u8>,
}

impl ProtoRead for OnlyTagTwo {
    fn read(&mut self, tag: u64, pb: &mut Protobuf) -> Result<(), ProtoError> {
        if tag == 2 {
            self.data = pb.read_bytes()?
        }
        Ok(())
    }
}

#[test]
fn unknown_field_is_skipped() {
    // A buffer holding tag 1 (varint, value 5) and tag 2 (bytes, "x"):
    // a reader that only handles tag 2 completes without error, the cursor
    // reaches the end, and the value for tag 1 is simply absent.
    let mut pb = Protobuf::new();
    pb.write_varint_field(1, 5_u64);
    pb.write_bytes_field(2, b"x");

    let bytes = pb.take();
    let total = bytes.len();
    let mut pb = Protobuf::from_input(bytes);
    let mut msg = OnlyTagTwo::default();
    pb.read_fields(&mut msg, None).unwrap();
    assert_eq!(pb.pos, total);
    assert_eq!(msg.data, b"x");
}

#[derive(Debug, PartialEq, Default)]
struct Outer {
    inner: TestMessage,
    after: u64,
}

impl ProtoWrite for Outer {
    fn write(&self, pb: &mut Protobuf) {
        pb.write_message(1, &self.inner);
        pb.write_varint_field(2, self.after);
    }
}

impl ProtoRead for Outer {
    fn read(&mut self, tag: u64, pb: &mut Protobuf) -> Result<(), ProtoError> {
        match tag {
            1 => pb.read_message(&mut self.inner)?,
            2 => self.after = pb.read_varint::<u64>()?,
            _ => panic!("Invalid tag"),
        }
        Ok(())
    }
}

#[test]
fn nested_message_is_isolated() {
    // The nested message's end offset comes from its own length prefix
    // alone: its fields never overrun into the parent's remaining bytes,
    // and a field after the nested blob is still read correctly.
    let outer = Outer {
        inner: TestMessage::new(7, "hi"),
        after: 99,
    };
    let mut pb = Protobuf::new();
    outer.write(&mut pb);

    let bytes = pb.take();
    let mut pb = Protobuf::from_input(bytes);
    let mut got = Outer::default();
    pb.read_fields(&mut got, None).unwrap();
    assert_eq!(got, outer);
}

/// A reader that recognizes only the varint field under tag 2 and declines
/// everything else.
#[derive(Debug, PartialEq, Default)]
struct OnlyAfter {
    after: u64,
}

impl ProtoRead for OnlyAfter {
    fn read(&mut self, tag: u64, pb: &mut Protobuf) -> Result<(), ProtoError> {
        if tag == 2 {
            self.after = pb.read_varint::<u64>()?
        }
        Ok(())
    }
}

#[test]
fn nested_skip_keeps_parent_aligned() {
    // A parent that does not recognize the nested field under tag 1 skips
    // the whole blob by its length prefix and still reads tag 2 after it.
    let outer = Outer {
        inner: TestMessage::new(3, "deep"),
        after: 42,
    };
    let mut pb = Protobuf::new();
    outer.write(&mut pb);

    let bytes = pb.take();
    let total = bytes.len();
    let mut pb = Protobuf::from_input(bytes);
    let mut got = OnlyAfter::default();
    pb.read_fields(&mut got, None).unwrap();
    assert_eq!(pb.pos, total);
    assert_eq!(got.after, 42);
}
