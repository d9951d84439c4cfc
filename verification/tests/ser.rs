use ssh_format::{to_bytes, Error, ErrorKind, SerBacker, SerOutput, Serializer, Value};

#[test]
fn ser_test_integer() {
    assert_eq!(to_bytes(&Value::U8(0x12)).unwrap(), [0, 0, 0, 1, 0x12]);
    assert_eq!(to_bytes(&Value::U16(0x1234)).unwrap(), [0, 0, 0, 2, 0x12, 0x34]);
    assert_eq!(
        to_bytes(&Value::U32(0x12345678)).unwrap(),
        [0, 0, 0, 4, 0x12, 0x34, 0x56, 0x78]
    );
    assert_eq!(
        to_bytes(&Value::U64(0x1234567887654321)).unwrap(),
        [0, 0, 0, 8, 0x12, 0x34, 0x56, 0x78, 0x87, 0x65, 0x43, 0x21]
    );
}

#[test]
fn ser_test_boolean() {
    assert_eq!(to_bytes(&Value::Bool(true)).unwrap(), [0, 0, 0, 4, 0, 0, 0, 1]);
    assert_eq!(to_bytes(&Value::Bool(false)).unwrap(), [0, 0, 0, 4, 0, 0, 0, 0]);
}

#[test]
fn ser_test_str() {
    let s = "Hello, world!";
    let serialized = to_bytes(&Value::Str(s.to_string())).unwrap();
    let len: u32 = (serialized.len() - 4).try_into().unwrap();
    assert_eq!(&serialized[..4], len.to_be_bytes());
    assert_eq!(&serialized[4..8], (s.len() as u32).to_be_bytes());
    assert_eq!(&serialized[8..], s.as_bytes());
}

#[test]
fn test_str_with_null() {
    let s = "\0Hello, world!";
    let serialized = to_bytes(&Value::Str(s.to_string())).unwrap();
    let len: u32 = (serialized.len() - 4).try_into().unwrap();
    assert_eq!(&serialized[..4], len.to_be_bytes());
    assert_eq!(&serialized[4..8], (s.len() as u32).to_be_bytes());

    assert_eq!(&serialized[8..], s.as_bytes());
}

#[test]
fn ser_test_array() {
    let array = [0x00_u8, 0x01_u8, 0x10_u8, 0x78_u8];
    let slice = Value::List(array.iter().map(|b| Value::U8(*b)).collect());

    let serialized = to_bytes(&slice).unwrap();
    assert_eq!(serialized[..4], [0, 0, 0, 8]);
    assert_eq!(serialized[4..8], [0, 0, 0, 4]);
    assert_eq!(serialized[8..], array);

    let slice = Value::List(
        [0x0010_u16, 0x0100_u16, 0x1034_u16, 0x7812_u16]
            .iter()
            .map(|n| Value::U16(*n))
            .collect(),
    );

    assert_eq!(
        to_bytes(&slice).unwrap(),
        &[0, 0, 0, 12, 0, 0, 0, 4, 0x00, 0x10, 0x01, 0x00, 0x10, 0x34, 0x78, 0x12_u8]
    );
}

#[test]
fn ser_test_tuple() {
    assert_eq!(
        to_bytes(&Value::Tuple(vec![
            Value::U8(0x00),
            Value::U16(0x0100),
            Value::U16(0x1034),
            Value::U16(0x7812),
        ]))
        .unwrap(),
        &[0, 0, 0, 7, 0x00_u8, 0x01_u8, 0x00_u8, 0x10_u8, 0x34_u8, 0x78_u8, 0x12_u8]
    );
}

struct S {
    v1: u8,
    v2: u16,
    v3: u16,
    v4: u16,
}

fn value_of_s(s: &S) -> Value {
    Value::Tuple(vec![
        Value::U8(s.v1),
        Value::U16(s.v2),
        Value::U16(s.v3),
        Value::U16(s.v4),
    ])
}

#[test]
fn ser_test_struct() {
    let v = S {
        v1: 0x00,
        v2: 0x0100,
        v3: 0x1034,
        v4: 0x7812,
    };
    assert_eq!(
        to_bytes(&value_of_s(&v)).unwrap(),
        &[0, 0, 0, 7, 0x00_u8, 0x01_u8, 0x00_u8, 0x10_u8, 0x34_u8, 0x78_u8, 0x12_u8]
    );
}

#[test]
fn ser_test_enum() {
    let mut serializer: Serializer<Vec<u8>> = Serializer::default();

    serializer.serialize_unit_variant(1).unwrap();
    assert_eq!(serializer.create_header(0).unwrap(), [0, 0, 0, 4]);
    assert_eq!(serializer.output, [0, 0, 0, 1]);

    // Reset serializer
    serializer.reset_counter();
    serializer.output.clear();

    serializer
        .serialize_newtype_variant(0, &Value::I32(3))
        .unwrap();
    assert_eq!(serializer.create_header(0).unwrap(), [0, 0, 0, 8]);
    assert_eq!(serializer.output, [0, 0, 0, 0, 0, 0, 0, 3]);
}

#[test]
fn header_is_length_of_the_rest() {
    let values = [
        Value::Unit,
        Value::U8(7),
        Value::Str("hi".to_string()),
        Value::Tuple(vec![Value::U8(1), Value::U16(2)]),
        Value::List(vec![Value::Bool(true), Value::Bool(false)]),
        Value::Variant(3, Box::new(Value::Bytes(vec![1, 2, 3]))),
    ];
    for v in values.iter() {
        let bytes = to_bytes(v).unwrap();
        let header = u32::from_be_bytes([bytes[0], bytes[1], bytes[2], bytes[3]]);
        assert_eq!(header as usize, bytes.len() - 4);
    }
}

#[test]
fn scenario_u16() {
    assert_eq!(to_bytes(&Value::U16(0x1234)).unwrap(), [0x00, 0x00, 0x00, 0x02, 0x12, 0x34]);
}

#[test]
fn scenario_str_hi() {
    assert_eq!(
        to_bytes(&Value::Str("hi".to_string())).unwrap(),
        [0x00, 0x00, 0x00, 0x06, 0x00, 0x00, 0x00, 0x02, b'h', b'i']
    );
}

#[test]
fn scenario_tuple_u8_u16() {
    assert_eq!(
        to_bytes(&Value::Tuple(vec![Value::U8(1), Value::U16(2)])).unwrap(),
        [0x00, 0x00, 0x00, 0x03, 0x01, 0x00, 0x02]
    );
}

#[test]
fn signed_numbers_are_twos_complement() {
    assert_eq!(to_bytes(&Value::I8(-1)).unwrap(), [0, 0, 0, 1, 0xff]);
    assert_eq!(to_bytes(&Value::I8(i8::MIN)).unwrap(), [0, 0, 0, 1, 0x80]);
    assert_eq!(to_bytes(&Value::I8(i8::MAX)).unwrap(), [0, 0, 0, 1, 0x7f]);
    assert_eq!(to_bytes(&Value::I16(-2)).unwrap(), [0, 0, 0, 2, 0xff, 0xfe]);
    assert_eq!(to_bytes(&Value::I16(i16::MIN)).unwrap(), [0, 0, 0, 2, 0x80, 0x00]);
    assert_eq!(
        to_bytes(&Value::I32(-0x12345678)).unwrap()[4..],
        (-0x12345678_i32).to_be_bytes()
    );
    assert_eq!(to_bytes(&Value::I32(i32::MIN)).unwrap()[4..], i32::MIN.to_be_bytes());
    assert_eq!(
        to_bytes(&Value::I64(-0x1234567887654321)).unwrap()[4..],
        (-0x1234567887654321_i64).to_be_bytes()
    );
    assert_eq!(to_bytes(&Value::I64(i64::MIN)).unwrap()[4..], i64::MIN.to_be_bytes());
    assert_eq!(to_bytes(&Value::I64(i64::MAX)).unwrap()[4..], i64::MAX.to_be_bytes());
}

#[test]
fn char_is_scalar_value_in_four_bytes() {
    assert_eq!(to_bytes(&Value::Char('A')).unwrap(), [0, 0, 0, 4, 0, 0, 0, 0x41]);
    assert_eq!(
        to_bytes(&Value::Char('\u{10FFFF}')).unwrap(),
        [0, 0, 0, 4, 0x00, 0x10, 0xff, 0xff]
    );
}

#[test]
fn bytes_are_length_then_content() {
    assert_eq!(
        to_bytes(&Value::Bytes(vec![0, 9, 0])).unwrap(),
        [0, 0, 0, 7, 0, 0, 0, 3, 0, 9, 0]
    );
    assert_eq!(to_bytes(&Value::Bytes(vec![])).unwrap(), [0, 0, 0, 4, 0, 0, 0, 0]);
}

#[test]
fn str_keeps_every_null_byte() {
    assert_eq!(
        to_bytes(&Value::Str("a\0b".to_string())).unwrap(),
        [0, 0, 0, 7, 0, 0, 0, 3, 0x61, 0, 0x62]
    );
    assert_eq!(
        to_bytes(&Value::Str("a\0\0b\0".to_string())).unwrap(),
        [0, 0, 0, 9, 0, 0, 0, 5, b'a', 0, 0, b'b', 0]
    );
    assert_eq!(to_bytes(&Value::Str("\0".to_string())).unwrap(), [0, 0, 0, 5, 0, 0, 0, 1, 0]);
    assert_eq!(to_bytes(&Value::Str(String::new())).unwrap(), [0, 0, 0, 4, 0, 0, 0, 0]);

    let mut serializer: Serializer<Vec<u8>> = Serializer::new(Vec::new());
    serializer.serialize_str("a\0b").unwrap();
    assert_eq!(serializer.output, [0, 0, 0, 3, 0x61, 0x00, 0x62]);
}

#[test]
fn unit_and_absent_take_no_bytes() {
    assert_eq!(to_bytes(&Value::Unit).unwrap(), [0, 0, 0, 0]);
    assert_eq!(to_bytes(&Value::Absent).unwrap(), [0, 0, 0, 0]);
    assert_eq!(to_bytes(&Value::Tuple(vec![])).unwrap(), [0, 0, 0, 0]);
}

#[test]
fn present_is_the_value_itself() {
    assert_eq!(
        to_bytes(&Value::Present(Box::new(Value::U16(0x0102)))).unwrap(),
        to_bytes(&Value::U16(0x0102)).unwrap()
    );
}

#[test]
fn variant_index_comes_first() {
    let bytes = to_bytes(&Value::Variant(
        0x01020304,
        Box::new(Value::Tuple(vec![Value::U8(9), Value::Bool(true)])),
    ))
    .unwrap();
    assert_eq!(bytes, [0, 0, 0, 9, 1, 2, 3, 4, 9, 0, 0, 0, 1]);
}

#[test]
fn map_is_rejected_when_encoding() {
    let empty = Value::Dict(vec![]);
    let full = Value::Dict(vec![(Value::U8(1), Value::U8(2))]);
    assert_eq!(to_bytes(&empty).unwrap_err().kind(), ErrorKind::Unsupported);
    assert_eq!(to_bytes(&full).unwrap_err().kind(), ErrorKind::Unsupported);
    let nested = Value::Tuple(vec![Value::U8(1), Value::Dict(vec![])]);
    assert_eq!(to_bytes(&nested).unwrap_err().kind(), ErrorKind::Unsupported);

    let mut serializer: Serializer<Vec<u8>> = Serializer::new(Vec::new());
    assert_eq!(
        serializer.serialize_map().unwrap_err(),
        Error::Unsupported("serialize_map")
    );
    assert!(serializer.output.is_empty());
}

#[test]
fn sequence_needs_its_length() {
    let mut serializer: Serializer<Vec<u8>> = Serializer::new(Vec::new());
    assert_eq!(
        serializer.serialize_seq(None).unwrap_err().kind(),
        ErrorKind::Unsupported
    );
    assert!(serializer.output.is_empty());
    serializer.serialize_seq(Some(2)).unwrap();
    serializer.serialize_element(&Value::U8(5)).unwrap();
    serializer.serialize_element(&Value::U8(6)).unwrap();
    serializer.end().unwrap();
    assert_eq!(serializer.output, [0, 0, 0, 2, 5, 6]);
}

#[test]
fn counts_too_large_are_refused() {
    if usize::BITS > 32 {
        let mut serializer: Serializer<Vec<u8>> = Serializer::new(Vec::new());
        let too_long = (u32::MAX as usize) + 1;
        assert_eq!(serializer.serialize_usize(too_long).unwrap_err(), Error::TooLong);
        assert!(serializer.output.is_empty());
    }
    let mut serializer: Serializer<Vec<u8>> = Serializer::new(Vec::new());
    serializer.serialize_usize(u32::MAX as usize).unwrap();
    assert_eq!(serializer.output, [0xff, 0xff, 0xff, 0xff]);
}

#[test]
fn header_counts_since_last_reset() {
    let mut serializer: Serializer<Vec<u8>> = Serializer::new(Vec::new());
    assert_eq!(serializer.create_header(0).unwrap(), [0, 0, 0, 0]);
    serializer.serialize_u64(1).unwrap();
    serializer.push(2);
    serializer.extend_from_slice(&[3, 4, 5]);
    assert_eq!(serializer.create_header(0).unwrap(), [0, 0, 0, 12]);
    assert_eq!(serializer.create_header(0x0100).unwrap(), [0, 0, 1, 12]);
    assert_eq!(
        serializer.create_header(u32::MAX).unwrap_err(),
        Error::TooLong
    );
    assert_eq!(serializer.create_header(u32::MAX - 12).unwrap(), [0xff, 0xff, 0xff, 0xff]);
    serializer.reset_counter();
    assert_eq!(serializer.create_header(0).unwrap(), [0, 0, 0, 0]);
    assert_eq!(serializer.output.len(), 12);
}

#[test]
fn serializer_writes_through_a_borrowed_buffer() {
    let mut buffer = vec![0, 0, 0, 0];
    {
        let mut serializer = Serializer::new(&mut buffer);
        serializer.reserve(16);
        serializer.serialize_value(&Value::U16(0x0a0b)).unwrap();
        let header = serializer.create_header(0).unwrap();
        assert_eq!(header, [0, 0, 0, 2]);
    }
    assert_eq!(buffer, [0, 0, 0, 0, 0x0a, 0x0b]);
}

#[test]
fn serializer_writes_into_bytes_mut() {
    let mut serializer = Serializer::new(bytes::BytesMut::new());
    serializer.reserve(8);
    serializer.serialize_u8(7).unwrap();
    serializer.serialize_str("a\0b").unwrap();
    assert_eq!(&serializer.output[..], [7, 0, 0, 0, 3, b'a', 0, b'b']);
    assert_eq!(serializer.create_header(0).unwrap(), [0, 0, 0, 8]);
}

#[test]
fn error_says_what_went_wrong() {
    assert_eq!(Error::Eof.message(), "EOF");
    assert_eq!(Error::InvalidBoolEncoding.message(), "InvalidBoolEncoding");
    assert_eq!(Error::InvalidChar.message(), "Invalid char");
    let not_utf8 = [b'a', 0xff];
    let utf8_error = std::str::from_utf8(&not_utf8).unwrap_err();
    assert_eq!(
        Error::InvalidStr(utf8_error).message(),
        format!("Invalid str: {:#?}", utf8_error)
    );
    assert_eq!(Error::InvalidStr(utf8_error).kind(), ErrorKind::InvalidStr);
    assert_eq!(
        Error::Unsupported("serialize_map").message(),
        "Unsupported serialize_map"
    );
    assert_eq!(Error::TooLong.message(), "Bytes must not be larger than u32::MAX");
    assert_eq!(Error::custom("bad field").message(), "bad field");
    assert_eq!(Error::custom("bad field"), Error::Message("bad field".to_string()));
    assert_eq!(Error::custom("x").kind(), ErrorKind::Message);
}

/// A sink of the caller's own: keeps the bytes and counts the calls.
#[derive(Default)]
struct Tally {
    bytes: Vec<u8>,
    calls: usize,
}

impl SerOutput for Tally {
    fn extend_from_slice(&mut self, other: &[u8]) {
        self.bytes.extend_from_slice(other);
        self.calls += 1;
    }

    fn push(&mut self, byte: u8) {
        self.bytes.push(byte);
        self.calls += 1;
    }

    fn reserve(&mut self, additional: usize) {
        self.bytes.reserve(additional);
    }
}

#[test]
fn serializer_writes_into_a_sink_of_the_callers_own() {
    let mut serializer: Serializer<Tally> = Serializer::default();
    serializer
        .serialize_value(&Value::Tuple(vec![
            Value::U8(1),
            Value::Str("a\0bcd".to_string()),
        ]))
        .unwrap();
    assert_eq!(serializer.output.bytes, [1, 0, 0, 0, 5, b'a', 0, b'b', b'c', b'd']);
    // One byte, one length, one content.
    assert_eq!(serializer.output.calls, 3);
    assert_eq!(serializer.create_header(0).unwrap(), [0, 0, 0, 10]);
    let tally = serializer.into_output();
    assert_eq!(tally.bytes.len(), 10);
}

#[test]
fn ser_backer_appends() {
    let mut store: Vec<u8> = Vec::new();
    SerBacker::reserve(&mut store, 3);
    SerBacker::push(&mut store, 1);
    SerBacker::extend_from_slice(&mut store, &[2, 3]);
    {
        let mut borrowed = &mut store;
        SerBacker::push(&mut borrowed, 4);
        SerBacker::extend_from_slice(&mut borrowed, &[5]);
        SerBacker::reserve(&mut borrowed, 1);
    }
    assert_eq!(store, [1, 2, 3, 4, 5]);
}
