use ssh_format::{Error, Shape, Transformer, Value};

/// First serialize value, then deserialize it.
fn test_roundtrip(transformer: &mut Transformer, value: &Value, shape: &Shape) {
    transformer.serialize(value).unwrap();
    for _ in 0..4 {
        transformer.get_buffer().remove(0);
    }
    // Ignore the size
    assert_eq!(transformer.deserialize(shape).unwrap().0, *value);
}

#[test]
fn transformer_test_integer() {
    let mut transformer = Transformer::new();

    test_roundtrip(&mut transformer, &Value::U8(0x12), &Shape::U8);
    test_roundtrip(&mut transformer, &Value::U16(0x1234), &Shape::U16);
    test_roundtrip(&mut transformer, &Value::U32(0x12345678), &Shape::U32);
    test_roundtrip(&mut transformer, &Value::U64(0x1234567887654321), &Shape::U64);
}

#[test]
fn transformer_test_boolean() {
    let mut transformer = Transformer::new();

    test_roundtrip(&mut transformer, &Value::Bool(true), &Shape::Bool);
    test_roundtrip(&mut transformer, &Value::Bool(false), &Shape::Bool);
}

#[test]
fn transformer_test_str() {
    test_roundtrip(
        &mut Transformer::new(),
        &Value::Str("Hello, world!".to_string()),
        &Shape::Str,
    );
}

#[test]
fn transformer_test_array() {
    let mut transformer = Transformer::new();

    test_roundtrip(
        &mut transformer,
        &Value::Tuple(
            [0x00_u8, 0x01_u8, 0x10_u8, 0x78_u8]
                .iter()
                .map(|b| Value::U8(*b))
                .collect(),
        ),
        &Shape::Tuple(vec![Shape::U8, Shape::U8, Shape::U8, Shape::U8]),
    );
    test_roundtrip(
        &mut transformer,
        &Value::Tuple(
            [0x0010_u16, 0x0100_u16, 0x1034_u16, 0x7812_u16]
                .iter()
                .map(|n| Value::U16(*n))
                .collect(),
        ),
        &Shape::Tuple(vec![Shape::U16, Shape::U16, Shape::U16, Shape::U16]),
    );
}

#[test]
fn transformer_test_tuple() {
    test_roundtrip(
        &mut Transformer::new(),
        &Value::Tuple(vec![
            Value::U8(0x00),
            Value::U16(0x0100),
            Value::U16(0x1034),
            Value::U16(0x7812),
        ]),
        &Shape::Tuple(vec![Shape::U8, Shape::U16, Shape::U16, Shape::U16]),
    );
}

#[test]
fn transformer_test_struct() {
    struct S {
        v1: u8,
        v2: u16,
        v3: u16,
        v4: u16,
    }
    let s = S {
        v1: 0x00,
        v2: 0x0100,
        v3: 0x1034,
        v4: 0x7812,
    };
    test_roundtrip(
        &mut Transformer::new(),
        &Value::Tuple(vec![
            Value::U8(s.v1),
            Value::U16(s.v2),
            Value::U16(s.v3),
            Value::U16(s.v4),
        ]),
        &Shape::Tuple(vec![Shape::U8, Shape::U16, Shape::U16, Shape::U16]),
    );
}

#[derive(Clone, Copy)]
enum E {
    A,
    B,
    C,
}

/// A unit variant travels as its position in the declaration.
fn value_of_e(e: E) -> Value {
    let index = match e {
        E::A => 0,
        E::B => 1,
        E::C => 2,
    };
    Value::Variant(index, Box::new(Value::Unit))
}

#[test]
fn transformer_test_enum() {
    let shape = Shape::Enum(vec![Shape::Unit, Shape::Unit, Shape::Unit]);

    test_roundtrip(&mut Transformer::new(), &value_of_e(E::A), &shape);
    test_roundtrip(&mut Transformer::new(), &value_of_e(E::B), &shape);
    test_roundtrip(&mut Transformer::new(), &value_of_e(E::C), &shape);
}

#[test]
fn serialize_hands_out_the_whole_message() {
    let mut transformer = Transformer::new();
    assert_eq!(
        transformer.serialize(&Value::U16(0x1234)).unwrap(),
        [0, 0, 0, 2, 0x12, 0x34]
    );
    // The buffer is used again, and the header counts the new message only.
    assert_eq!(
        transformer.serialize(&Value::Str("hi".to_string())).unwrap(),
        [0, 0, 0, 6, 0, 0, 0, 2, b'h', b'i']
    );
    assert_eq!(transformer.serialize(&Value::Unit).unwrap(), [0, 0, 0, 0]);
    assert_eq!(*transformer.get_buffer(), [0, 0, 0, 0]);
}

#[test]
fn deserialize_reads_what_was_put_into_the_buffer() {
    let mut transformer = Transformer::default();
    transformer.get_buffer().extend_from_slice(&[0, 0, 0, 1, 9, 8]);
    let (value, rest) = transformer.deserialize(&Shape::Bool).unwrap();
    assert_eq!(value, Value::Bool(true));
    assert_eq!(rest, [9, 8]);
    transformer.get_buffer().clear();
    assert_eq!(transformer.deserialize(&Shape::Bool).unwrap_err(), Error::Eof);
    let (value, rest) = transformer.deserialize(&Shape::Unit).unwrap();
    assert_eq!(value, Value::Unit);
    assert!(rest.is_empty());
}

#[test]
fn get_ser_is_ready_for_a_new_message() {
    let mut transformer = Transformer::new();
    transformer.serialize(&Value::U64(1)).unwrap();
    {
        let ser = transformer.get_ser();
        // What stood in the room for the header is left there.
        assert_eq!(ser.output, [0, 0, 0, 8]);
        assert_eq!(ser.create_header(0).unwrap(), [0, 0, 0, 0]);
        ser.serialize_u8(5).unwrap();
        assert_eq!(ser.get_output().unwrap(), [0, 0, 0, 1, 5]);
    }
    assert_eq!(*transformer.get_buffer(), [0, 0, 0, 1, 5]);
}

#[test]
fn serialize_fails_as_encoding_does() {
    let mut transformer = Transformer::new();
    assert_eq!(
        transformer.serialize(&Value::Dict(vec![])).unwrap_err(),
        Error::Unsupported("serialize_map")
    );
}

#[test]
fn get_ser_keeps_the_first_four_bytes() {
    // Empty: four zeros.
    let mut transformer = Transformer::new();
    assert_eq!(transformer.get_ser().output, [0, 0, 0, 0]);

    // Shorter than four: kept, and zeros behind.
    let mut transformer = Transformer::new();
    transformer.get_buffer().extend_from_slice(&[7, 8]);
    assert_eq!(transformer.get_ser().output, [7, 8, 0, 0]);

    // Exactly four: kept.
    let mut transformer = Transformer::new();
    transformer.get_buffer().extend_from_slice(&[1, 2, 3, 4]);
    assert_eq!(transformer.get_ser().output, [1, 2, 3, 4]);

    // Longer than four: cut.
    let mut transformer = Transformer::new();
    transformer.get_buffer().extend_from_slice(&[1, 2, 3, 4, 5, 6]);
    {
        let ser = transformer.get_ser();
        assert_eq!(ser.output, [1, 2, 3, 4]);
        // The serializer appends behind the room for the header.
        ser.serialize_u16(0x0a0b).unwrap();
        assert_eq!(ser.get_output().unwrap(), [0, 0, 0, 2, 0x0a, 0x0b]);
    }
    assert_eq!(*transformer.get_buffer(), [0, 0, 0, 2, 0x0a, 0x0b]);
}
