use std::borrow::Cow;

use ssh_format::{
    from_bytes, to_bytes, ChunkSource, Deserializer, Error, ErrorKind, NoChunks, Shape,
    SliceChunks, Value,
};

/// Generate subslices, plus stuffing empty slices into the returned list.
fn generate_subslices(mut bytes: &[u8], chunk_size: usize) -> Vec<&[u8]> {
    assert_ne!(chunk_size, 0);

    let mut chunks = Vec::new();
    loop {
        for _ in 0..8 {
            // Stuffing empty slices
            chunks.push(&bytes[..0]);
        }

        let n = bytes.len().min(chunk_size);
        chunks.push(&bytes[..n]);
        bytes = &bytes[n..];

        if bytes.is_empty() {
            return chunks;
        }
    }
}

/// First serialize value, then deserialize it.
fn test_roundtrip(value: &Value, shape: &Shape) {
    let serialized = to_bytes(value).unwrap();
    // Ignore the size
    let serialized = &serialized[4..];

    // Test from_bytes
    assert_eq!(from_bytes(shape, serialized).unwrap().0, *value);

    // Test cutting it into multiple small vectors
    for chunk_size in 1..serialized.len() {
        let chunks = generate_subslices(serialized, chunk_size);
        let mut deserializer = Deserializer::new(SliceChunks::new(&chunks));
        let val = deserializer.deserialize_value(shape).unwrap();
        assert_eq!(val, *value);

        let (slice, mut iter) = deserializer.into_inner();

        assert_eq!(slice, &[]);
        assert_eq!(iter.next_chunk(), None);
    }
}

#[test]
fn de_test_integer() {
    test_roundtrip(&Value::U8(0x12), &Shape::U8);
    test_roundtrip(&Value::U16(0x1234), &Shape::U16);
    test_roundtrip(&Value::U32(0x12345678), &Shape::U32);
    test_roundtrip(&Value::U64(0x1234567887654321), &Shape::U64);
}

#[test]
fn de_test_boolean() {
    test_roundtrip(&Value::Bool(true), &Shape::Bool);
    test_roundtrip(&Value::Bool(false), &Shape::Bool);
}

#[test]
fn de_test_str() {
    let s = "Hello, world!";
    let serialized = to_bytes(&Value::Str(s.to_string())).unwrap();
    // Ignore the size
    let mut deserializer = Deserializer::from_bytes(&serialized[4..]);
    let deserialized: Cow<str> = deserializer.deserialize_str().unwrap();
    assert_eq!(deserialized, s);
    assert!(matches!(deserialized, Cow::Borrowed(_)));
}

#[test]
fn test_seq() {
    test_roundtrip(
        &Value::List(vec![
            Value::U8(0x00),
            Value::U8(0x01),
            Value::U8(0x10),
            Value::U8(0x78),
        ]),
        &Shape::List(Box::new(Shape::U8)),
    );
    test_roundtrip(
        &Value::List(vec![
            Value::U16(0x0010),
            Value::U16(0x0100),
            Value::U16(0x1034),
            Value::U16(0x7812),
        ]),
        &Shape::List(Box::new(Shape::U16)),
    );
}

#[test]
fn de_test_tuple() {
    test_roundtrip(
        &Value::Tuple(vec![
            Value::U8(0x00),
            Value::U16(0x0100),
            Value::U16(0x1034),
            Value::U16(0x7812),
        ]),
        &Shape::Tuple(vec![Shape::U8, Shape::U16, Shape::U16, Shape::U16]),
    );
}

#[test]
fn de_test_struct() {
    struct S {
        v1: u8,
        v2: u16,
        v3: u16,
        v4: u16,
    }
    let s = S {
        v1: 0x00,
        v2: 0x0100,
        v3: 0x1034,
        v4: 0x7812,
    };
    test_roundtrip(
        &Value::Tuple(vec![
            Value::U8(s.v1),
            Value::U16(s.v2),
            Value::U16(s.v3),
            Value::U16(s.v4),
        ]),
        &Shape::Tuple(vec![Shape::U8, Shape::U16, Shape::U16, Shape::U16]),
    );
}

#[test]
fn test_struct2() {
    struct S<'a> {
        v1: u8,
        v2: u16,
        v3: u16,
        v4: u16,
        v5: Cow<'a, str>,
    }
    let numbers: Vec<String> = (0..100).map(|n| n.to_string()).collect();
    let s = S {
        v1: 0x00,
        v2: 0x0100,
        v3: 0x1034,
        v4: 0x7812,
        v5: Cow::Owned(numbers.join(", ")),
    };
    test_roundtrip(
        &Value::Tuple(vec![
            Value::U8(s.v1),
            Value::U16(s.v2),
            Value::U16(s.v3),
            Value::U16(s.v4),
            Value::Str(s.v5.into_owned()),
        ]),
        &Shape::Tuple(vec![
            Shape::U8,
            Shape::U16,
            Shape::U16,
            Shape::U16,
            Shape::Str,
        ]),
    );
}

/// Test EOF error
#[test]
fn test_eof_error() {
    assert!(matches!(from_bytes(&Shape::U8, &[]), Err(Error::Eof)));

    let s = "Hello, world!";
    let serialized = to_bytes(&Value::Str(s.to_string())).unwrap();
    assert!(matches!(
        from_bytes(&Shape::Str, &serialized[0..serialized.len() - 1]),
        Err(Error::Eof)
    ));
}

#[test]
fn scenario_decode_u16() {
    let bytes = to_bytes(&Value::U16(0x1234)).unwrap();
    let (value, rest) = from_bytes(&Shape::U16, &bytes[4..]).unwrap();
    assert_eq!(value, Value::U16(0x1234));
    assert!(rest.is_empty());
}

#[test]
fn scenario_decode_str_hi() {
    let bytes = to_bytes(&Value::Str("hi".to_string())).unwrap();
    let (value, rest) = from_bytes(&Shape::Str, &bytes[4..]).unwrap();
    assert_eq!(value, Value::Str("hi".to_string()));
    assert!(rest.is_empty());
}

#[test]
fn scenario_string_one_byte_short() {
    let bytes = to_bytes(&Value::Str("hi".to_string())).unwrap();
    let cut = &bytes[4..bytes.len() - 1];
    assert_eq!(from_bytes(&Shape::Str, cut).unwrap_err(), Error::Eof);
}

#[test]
fn trailing_bytes_are_handed_back() {
    let (value, rest) = from_bytes(&Shape::U8, &[7, 8, 9]).unwrap();
    assert_eq!(value, Value::U8(7));
    assert_eq!(rest, [8, 9]);
    let (value, rest) = from_bytes(&Shape::Unit, &[1]).unwrap();
    assert_eq!(value, Value::Unit);
    assert_eq!(rest, [1]);
}

#[test]
fn boolean_domain() {
    assert_eq!(from_bytes(&Shape::Bool, &[0, 0, 0, 0]).unwrap().0, Value::Bool(false));
    assert_eq!(from_bytes(&Shape::Bool, &[0, 0, 0, 1]).unwrap().0, Value::Bool(true));
    for bad in [[0, 0, 0, 2], [0, 0, 1, 0], [1, 0, 0, 0], [0xff, 0xff, 0xff, 0xff], [0, 0, 1, 1]] {
        assert_eq!(
            from_bytes(&Shape::Bool, &bad).unwrap_err(),
            Error::InvalidBoolEncoding
        );
    }
    assert_eq!(from_bytes(&Shape::Bool, &[0, 0, 0]).unwrap_err(), Error::Eof);
}

#[test]
fn character_must_be_a_scalar_value() {
    assert_eq!(from_bytes(&Shape::Char, &[0, 0, 0, 0x41]).unwrap().0, Value::Char('A'));
    assert_eq!(
        from_bytes(&Shape::Char, &[0, 0x10, 0xff, 0xff]).unwrap().0,
        Value::Char('\u{10FFFF}')
    );
    assert_eq!(from_bytes(&Shape::Char, &[0, 0, 0xd7, 0xff]).unwrap().0, Value::Char('\u{D7FF}'));
    assert_eq!(from_bytes(&Shape::Char, &[0, 0, 0xd8, 0x00]).unwrap_err(), Error::InvalidChar);
    assert_eq!(from_bytes(&Shape::Char, &[0, 0, 0xdf, 0xff]).unwrap_err(), Error::InvalidChar);
    assert_eq!(from_bytes(&Shape::Char, &[0, 0x11, 0, 0]).unwrap_err(), Error::InvalidChar);
    assert_eq!(from_bytes(&Shape::Char, &[0xff, 0, 0, 0]).unwrap_err(), Error::InvalidChar);
}

#[test]
fn string_must_be_utf8() {
    assert_eq!(
        from_bytes(&Shape::Str, &[0, 0, 0, 2, 0xc3, 0xa9]).unwrap().0,
        Value::Str("é".to_string())
    );
    let bad = [0xc3_u8, 0x28];
    assert_eq!(
        from_bytes(&Shape::Str, &[0, 0, 0, 2, 0xc3, 0x28]).unwrap_err(),
        Error::InvalidStr(std::str::from_utf8(&bad).unwrap_err())
    );
    let error = from_bytes(&Shape::Str, &[0, 0, 0, 3, b'a', b'b', 0xff]).unwrap_err();
    assert_eq!(error.kind(), ErrorKind::InvalidStr);
    assert!(matches!(error, Error::InvalidStr(e) if e.valid_up_to() == 2));
    // The same bytes are fine as a byte string.
    assert_eq!(
        from_bytes(&Shape::Bytes, &[0, 0, 0, 2, 0xc3, 0x28]).unwrap().0,
        Value::Bytes(vec![0xc3, 0x28])
    );
    // Not well-formed, and copied together from two chunks.
    let chunks: [&[u8]; 2] = [&[0, 0, 0, 2, 0xc3], &[0x28]];
    let mut deserializer = Deserializer::new(SliceChunks::new(&chunks));
    assert_eq!(
        deserializer.deserialize_str().unwrap_err(),
        Error::InvalidStr(std::str::from_utf8(&bad).unwrap_err())
    );
}

#[test]
fn signed_numbers_come_back() {
    let cases = [
        (Value::I8(-1), Shape::I8),
        (Value::I8(i8::MIN), Shape::I8),
        (Value::I8(i8::MAX), Shape::I8),
        (Value::I8(0), Shape::I8),
        (Value::I16(-2), Shape::I16),
        (Value::I16(i16::MIN), Shape::I16),
        (Value::I16(i16::MAX), Shape::I16),
        (Value::I32(-0x12345678), Shape::I32),
        (Value::I32(i32::MIN), Shape::I32),
        (Value::I32(i32::MAX), Shape::I32),
        (Value::I64(-0x1234567887654321), Shape::I64),
        (Value::I64(i64::MIN), Shape::I64),
        (Value::I64(i64::MAX), Shape::I64),
        (Value::U64(u64::MAX), Shape::U64),
    ];
    for (value, shape) in cases.iter() {
        test_roundtrip(value, shape);
    }
    assert_eq!(from_bytes(&Shape::I8, &[0x80]).unwrap().0, Value::I8(-128));
    assert_eq!(from_bytes(&Shape::I16, &[0xff, 0xfe]).unwrap().0, Value::I16(-2));
    assert_eq!(
        from_bytes(&Shape::I32, &[0x80, 0, 0, 0]).unwrap().0,
        Value::I32(i32::MIN)
    );
    assert_eq!(
        from_bytes(&Shape::I64, &[0xff; 8]).unwrap().0,
        Value::I64(-1)
    );
}

#[test]
fn round_trip_of_nested_values() {
    let shape = Shape::Tuple(vec![
        Shape::Enum(vec![
            Shape::Unit,
            Shape::U8,
            Shape::Tuple(vec![Shape::Str, Shape::Bytes]),
        ]),
        Shape::List(Box::new(Shape::Tuple(vec![Shape::Char, Shape::Bool]))),
        Shape::Unit,
        Shape::List(Box::new(Shape::Unit)),
        Shape::I64,
    ]);
    let value = Value::Tuple(vec![
        Value::Variant(
            2,
            Box::new(Value::Tuple(vec![
                Value::Str("héllo wörld".to_string()),
                Value::Bytes(vec![0, 1, 2, 0, 255]),
            ])),
        ),
        Value::List(vec![
            Value::Tuple(vec![Value::Char('x'), Value::Bool(true)]),
            Value::Tuple(vec![Value::Char('\u{1F600}'), Value::Bool(false)]),
        ]),
        Value::Unit,
        Value::List(vec![Value::Unit, Value::Unit, Value::Unit]),
        Value::I64(-42),
    ]);
    test_roundtrip(&value, &shape);
    test_roundtrip(&Value::List(vec![]), &Shape::List(Box::new(Shape::U64)));
    test_roundtrip(&Value::Str(String::new()), &Shape::Str);
    test_roundtrip(&Value::Bytes(vec![]), &Shape::Bytes);
}

#[test]
fn string_with_null_round_trips() {
    let bytes = to_bytes(&Value::Str("a\0b".to_string())).unwrap();
    assert_eq!(
        from_bytes(&Shape::Str, &bytes[4..]).unwrap(),
        (Value::Str("a\0b".to_string()), &[][..])
    );
    test_roundtrip(&Value::Str("\0a\0\0b\0".to_string()), &Shape::Str);
}

#[test]
fn every_shorter_beginning_fails_with_eof() {
    let shape = Shape::Tuple(vec![
        Shape::U16,
        Shape::Str,
        Shape::List(Box::new(Shape::U32)),
        Shape::Enum(vec![Shape::Unit, Shape::Bool]),
    ]);
    let value = Value::Tuple(vec![
        Value::U16(0x0102),
        Value::Str("hello".to_string()),
        Value::List(vec![Value::U32(1), Value::U32(2)]),
        Value::Variant(1, Box::new(Value::Bool(true))),
    ]);
    let bytes = to_bytes(&value).unwrap();
    let payload = &bytes[4..];
    assert_eq!(from_bytes(&shape, payload).unwrap().0, value);
    for k in 0..payload.len() {
        assert_eq!(from_bytes(&shape, &payload[..k]).unwrap_err(), Error::Eof);
        // The same through chunks.
        let chunks = generate_subslices(&payload[..k], 3);
        let mut deserializer = Deserializer::new(SliceChunks::new(&chunks));
        assert_eq!(deserializer.deserialize_value(&shape).unwrap_err(), Error::Eof);
    }
}

#[test]
fn enum_index_picks_the_variant() {
    let shape = Shape::Enum(vec![Shape::U8, Shape::U16, Shape::Unit]);
    assert_eq!(
        from_bytes(&shape, &[0, 0, 0, 0, 7, 8]).unwrap(),
        (Value::Variant(0, Box::new(Value::U8(7))), &[8_u8][..])
    );
    assert_eq!(
        from_bytes(&shape, &[0, 0, 0, 1, 7, 8]).unwrap(),
        (Value::Variant(1, Box::new(Value::U16(0x0708))), &[][..])
    );
    assert_eq!(
        from_bytes(&shape, &[0, 0, 0, 2, 7, 8]).unwrap(),
        (Value::Variant(2, Box::new(Value::Unit)), &[7_u8, 8][..])
    );
    assert_eq!(
        from_bytes(&shape, &[0, 0, 0, 3, 7, 8]).unwrap_err().kind(),
        ErrorKind::Message
    );
    assert_eq!(from_bytes(&shape, &[0, 0, 0]).unwrap_err(), Error::Eof);

    let mut deserializer = Deserializer::from_bytes(&[0x01, 0x02, 0x03, 0x04, 9]);
    assert_eq!(deserializer.deserialize_enum().unwrap(), 0x01020304);
    deserializer.unit_variant().unwrap();
    assert_eq!(deserializer.into_inner().0, [9]);
}

#[test]
fn map_and_unknown_shapes_are_rejected_when_decoding() {
    let input = [0_u8, 0, 0, 0, 1, 2, 3];
    let map = Shape::Dict(Box::new(Shape::U8), Box::new(Shape::U8));
    assert_eq!(from_bytes(&map, &input).unwrap_err().kind(), ErrorKind::Unsupported);
    assert_eq!(from_bytes(&map, &[]).unwrap_err().kind(), ErrorKind::Unsupported);
    assert_eq!(from_bytes(&Shape::Any, &input).unwrap_err().kind(), ErrorKind::Unsupported);
    let optional = Shape::Optional(Box::new(Shape::U8));
    assert_eq!(from_bytes(&optional, &input).unwrap_err().kind(), ErrorKind::Unsupported);

    let mut deserializer = Deserializer::from_bytes(&input);
    assert_eq!(
        deserializer.deserialize_map().unwrap_err(),
        Error::Unsupported("deserialize_map")
    );
    assert_eq!(
        deserializer.deserialize_any().unwrap_err(),
        Error::Unsupported("deserialize_any")
    );
    assert_eq!(
        deserializer.deserialize_option().unwrap_err(),
        Error::Unsupported("deserialize_option")
    );
    assert_eq!(
        deserializer.deserialize_identifier().unwrap_err(),
        Error::Unsupported("deserialize_identifier")
    );
    assert_eq!(
        deserializer.deserialize_ignored_any().unwrap_err(),
        Error::Unsupported("deserialize_ignored_any")
    );
    assert_eq!(deserializer.into_inner().0, input);
}

#[test]
fn borrowed_within_a_chunk_and_owned_across_chunks() {
    let chunks: [&[u8]; 5] = [&[], &[1, 2, 3], &[], &[4], &[5, 6]];
    let mut deserializer = Deserializer::new(SliceChunks::new(&chunks));
    assert!(matches!(deserializer.next_bytes(2).unwrap(), Cow::Borrowed(&[1, 2])));
    let crossing = deserializer.next_bytes(3).unwrap();
    assert!(matches!(crossing, Cow::Owned(_)));
    assert_eq!(&crossing[..], [3, 4, 5]);
    assert!(matches!(deserializer.next_bytes(1).unwrap(), Cow::Borrowed(&[6])));
    assert!(matches!(deserializer.next_bytes(0).unwrap(), Cow::Borrowed(&[])));
    assert_eq!(deserializer.next_bytes(1).unwrap_err(), Error::Eof);
}

#[test]
fn primitive_reads_cross_chunks() {
    let chunks: [&[u8]; 6] = [&[0x12], &[], &[0x34, 0x56], &[0x78, 0x9a], &[], &[0xbc]];
    let mut deserializer = Deserializer::new(SliceChunks::new(&chunks));
    assert_eq!(deserializer.next_u32().unwrap(), 0x12345678);
    assert_eq!(deserializer.deserialize_u16().unwrap(), 0x9abc);
    assert_eq!(deserializer.next_byte().unwrap_err(), Error::Eof);

    let mut deserializer = Deserializer::new(SliceChunks::new(&chunks));
    let mut buffer = [0_u8; 5];
    deserializer.fill_buffer(&mut buffer).unwrap();
    assert_eq!(buffer, [0x12, 0x34, 0x56, 0x78, 0x9a]);
    assert_eq!(deserializer.next_bytes_const::<1>().unwrap(), [0xbc]);
    assert_eq!(deserializer.next_bytes_const::<1>().unwrap_err(), Error::Eof);

    let mut deserializer = Deserializer::new(SliceChunks::new(&chunks));
    let mut buffer = [0_u8; 7];
    assert_eq!(deserializer.fill_buffer(&mut buffer).unwrap_err(), Error::Eof);
    assert_eq!(deserializer.next_byte().unwrap_err(), Error::Eof);
}

#[test]
fn end_of_input_in_the_middle_of_a_number() {
    assert_eq!(from_bytes(&Shape::U32, &[1, 2, 3]).unwrap_err(), Error::Eof);
    assert_eq!(from_bytes(&Shape::U64, &[1, 2, 3, 4, 5, 6, 7]).unwrap_err(), Error::Eof);
    assert_eq!(from_bytes(&Shape::U16, &[1]).unwrap_err(), Error::Eof);
    assert_eq!(from_bytes(&Shape::I8, &[]).unwrap_err(), Error::Eof);
    let shape = Shape::List(Box::new(Shape::U16));
    assert_eq!(from_bytes(&shape, &[0, 0, 0, 2, 0, 1, 0]).unwrap_err(), Error::Eof);
    assert_eq!(from_bytes(&shape, &[0xff, 0xff, 0xff, 0xff]).unwrap_err(), Error::Eof);
}

#[test]
fn sequence_count_and_tuple_access() {
    let mut deserializer = Deserializer::from_bytes(&[0, 0, 0, 2, 5, 6, 7]);
    let mut access = deserializer.deserialize_seq().unwrap();
    assert_eq!(access.size_hint(), Some(2));
    let mut seen = Vec::new();
    while access.next_element() {
        seen.push(deserializer.deserialize_u8().unwrap());
    }
    assert_eq!(seen, [5, 6]);
    assert_eq!(access.size_hint(), Some(0));
    assert!(!access.next_element());

    let access = deserializer.deserialize_tuple(3).unwrap();
    assert_eq!(access.size_hint(), Some(3));
    let access = deserializer.deserialize_struct(&["a", "b"]).unwrap();
    assert_eq!(access.size_hint(), Some(2));
    deserializer.deserialize_unit().unwrap();
    assert_eq!(deserializer.into_inner().0, [7]);
}

#[test]
fn no_chunks_is_always_dry() {
    let mut source = NoChunks;
    assert_eq!(source.next_chunk(), None);
    assert_eq!(source.next_chunk(), None);
    let mut deserializer = Deserializer::new(NoChunks);
    assert_eq!(deserializer.next_byte().unwrap_err(), Error::Eof);
    let (slice, _) = deserializer.into_inner();
    assert!(slice.is_empty());
}

/// A source of the caller's own: chunks from any iterator that stays dry
/// once it has run dry.
struct FromIter<It>(It);

impl<'de, It> ChunkSource<'de> for FromIter<It>
where
    It: std::iter::FusedIterator + Iterator<Item = &'de [u8]>,
{
    fn next_chunk(&mut self) -> Option<&'de [u8]> {
        self.0.next()
    }
}

#[test]
fn deserializer_reads_from_a_source_of_the_callers_own() {
    let value = Value::Tuple(vec![
        Value::Str("Hello, world!".to_string()),
        Value::U32(0xdeadbeef),
    ]);
    let shape = Shape::Tuple(vec![Shape::Str, Shape::U32]);
    let bytes = to_bytes(&value).unwrap();
    let payload = &bytes[4..];
    for chunk_size in 1..payload.len() {
        let mut deserializer = Deserializer::new(FromIter(payload.chunks(chunk_size).fuse()));
        assert_eq!(deserializer.deserialize_value(&shape).unwrap(), value);
        let (slice, mut source) = deserializer.into_inner();
        assert!(slice.is_empty());
        assert_eq!(source.next_chunk(), None);
    }
    let mut deserializer = Deserializer::from_parts(&payload[..3], FromIter(std::iter::once(&payload[3..])));
    assert_eq!(deserializer.deserialize_value(&shape).unwrap(), value);
}

#[test]
fn into_inner_after_a_typed_read() {
    let chunks: [&[u8]; 2] = [&[1, 2], &[3]];
    let mut deserializer = Deserializer::new(SliceChunks::new(&chunks));
    assert_eq!(deserializer.deserialize_u8().unwrap(), 1);
    let (slice, mut source) = deserializer.into_inner();
    // The rest of the chunk in hand, and the chunks not pulled yet.
    assert_eq!(slice, [2]);
    assert_eq!(source.next_chunk(), Some(&[3_u8][..]));
    assert_eq!(source.next_chunk(), None);

    // A string that ends with its chunk leaves the next chunk where it is.
    let chunks: [&[u8]; 3] = [&[0, 0, 0, 2, b'h', b'i'], &[], &[9]];
    let mut deserializer = Deserializer::new(SliceChunks::new(&chunks));
    assert_eq!(deserializer.deserialize_str().unwrap(), "hi");
    let (slice, mut source) = deserializer.into_inner();
    assert!(slice.is_empty());
    assert_eq!(source.next_chunk(), Some(&[][..]));
    assert_eq!(source.next_chunk(), Some(&[9_u8][..]));

    // An empty string behind the end of a chunk pulls the next one.
    let chunks: [&[u8]; 2] = [&[0, 0, 0, 0], &[9]];
    let mut deserializer = Deserializer::new(SliceChunks::new(&chunks));
    let value = deserializer.deserialize_value(&Shape::Str).unwrap();
    assert_eq!(value, Value::Str(String::new()));
    let (slice, mut source) = deserializer.into_inner();
    assert_eq!(slice, [9]);
    assert_eq!(source.next_chunk(), None);

    // A whole value: the feed stops behind its last part.
    let chunks: [&[u8]; 3] = [&[0, 7], &[8, 1, 2], &[3]];
    let mut deserializer = Deserializer::new(SliceChunks::new(&chunks));
    let shape = Shape::Tuple(vec![Shape::U16, Shape::U8]);
    assert_eq!(
        deserializer.deserialize_value(&shape).unwrap(),
        Value::Tuple(vec![Value::U16(7), Value::U8(8)])
    );
    let (slice, mut source) = deserializer.into_inner();
    assert_eq!(slice, [1, 2]);
    assert_eq!(source.next_chunk(), Some(&[3_u8][..]));
}
