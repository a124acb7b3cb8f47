//! End-to-end tests of the positional decoder.

use sbe_decode::Error;
use sbe_decode::PrimKind;
use sbe_decode::SbeDeser;
use sbe_decode::Shape;
use sbe_decode::Value;

fn prim(k: PrimKind) -> Shape {
    Shape::Prim(k)
}

fn bytes8(s: &[u8; 8]) -> Value {
    Value::Sequence(s.iter().map(|b| Value::U8(*b)).collect())
}

// SBE 1.0 with errata July 27, 2018, p.68
#[test]
fn sbe_1_0_p68() {
    let framing = Shape::Composite(vec![prim(PrimKind::U32), prim(PrimKind::U16)]);
    let standard = Shape::Composite(vec![
        prim(PrimKind::U16),
        prim(PrimKind::U16),
        prim(PrimKind::U16),
        prim(PrimKind::U16),
    ]);
    let order_type = Shape::Variant(vec![
        Shape::Composite(vec![]),
        Shape::Composite(vec![]),
        Shape::Composite(vec![]),
        Shape::Composite(vec![]),
    ]);
    let command = Shape::Composite(vec![
        Shape::Sequence(Box::new(prim(PrimKind::U8)), 8),
        Shape::Sequence(Box::new(prim(PrimKind::U8)), 8),
        Shape::Sequence(Box::new(prim(PrimKind::U8)), 8),
        prim(PrimKind::Char),
        prim(PrimKind::U64),
        prim(PrimKind::U32),
        order_type,
        prim(PrimKind::I64),
    ]);
    let top = Shape::Composite(vec![framing, standard, command]);

    let bytes = [
        0x00, 0x00, 0x00, 0x44, 0xeb, 0x50, 0x36, 0x00, 0x63, 0x00, 0x5b, 00, 00, 00, 0x4f, 0x52,
        0x44, 0x30, 0x30, 0x30, 0x30, 0x31, 0x41, 0x43, 0x43, 0x54, 0x30, 0x31, 00, 00, 0x47,
        0x45, 0x4d, 0x34, 00, 00, 00, 00, 0x31, 0x80, 0x16, 0xb3, 0x3b, 0x13, 0x65, 0x29, 0x15,
        0x07, 0, 0, 0, 0x32, 0x1a, 0x85, 0x1, 00, 00, 00, 00, 00, 00, 00, 00, 00, 0, 0, 0, 80,
    ];

    let mut deser = SbeDeser::from_reader(bytes.to_vec());
    let t = deser.decode(&top).unwrap();
    println!("{:?}", t);
    let members = match t {
        Value::Composite(ms) => ms,
        other => panic!("expected a composite, got {:?}", other),
    };
    assert_eq!(
        members[2],
        Value::Composite(vec![
            bytes8(&[b'O', b'R', b'D', b'0', b'0', b'0', b'0', b'1']),
            bytes8(&[b'A', b'C', b'C', b'T', b'0', b'1', 0, 0]),
            bytes8(&[b'G', b'E', b'M', b'4', 0, 0, 0, 0]),
            Value::Char('1'),
            Value::U64(1524861082122000000),
            Value::U32(7),
            Value::Variant(1, Box::new(Value::Composite(vec![]))),
            Value::I64(99610),
        ])
    );
}

#[test]
fn decoding_twice_yields_identical_values() {
    let shape = Shape::Composite(vec![
        prim(PrimKind::U16),
        Shape::Variant(vec![prim(PrimKind::U32), Shape::Composite(vec![])]),
        prim(PrimKind::I8),
    ]);
    let bytes = vec![0x34, 0x12, 0x31, 0x78, 0x56, 0x34, 0x12, 0xff];
    let mut first = SbeDeser::from_reader(bytes.clone());
    let mut second = SbeDeser::from_reader(bytes);
    let a = first.decode(&shape).unwrap();
    let b = second.decode(&shape).unwrap();
    assert_eq!(a, b);
    assert_eq!(first.position(), second.position());
}

#[test]
fn composite_consumes_the_sum_of_field_widths() {
    let shape = Shape::Composite(vec![
        prim(PrimKind::U8),
        prim(PrimKind::U16),
        prim(PrimKind::U32),
        prim(PrimKind::U64),
        prim(PrimKind::I16),
    ]);
    let mut deser = SbeDeser::from_reader(vec![0; 32]);
    assert_eq!(deser.position(), 0);
    deser.decode(&shape).unwrap();
    assert_eq!(deser.position(), 1 + 2 + 4 + 8 + 2);
}

#[test]
fn truncation_one_byte_short_is_detected() {
    let shape = Shape::Composite(vec![prim(PrimKind::U32), prim(PrimKind::U16)]);
    let mut deser = SbeDeser::from_reader(vec![0; 5]);
    assert_eq!(deser.decode(&shape), Err(Error::TruncatedInput));

    let mut empty = SbeDeser::from_reader(vec![]);
    assert_eq!(empty.decode(&prim(PrimKind::U8)), Err(Error::TruncatedInput));
}

#[test]
fn variant_tags_map_to_zero_based_indices() {
    let four_way = Shape::Variant(vec![
        Shape::Composite(vec![]),
        Shape::Composite(vec![]),
        Shape::Composite(vec![]),
        Shape::Composite(vec![]),
    ]);
    for (tag, idx) in [(0x31u8, 0usize), (0x32, 1), (0x33, 2), (0x34, 3)] {
        let mut deser = SbeDeser::from_reader(vec![tag]);
        assert_eq!(
            deser.decode(&four_way).unwrap(),
            Value::Variant(idx, Box::new(Value::Composite(vec![])))
        );
        assert_eq!(deser.position(), 1);
    }
    for bad in [0x30u8, 0x35, 0x00, 0xff] {
        let mut deser = SbeDeser::from_reader(vec![bad]);
        assert_eq!(deser.decode(&four_way), Err(Error::InvalidTag));
    }
}

#[test]
fn variant_payload_follows_the_tag() {
    let shape = Shape::Variant(vec![
        prim(PrimKind::U16),
        Shape::Composite(vec![prim(PrimKind::U8), prim(PrimKind::U8)]),
    ]);
    let mut deser = SbeDeser::from_reader(vec![0x32, 0xaa, 0xbb]);
    assert_eq!(
        deser.decode(&shape).unwrap(),
        Value::Variant(
            1,
            Box::new(Value::Composite(vec![Value::U8(0xaa), Value::U8(0xbb)]))
        )
    );
    assert_eq!(deser.position(), 3);
}

#[test]
fn unsupported_shapes_are_rejected_without_consuming() {
    for shape in [
        Shape::Text,
        Shape::Blob,
        Shape::Optional,
        Shape::Mapping,
        Shape::Any,
        prim(PrimKind::F32),
    ] {
        let mut deser = SbeDeser::from_reader(vec![1, 2, 3, 4]);
        assert_eq!(deser.decode(&shape), Err(Error::NotSupported));
        assert_eq!(deser.position(), 0);
    }
}

#[test]
fn booleans_accept_only_zero_and_one() {
    let mut deser = SbeDeser::from_reader(vec![0, 1, 2]);
    assert_eq!(deser.decode(&prim(PrimKind::Bool)).unwrap(), Value::Bool(false));
    assert_eq!(deser.decode(&prim(PrimKind::Bool)).unwrap(), Value::Bool(true));
    assert_eq!(deser.decode(&prim(PrimKind::Bool)), Err(Error::InvalidBool));
}

#[test]
fn scalars_read_little_endian() {
    let mut deser = SbeDeser::from_reader(vec![0x01, 0x02]);
    assert_eq!(deser.decode(&prim(PrimKind::U16)).unwrap(), Value::U16(0x0201));

    let mut deser = SbeDeser::from_reader(vec![0x78, 0x56, 0x34, 0x12]);
    assert_eq!(deser.decode(&prim(PrimKind::U32)).unwrap(), Value::U32(0x12345678));

    let mut deser = SbeDeser::from_reader(vec![1, 2, 3, 4, 5, 6, 7, 8]);
    assert_eq!(deser.decode(&prim(PrimKind::U64)).unwrap(), Value::U64(0x0807060504030201));

    let mut deser = SbeDeser::from_reader(vec![0x41]);
    assert_eq!(deser.decode(&prim(PrimKind::Char)).unwrap(), Value::Char('A'));
}

#[test]
fn signed_scalars_are_twos_complement() {
    let mut deser = SbeDeser::from_reader(vec![0xff]);
    assert_eq!(deser.decode(&prim(PrimKind::I8)).unwrap(), Value::I8(-1));

    let mut deser = SbeDeser::from_reader(vec![0xfe, 0xff]);
    assert_eq!(deser.decode(&prim(PrimKind::I16)).unwrap(), Value::I16(-2));

    let mut deser = SbeDeser::from_reader(vec![0x7f, 0x00]);
    assert_eq!(deser.decode(&prim(PrimKind::I16)).unwrap(), Value::I16(0x7f));

    let mut deser = SbeDeser::from_reader(vec![0x00, 0x00, 0x00, 0x80]);
    assert_eq!(deser.decode(&prim(PrimKind::I32)).unwrap(), Value::I32(i32::MIN));

    let mut deser = SbeDeser::from_reader(vec![0xff; 8]);
    assert_eq!(deser.decode(&prim(PrimKind::I64)).unwrap(), Value::I64(-1));
}

#[test]
fn doubles_carry_their_bit_pattern() {
    let expected = 1.5f64;
    let mut deser = SbeDeser::from_reader(expected.to_le_bytes().to_vec());
    match deser.decode(&prim(PrimKind::F64)).unwrap() {
        Value::F64Bits(bits) => assert_eq!(f64::from_bits(bits), expected),
        other => panic!("expected a double, got {:?}", other),
    }
}

#[test]
fn empty_composites_and_sequences_consume_nothing() {
    let mut deser = SbeDeser::from_reader(vec![]);
    assert_eq!(
        deser.decode(&Shape::Composite(vec![])).unwrap(),
        Value::Composite(vec![])
    );
    assert_eq!(
        deser
            .decode(&Shape::Sequence(Box::new(prim(PrimKind::U64)), 0))
            .unwrap(),
        Value::Sequence(vec![])
    );
    assert_eq!(deser.position(), 0);
}

#[test]
fn nested_composites_decode_in_declaration_order() {
    let inner = Shape::Composite(vec![prim(PrimKind::U8), prim(PrimKind::U16)]);
    let outer = Shape::Composite(vec![inner, prim(PrimKind::U8)]);
    let mut deser = SbeDeser::from_reader(vec![0x01, 0x02, 0x03, 0x04]);
    assert_eq!(
        deser.decode(&outer).unwrap(),
        Value::Composite(vec![
            Value::Composite(vec![Value::U8(0x01), Value::U16(0x0302)]),
            Value::U8(0x04),
        ])
    );
    assert_eq!(deser.position(), 4);
}

#[test]
fn sequences_decode_each_element() {
    let shape = Shape::Sequence(Box::new(prim(PrimKind::U16)), 3);
    let mut deser = SbeDeser::from_reader(vec![1, 0, 2, 0, 3, 0, 9, 9]);
    assert_eq!(
        deser.decode(&shape).unwrap(),
        Value::Sequence(vec![Value::U16(1), Value::U16(2), Value::U16(3)])
    );
    assert_eq!(deser.position(), 6);
}

#[test]
fn truncation_inside_a_variant_payload() {
    let shape = Shape::Variant(vec![prim(PrimKind::U64)]);
    let mut deser = SbeDeser::from_reader(vec![0x31, 1, 2, 3]);
    assert_eq!(deser.decode(&shape), Err(Error::TruncatedInput));
}

#[test]
fn tag_index_follows_the_offset_convention() {
    assert_eq!(sbe_decode::tag_index(sbe_decode::FIRST_TAG, 4), Ok(0));
    assert_eq!(sbe_decode::tag_index(b'2', 4), Ok(1));
    assert_eq!(sbe_decode::tag_index(b'4', 4), Ok(3));
    assert_eq!(sbe_decode::tag_index(b'5', 4), Err(Error::InvalidTag));
    assert_eq!(sbe_decode::tag_index(b'0', 4), Err(Error::InvalidTag));
}

#[test]
fn trailing_bytes_change_nothing() {
    let shape = Shape::Composite(vec![prim(PrimKind::U16), prim(PrimKind::I8)]);
    let mut exact = SbeDeser::from_reader(vec![0x10, 0x20, 0x7f]);
    let mut padded = SbeDeser::from_reader(vec![0x10, 0x20, 0x7f, 0xde, 0xad]);
    assert_eq!(exact.decode(&shape).unwrap(), padded.decode(&shape).unwrap());
    assert_eq!(exact.position(), padded.position());
}

#[test]
fn first_fault_aborts_the_whole_decode() {
    let shape = Shape::Composite(vec![
        prim(PrimKind::U8),
        prim(PrimKind::Bool),
        prim(PrimKind::U32),
    ]);
    let mut deser = SbeDeser::from_reader(vec![9, 7, 1, 2, 3, 4]);
    assert_eq!(deser.decode(&shape), Err(Error::InvalidBool));
}

#[test]
fn missing_discriminant_is_truncation() {
    let shape = Shape::Variant(vec![Shape::Composite(vec![])]);
    let mut deser = SbeDeser::from_reader(vec![]);
    assert_eq!(deser.decode(&shape), Err(Error::TruncatedInput));
}
