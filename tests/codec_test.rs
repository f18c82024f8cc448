use bincode_trait_derive::codec::{
    decode_value, encode_value, DecodeError, FieldValue, Layout, LeafCodec, LookupTable, Schema, Value,
};
use bincode_trait_derive::wire::{read_varint, write_varint};

fn unsigned(n: u64) -> FieldValue {
    FieldValue::Unsigned(n)
}

fn resolved(id: u64, text: &str) -> FieldValue {
    FieldValue::Resolved { id, text: text.to_string() }
}

fn struct_layout(fields: Vec<LeafCodec>) -> Schema {
    Schema { types: vec![Layout { tagged: false, arms: vec![fields] }] }
}

fn nested(v: Value) -> FieldValue {
    FieldValue::Nested(Box::new(v))
}

fn particle_fish_context() -> LookupTable {
    LookupTable {
        entries: vec![
            (0, "squark".to_string()),
            (2, "gluino".to_string()),
            (1, "blobfish".to_string()),
            (3, "starfish".to_string()),
        ],
    }
}

#[test]
fn point_round_trip() {
    let layout = struct_layout(vec![LeafCodec::Unsigned, LeafCodec::Unsigned]);
    let point = Value { arm: 0, fields: vec![unsigned(1), unsigned(2)] };
    let bytes = encode_value(&layout, 0, &point);
    assert_eq!(bytes, vec![1, 2]);
    let (decoded, used) = decode_value(&layout, 0, &LookupTable::empty(), &bytes).unwrap();
    assert_eq!(decoded, point);
    assert_eq!(used, 2);
}

fn shape_layout() -> Schema {
    Schema { types: vec![Layout { tagged: true, arms: vec![vec![LeafCodec::Unsigned], vec![LeafCodec::Unsigned]] }] }
}

#[test]
fn shape_square_encodes_discriminant_then_side() {
    let square = Value { arm: 1, fields: vec![unsigned(5)] };
    assert_eq!(encode_value(&shape_layout(), 0, &square), vec![1, 5]);
}

#[test]
fn shape_square_decodes() {
    let (decoded, used) = decode_value(&shape_layout(), 0, &LookupTable::empty(), &vec![1, 5]).unwrap();
    assert_eq!(decoded, Value { arm: 1, fields: vec![unsigned(5)] });
    assert_eq!(used, 2);
}

#[test]
fn shape_unknown_discriminant() {
    let r = decode_value(&shape_layout(), 0, &LookupTable::empty(), &vec![2, 0]);
    assert_eq!(r, Err(DecodeError::UnknownDiscriminant(2)));
}

#[test]
fn lookup_resolves_id() {
    let layout = struct_layout(vec![LeafCodec::ById]);
    let ctx = LookupTable { entries: vec![(7, "seven".to_string())] };
    let (decoded, used) = decode_value(&layout, 0, &ctx, &vec![7]).unwrap();
    assert_eq!(decoded, Value { arm: 0, fields: vec![resolved(7, "seven")] });
    assert_eq!(used, 1);
    // only the id is written, whatever the resolved value holds
    let written = encode_value(&layout, 0, &Value { arm: 0, fields: vec![resolved(7, "anything")] });
    assert_eq!(written, vec![7]);
}

#[test]
fn lookup_unknown_id() {
    let layout = struct_layout(vec![LeafCodec::ById]);
    let ctx = LookupTable { entries: vec![(7, "seven".to_string())] };
    assert_eq!(decode_value(&layout, 0, &ctx, &vec![8]), Err(DecodeError::UnknownId(8)));
}

#[test]
fn lookup_first_entry_wins() {
    let ctx = LookupTable { entries: vec![(4, "first".to_string()), (4, "second".to_string())] };
    assert_eq!(ctx.lookup(4), Some("first".to_string()));
    assert_eq!(ctx.lookup(5), None);
}

#[test]
fn fields_in_declaration_order() {
    let layout = struct_layout(vec![LeafCodec::Unsigned, LeafCodec::Unsigned, LeafCodec::Unsigned]);
    let v = Value { arm: 0, fields: vec![unsigned(300), unsigned(1), unsigned(70000)] };
    let bytes = encode_value(&layout, 0, &v);
    let mut expected = vec![251, 44, 1];
    expected.extend_from_slice(&[1]);
    expected.extend_from_slice(&[252, 0x70, 0x11, 0x01, 0x00]);
    assert_eq!(bytes, expected);
    let (decoded, used) = decode_value(&layout, 0, &LookupTable::empty(), &bytes).unwrap();
    assert_eq!(decoded, v);
    assert_eq!(used, 9);
}

#[test]
fn discriminant_is_declaration_index() {
    let layout = Schema { types: vec![Layout { tagged: true, arms: vec![vec![], vec![LeafCodec::Unsigned], vec![]] }] };
    for (i, fields) in [vec![], vec![unsigned(9)], vec![]].into_iter().enumerate() {
        let v = Value { arm: i, fields };
        let bytes = encode_value(&layout, 0, &v);
        assert_eq!(bytes[0], i as u8);
        let (decoded, used) = decode_value(&layout, 0, &LookupTable::empty(), &bytes).unwrap();
        assert_eq!(decoded, v);
        assert_eq!(used, bytes.len());
    }
    for d in [3u8, 4, 250] {
        assert_eq!(
            decode_value(&layout, 0, &LookupTable::empty(), &vec![d]),
            Err(DecodeError::UnknownDiscriminant(d as u64))
        );
    }
}

#[test]
fn empty_enum_refuses_every_discriminant() {
    let layout = Schema { types: vec![Layout { tagged: true, arms: vec![] }] };
    assert_eq!(
        decode_value(&layout, 0, &LookupTable::empty(), &vec![0]),
        Err(DecodeError::UnknownDiscriminant(0))
    );
}

#[test]
fn unit_struct_round_trip() {
    let layout = struct_layout(vec![]);
    let v = Value { arm: 0, fields: vec![] };
    let bytes = encode_value(&layout, 0, &v);
    assert!(bytes.is_empty());
    assert_eq!(decode_value(&layout, 0, &LookupTable::empty(), &bytes), Ok((v, 0)));
}

#[test]
fn large_values_round_trip() {
    let layout = struct_layout(vec![LeafCodec::Unsigned, LeafCodec::Unsigned, LeafCodec::Unsigned]);
    let v = Value { arm: 0, fields: vec![unsigned(u64::MAX), unsigned(250), unsigned(251)] };
    let bytes = encode_value(&layout, 0, &v);
    assert_eq!(&bytes[..9], &[253, 255, 255, 255, 255, 255, 255, 255, 255]);
    assert_eq!(&bytes[9..], &[250, 251, 251, 0]);
    // trailing bytes are left unread
    let mut longer = bytes.to_vec();
    longer.push(42);
    assert_eq!(decode_value(&layout, 0, &LookupTable::empty(), &longer), Ok((v, bytes.len())));
}

#[test]
fn truncated_input_fails() {
    let layout = struct_layout(vec![LeafCodec::Unsigned, LeafCodec::Unsigned]);
    assert_eq!(decode_value(&layout, 0, &LookupTable::empty(), &vec![1]), Err(DecodeError::InvalidInteger));
    assert_eq!(decode_value(&layout, 0, &LookupTable::empty(), &vec![1, 251, 0]), Err(DecodeError::InvalidInteger));
}

#[test]
fn unknown_marker_fails() {
    let layout = struct_layout(vec![LeafCodec::Unsigned]);
    assert_eq!(decode_value(&layout, 0, &LookupTable::empty(), &vec![254, 0, 0]), Err(DecodeError::InvalidInteger));
    assert_eq!(decode_value(&layout, 0, &LookupTable::empty(), &vec![255]), Err(DecodeError::InvalidInteger));
}

#[test]
fn varint_write_and_read() {
    let mut out = vec![9];
    write_varint(&mut out, 65535);
    assert_eq!(out, vec![9, 251, 255, 255]);
    write_varint(&mut out, 65536);
    assert_eq!(out, vec![9, 251, 255, 255, 252, 0, 0, 1, 0]);
    assert_eq!(read_varint(&out, 1), Some((65535, 4)));
    assert_eq!(read_varint(&out, 4), Some((65536, 9)));
    assert_eq!(read_varint(&out, 9), None);
}

// Types of the particle and fish scenario, each able to nest those before it.
const COW: usize = 0;
const FISH_OR_COW: usize = 1;
const TEST: usize = 2;
const TEST_GENERIC_FISH: usize = 3;
const TEST_GENERIC_COW: usize = 4;

fn particle_fish_schema() -> Schema {
    let plain = |fields: Vec<LeafCodec>| Layout { tagged: false, arms: vec![fields] };
    Schema {
        types: vec![
            // Cow { id }
            plain(vec![LeafCodec::Unsigned]),
            // FishOrCow::Fish(Fish) | FishOrCow::Cow(Cow)
            Layout { tagged: true, arms: vec![vec![LeafCodec::ById], vec![LeafCodec::Nested(COW)]] },
            // Test { particle, fish, cow, fish_or_cow }
            plain(vec![LeafCodec::ById, LeafCodec::ById, LeafCodec::Nested(COW), LeafCodec::Nested(FISH_OR_COW)]),
            // TestGeneric<Fish> { particle, fish, generic }
            plain(vec![LeafCodec::ById, LeafCodec::ById, LeafCodec::ById]),
            // TestGeneric<Cow> { particle, fish, generic }
            plain(vec![LeafCodec::ById, LeafCodec::ById, LeafCodec::Nested(COW)]),
        ],
    }
}

fn cow(id: u64) -> FieldValue {
    nested(Value { arm: 0, fields: vec![unsigned(id)] })
}

#[test]
fn test() {
    let schema = particle_fish_schema();
    let v = Value {
        arm: 0,
        fields: vec![
            resolved(0, "squark"),
            resolved(1, "blobfish"),
            cow(42),
            nested(Value { arm: 0, fields: vec![resolved(3, "starfish")] }),
        ],
    };
    let encoded = encode_value(&schema, TEST, &v);
    assert_eq!(encoded, vec![0, 1, 42, 0, 3]);
    let (decoded, _) = decode_value(&schema, TEST, &particle_fish_context(), &encoded).unwrap();
    assert_eq!(decoded.fields[0], resolved(0, "squark"));
    assert_eq!(decoded.fields[1], resolved(1, "blobfish"));
    assert_eq!(decoded.fields[2], cow(42));
    match &decoded.fields[3] {
        FieldValue::Nested(fish_or_cow) => {
            assert_eq!(fish_or_cow.arm, 0, "Expected Fish variant");
            assert_eq!(fish_or_cow.fields[0], resolved(3, "starfish"));
        }
        _ => panic!("Expected Fish variant"),
    }
}

#[test]
fn test_generic_fish() {
    let schema = particle_fish_schema();
    let v = Value {
        arm: 0,
        fields: vec![resolved(0, "squark"), resolved(1, "blobfish"), resolved(3, "starfish")],
    };
    let encoded = encode_value(&schema, TEST_GENERIC_FISH, &v);
    let (decoded, _) = decode_value(&schema, TEST_GENERIC_FISH, &particle_fish_context(), &encoded).unwrap();
    assert_eq!(decoded.fields[0], resolved(0, "squark"));
    assert_eq!(decoded.fields[1], resolved(1, "blobfish"));
    assert_eq!(decoded.fields[2], resolved(3, "starfish"));
}

#[test]
fn test_generic_cow() {
    let schema = particle_fish_schema();
    let v = Value { arm: 0, fields: vec![resolved(0, "squark"), resolved(1, "blobfish"), cow(42)] };
    let encoded = encode_value(&schema, TEST_GENERIC_COW, &v);
    let (decoded, _) = decode_value(&schema, TEST_GENERIC_COW, &particle_fish_context(), &encoded).unwrap();
    assert_eq!(decoded.fields[0], resolved(0, "squark"));
    assert_eq!(decoded.fields[1], resolved(1, "blobfish"));
    assert_eq!(decoded.fields[2], cow(42));
}

#[test]
fn nested_enum_cow_variant_round_trip() {
    let schema = particle_fish_schema();
    let v = Value { arm: 1, fields: vec![cow(300)] };
    let encoded = encode_value(&schema, FISH_OR_COW, &v);
    assert_eq!(encoded, vec![1, 251, 44, 1]);
    assert_eq!(decode_value(&schema, FISH_OR_COW, &LookupTable::empty(), &encoded), Ok((v, 4)));
}

#[test]
fn nested_error_passes_through() {
    let schema = particle_fish_schema();
    // the nested enum's discriminant is past its last variant
    assert_eq!(
        decode_value(&schema, TEST, &particle_fish_context(), &vec![0, 1, 42, 5]),
        Err(DecodeError::UnknownDiscriminant(5))
    );
    // a fish id that the context does not resolve
    assert_eq!(
        decode_value(&schema, TEST, &particle_fish_context(), &vec![0, 9, 42, 0, 3]),
        Err(DecodeError::UnknownId(9))
    );
}

#[test]
fn invalid_layouts_refused() {
    let empty = LookupTable::empty();
    // no such type
    assert_eq!(decode_value(&particle_fish_schema(), 5, &empty, &vec![0]), Err(DecodeError::InvalidLayout));
    // a nested field that refers to its own type
    let own = Schema { types: vec![Layout { tagged: false, arms: vec![vec![LeafCodec::Nested(0)]] }] };
    assert_eq!(decode_value(&own, 0, &empty, &vec![0]), Err(DecodeError::InvalidLayout));
    // a struct with two bodies
    let two = Schema { types: vec![Layout { tagged: false, arms: vec![vec![], vec![]] }] };
    assert_eq!(decode_value(&two, 0, &empty, &vec![]), Err(DecodeError::InvalidLayout));
}

fn text(s: &str) -> FieldValue {
    FieldValue::Bytes(s.as_bytes().to_vec())
}

#[test]
fn test_basic_struct() {
    // TestStruct { id: u32, data: String } with a fixed context type that decoding does not consult
    let schema = struct_layout(vec![LeafCodec::Unsigned, LeafCodec::Bytes]);
    let test = Value { arm: 0, fields: vec![unsigned(42), text("Hello")] };
    let encoded = encode_value(&schema, 0, &test);
    assert!(!encoded.is_empty());
    let decoded = decode_value(&schema, 0, &LookupTable::empty(), &encoded).unwrap().0;
    assert_eq!(decoded, test);
}

#[test]
fn test_basic_enum() {
    // TestEnum::Simple(u32) | TestEnum::Complex { name: String }
    let schema = Schema {
        types: vec![Layout { tagged: true, arms: vec![vec![LeafCodec::Unsigned], vec![LeafCodec::Bytes]] }],
    };
    let test = Value { arm: 0, fields: vec![unsigned(42)] };
    let encoded = encode_value(&schema, 0, &test);
    assert!(!encoded.is_empty());
    let decoded = decode_value(&schema, 0, &LookupTable::empty(), &encoded).unwrap().0;
    assert_eq!(decoded, test);

    let test = Value { arm: 1, fields: vec![text("desalniettemin")] };
    let encoded = encode_value(&schema, 0, &test);
    assert!(!encoded.is_empty());
    let decoded = decode_value(&schema, 0, &LookupTable::empty(), &encoded).unwrap().0;
    assert_eq!(decoded, test);
}

#[test]
fn byte_string_wire_form() {
    let schema = struct_layout(vec![LeafCodec::Bytes, LeafCodec::Unsigned]);
    let v = Value { arm: 0, fields: vec![text("Hello"), unsigned(7)] };
    let encoded = encode_value(&schema, 0, &v);
    assert_eq!(encoded, vec![5, b'H', b'e', b'l', b'l', b'o', 7]);
    assert_eq!(decode_value(&schema, 0, &LookupTable::empty(), &encoded), Ok((v, 7)));
}

#[test]
fn empty_and_long_byte_strings() {
    let schema = struct_layout(vec![LeafCodec::Bytes, LeafCodec::Bytes]);
    let long = vec![0xabu8; 300];
    let v = Value { arm: 0, fields: vec![text(""), FieldValue::Bytes(long.clone())] };
    let encoded = encode_value(&schema, 0, &v);
    assert_eq!(&encoded[..4], &[0, 251, 44, 1]);
    assert_eq!(encoded.len(), 4 + 300);
    assert_eq!(decode_value(&schema, 0, &LookupTable::empty(), &encoded), Ok((v, 304)));
}

#[test]
fn truncated_byte_string_fails() {
    let schema = struct_layout(vec![LeafCodec::Bytes]);
    assert_eq!(decode_value(&schema, 0, &LookupTable::empty(), &vec![5, b'H', b'i']), Err(DecodeError::Truncated));
    // an announced length far beyond the input
    assert_eq!(
        decode_value(&schema, 0, &LookupTable::empty(), &vec![253, 255, 255, 255, 255, 255, 255, 255, 127]),
        Err(DecodeError::Truncated)
    );
}
