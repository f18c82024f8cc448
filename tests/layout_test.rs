use bincode_trait_derive::codec::{decode_value, encode_value, DecodeError, FieldValue, Layout, LeafCodec, LookupTable, Schema, Value};
use bincode_trait_derive::derive::encode_derive;
use bincode_trait_derive::layout::{layout_of, CodecEntry};
use bincode_trait_derive::schema::{ContextConfig, FieldShape, NamedField, TypeDescriptor, TypeKind, TypePath, Variant};

fn path(s: &str) -> TypePath {
    TypePath { segments: s.split("::").map(|x| x.to_string()).collect() }
}

fn registry() -> Vec<CodecEntry> {
    vec![
        CodecEntry { ty: path("u32"), codec: LeafCodec::Unsigned },
        CodecEntry { ty: path("Particle"), codec: LeafCodec::ById },
        CodecEntry { ty: path("u32"), codec: LeafCodec::ById },
    ]
}

fn point() -> TypeDescriptor {
    TypeDescriptor {
        name: "Point".to_string(),
        kind: TypeKind::Struct(FieldShape::Named(vec![
            NamedField { name: "x".to_string(), ty: path("u32") },
            NamedField { name: "y".to_string(), ty: path("u32") },
        ])),
        generics: vec![],
        context_config: ContextConfig::Unspecified,
    }
}

fn shape() -> TypeDescriptor {
    TypeDescriptor {
        name: "Shape".to_string(),
        kind: TypeKind::Enum(vec![
            Variant { name: "Circle".to_string(), shape: FieldShape::Positional(vec![path("u32")]) },
            Variant {
                name: "Square".to_string(),
                shape: FieldShape::Named(vec![NamedField { name: "side".to_string(), ty: path("u32") }]),
            },
        ]),
        generics: vec![],
        context_config: ContextConfig::Unspecified,
    }
}

#[test]
fn point_layout_first_entry_wins() {
    let l = layout_of(&point(), &registry()).unwrap();
    assert_eq!(l, Layout { tagged: false, arms: vec![vec![LeafCodec::Unsigned, LeafCodec::Unsigned]] });
}

#[test]
fn point_from_descriptor_round_trip() {
    let schema = Schema { types: vec![layout_of(&point(), &registry()).unwrap()] };
    let p = Value { arm: 0, fields: vec![FieldValue::Unsigned(1), FieldValue::Unsigned(2)] };
    let bytes = encode_value(&schema, 0, &p);
    assert_eq!(bytes, vec![1, 2]);
    assert_eq!(decode_value(&schema, 0, &LookupTable::empty(), &bytes), Ok((p, 2)));
}

#[test]
fn shape_from_descriptor() {
    let l = layout_of(&shape(), &registry()).unwrap();
    assert_eq!(l, Layout { tagged: true, arms: vec![vec![LeafCodec::Unsigned], vec![LeafCodec::Unsigned]] });
    let schema = Schema { types: vec![l] };
    let square = Value { arm: 1, fields: vec![FieldValue::Unsigned(5)] };
    assert_eq!(encode_value(&schema, 0, &square), vec![1, 5]);
    assert_eq!(decode_value(&schema, 0, &LookupTable::empty(), &vec![1, 5]), Ok((square, 2)));
    assert_eq!(
        decode_value(&schema, 0, &LookupTable::empty(), &vec![2, 0]),
        Err(DecodeError::UnknownDiscriminant(2))
    );
}

#[test]
fn unit_struct_layout() {
    let d = TypeDescriptor {
        name: "Marker".to_string(),
        kind: TypeKind::Struct(FieldShape::Unit),
        generics: vec![],
        context_config: ContextConfig::Unspecified,
    };
    assert_eq!(layout_of(&d, &vec![]), Some(Layout { tagged: false, arms: vec![vec![]] }));
}

#[test]
fn missing_codec_gives_none() {
    assert_eq!(layout_of(&point(), &vec![]), None);
    let mut d = shape();
    if let TypeKind::Enum(vs) = &mut d.kind {
        vs.push(Variant { name: "Blob".to_string(), shape: FieldShape::Positional(vec![path("String")]) });
    }
    assert_eq!(layout_of(&d, &registry()), None);
}

#[test]
fn union_has_no_layout() {
    let d = TypeDescriptor {
        name: "U".to_string(),
        kind: TypeKind::Union,
        generics: vec![],
        context_config: ContextConfig::Unspecified,
    };
    assert_eq!(layout_of(&d, &registry()), None);
}

#[test]
fn test_associated_generic() {
    let named = |n: &str, t: &str| NamedField { name: n.to_string(), ty: path(t) };
    let ring = TypeDescriptor {
        name: "TestRing".to_string(),
        kind: TypeKind::Struct(FieldShape::Named(vec![])),
        generics: vec![],
        context_config: ContextConfig::Unspecified,
    };
    let d = TypeDescriptor {
        name: "TestAssociatedGeneric".to_string(),
        kind: TypeKind::Struct(FieldShape::Named(vec![
            named("particle", "Particle"),
            named("fish", "Fish"),
            named("generic", "T"),
            named("field", "F"),
            named("el", "F::Element"),
        ])),
        generics: vec!["T".to_string(), "F".to_string()],
        context_config: ContextConfig::Unspecified,
    };
    let plan = encode_derive(&d).unwrap();
    assert_eq!(plan.constraints.bounded, vec![path("T"), path("F"), path("F::Element")]);

    // T = String, F = TestRing, F::Element = an integer
    let reg = vec![
        CodecEntry { ty: path("Particle"), codec: LeafCodec::ById },
        CodecEntry { ty: path("Fish"), codec: LeafCodec::ById },
        CodecEntry { ty: path("T"), codec: LeafCodec::Bytes },
        CodecEntry { ty: path("F"), codec: LeafCodec::Nested(0) },
        CodecEntry { ty: path("F::Element"), codec: LeafCodec::Unsigned },
    ];
    let schema = Schema { types: vec![layout_of(&ring, &reg).unwrap(), layout_of(&d, &reg).unwrap()] };
    let test = Value {
        arm: 0,
        fields: vec![
            FieldValue::Resolved { id: 1, text: "particle".to_string() },
            FieldValue::Resolved { id: 2, text: "fish".to_string() },
            FieldValue::Bytes("test".as_bytes().to_vec()),
            FieldValue::Nested(Box::new(Value { arm: 0, fields: vec![] })),
            FieldValue::Unsigned(42),
        ],
    };
    let encoded = encode_value(&schema, 1, &test);
    assert!(!encoded.is_empty());
    assert_eq!(encoded, vec![1, 2, 4, b't', b'e', b's', b't', 42]);
}
