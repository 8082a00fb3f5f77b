use mapack::codec::{
    Automatic, DecodeError, EncodeError, FieldCodec, FieldValue, Point, Rejected,
};
use mapack::schema::{FieldDecl, LayerDecl, LayerSchema};
use mapack::{Coordinate, Feature, Layer, Value};

fn field(name: &str, ty: &str) -> FieldDecl {
    FieldDecl { name: name.to_string(), ty: ty.to_string(), no_encode: false, no_decode: false }
}

fn eatery() -> LayerSchema {
    LayerSchema::resolve(&LayerDecl {
        name: "eatery".to_string(),
        fields: vec![
            field("gene", "String"),
            field("is_private", "bool"),
            field("is_for_guest", "bool"),
            field("category", "u8"),
            field("name", "String"),
        ],
        identity: Some("gene".to_string()),
    })
    .unwrap()
}

/// A layer whose `gene` is read by a custom decoder and whose `mark` is a
/// custom field in both directions.
fn guarded() -> LayerSchema {
    LayerSchema::resolve(&LayerDecl {
        name: "guarded".to_string(),
        fields: vec![
            FieldDecl {
                name: "gene".to_string(),
                ty: "String".to_string(),
                no_encode: false,
                no_decode: true,
            },
            field("level", "u16"),
            FieldDecl {
                name: "mark".to_string(),
                ty: "Mark".to_string(),
                no_encode: true,
                no_decode: true,
            },
        ],
        identity: Some("gene".to_string()),
    })
    .unwrap()
}

/// Accepts a gene made of hex digits only; keeps a mark as a signed number.
struct Hex;

impl FieldCodec for Hex {
    fn encode(&self, _layer: &str, field: &str, value: &FieldValue) -> Value {
        match (field, value) {
            ("mark", FieldValue::Raw(v)) => Value::from_int(v.int_value.unwrap_or(0) + 1),
            _ => Value::default(),
        }
    }

    fn decode(&self, _layer: &str, field: &str, wire: &Value) -> Option<FieldValue> {
        match field {
            "gene" => {
                let text = wire.string_value();
                if !text.is_empty() && text.chars().all(|c| c.is_ascii_hexdigit()) {
                    Some(FieldValue::Text(text))
                } else {
                    None
                }
            }
            "mark" => Some(FieldValue::Raw(Value::from_int(wire.int_value.unwrap_or(0) - 1))),
            _ => Some(FieldValue::Bool(true)),
        }
    }
}

fn marker(gene: &str, name: &str, sx: u32, sy: u32) -> Point {
    Point {
        coordinate: Coordinate::from_screen(10, 655, 403, sx, sy),
        values: vec![
            FieldValue::Text(gene.to_string()),
            FieldValue::Bool(true),
            FieldValue::Bool(false),
            FieldValue::UInt(7),
            FieldValue::Text(name.to_string()),
        ],
    }
}

fn feature(tags: Vec<u32>, geometry: Vec<u32>) -> Feature {
    Feature { id: None, tags, type_: Some(1), geometry }
}

#[test]
fn new_point_holds_defaults() {
    let layer = eatery();
    let c = Coordinate::from_screen(3, 1, 2, 10, 20);
    let p = layer.new_point(c);
    assert_eq!(p.coordinate, c);
    assert_eq!(
        p.values,
        vec![
            FieldValue::Text(String::new()),
            FieldValue::Bool(false),
            FieldValue::Bool(false),
            FieldValue::UInt(0),
            FieldValue::Text(String::new()),
        ]
    );
    assert!(layer.fits(&p));
    let q = guarded().new_point(c);
    assert_eq!(q.values[2], FieldValue::Raw(Value::default()));
}

#[test]
fn encode_writes_the_layer_exactly() {
    let layer = eatery();
    let points = vec![marker("ABC", "first", 1334, 1321), marker("DEF", "second", 0, 4095)];
    let wire = layer.encode(&Automatic, &points).unwrap();
    assert_eq!(wire.version, Some(2));
    assert_eq!(wire.extent, Some(4096));
    assert_eq!(wire.name, Some("eatery".to_string()));
    assert_eq!(wire.keys, vec!["gene", "is_private", "is_for_guest", "category", "name"]);
    assert_eq!(
        wire.values,
        vec![
            Value::from_string("ABC".to_string()),
            Value::from_bool(true),
            Value::from_bool(false),
            Value::from_uint(7),
            Value::from_string("first".to_string()),
            Value::from_string("DEF".to_string()),
            Value::from_bool(true),
            Value::from_bool(false),
            Value::from_uint(7),
            Value::from_string("second".to_string()),
        ]
    );
    assert_eq!(
        wire.features,
        vec![
            Feature {
                id: None,
                tags: vec![0, 0, 1, 1, 2, 2, 3, 3, 4, 4],
                type_: Some(1),
                geometry: vec![9, 2668, 5550],
            },
            Feature {
                id: None,
                tags: vec![0, 5, 1, 6, 2, 7, 3, 8, 4, 9],
                type_: Some(1),
                geometry: vec![9, 0, 2],
            },
        ]
    );
}

#[test]
fn encode_of_no_points_keeps_the_keys() {
    let layer = eatery();
    let wire = layer.encode(&Automatic, &vec![]).unwrap();
    assert_eq!(wire.keys.len(), 5);
    assert!(wire.features.is_empty());
    assert!(wire.values.is_empty());
    assert_eq!(wire.version, Some(2));
    assert_eq!(wire.extent, Some(4096));
}

#[test]
fn encode_refuses_a_point_that_does_not_fit() {
    let layer = eatery();
    let good = marker("ABC", "first", 1, 2);
    let mut short = marker("DEF", "second", 1, 2);
    short.values.pop();
    let mut wide = marker("GHI", "third", 1, 2);
    wide.values[3] = FieldValue::UInt(256);
    let mut wrong = marker("JKL", "fourth", 1, 2);
    wrong.values[1] = FieldValue::UInt(1);
    assert_eq!(
        layer.encode(&Automatic, &vec![good.clone(), short.clone(), wide.clone()]),
        Err(EncodeError::PointMismatch { point: 1 })
    );
    assert_eq!(
        layer.encode(&Automatic, &vec![good.clone(), good.clone(), wide]),
        Err(EncodeError::PointMismatch { point: 2 })
    );
    assert_eq!(
        layer.encode(&Automatic, &vec![wrong]),
        Err(EncodeError::PointMismatch { point: 0 })
    );
    assert!(!layer.fits(&short));
    assert!(layer.fits(&good));
}

#[test]
fn decode_point_reads_tags_in_pairs() {
    let layer = eatery();
    let values = vec![
        Value::from_string("ABC".to_string()),
        Value::from_bool(true),
        Value::from_uint(300),
        Value::from_string("place".to_string()),
    ];
    // category 300 narrows to 44; is_for_guest is not named and stays false
    let f = feature(vec![0, 0, 1, 1, 3, 2, 4, 3], vec![9, 2668, 5550]);
    let p = layer.decode_point(&Automatic, 10, 655, 403, &f, &values).unwrap();
    assert_eq!(p.coordinate, Coordinate::from_screen(10, 655, 403, 1334, 1321));
    assert_eq!(
        p.values,
        vec![
            FieldValue::Text("ABC".to_string()),
            FieldValue::Bool(true),
            FieldValue::Bool(false),
            FieldValue::UInt(44),
            FieldValue::Text("place".to_string()),
        ]
    );
}

#[test]
fn decode_point_without_tags_is_a_default_point() {
    let layer = eatery();
    let f = feature(vec![], vec![9, 2, 4]);
    let p = layer.decode_point(&Automatic, 10, 655, 403, &f, &vec![]).unwrap();
    assert_eq!(p, layer.new_point(Coordinate::from_screen(10, 655, 403, 1, 4094)));
}

#[test]
fn decode_point_takes_the_member_of_the_kind() {
    let layer = eatery();
    // a text read as a boolean is false, a boolean read as a text is empty,
    // a text read as a number is zero
    let values = vec![Value::from_string("x".to_string()), Value::from_bool(true)];
    let f = feature(vec![1, 0, 0, 1, 3, 0], vec![9, 0, 0]);
    let p = layer.decode_point(&Automatic, 1, 0, 0, &f, &values).unwrap();
    assert_eq!(p.values[1], FieldValue::Bool(false));
    assert_eq!(p.values[0], FieldValue::Text(String::new()));
    assert_eq!(p.values[3], FieldValue::UInt(0));
}

#[test]
fn later_tag_wins() {
    let layer = eatery();
    let values = vec![Value::from_uint(1), Value::from_uint(2)];
    let f = feature(vec![3, 0, 3, 1], vec![9, 0, 0]);
    let p = layer.decode_point(&Automatic, 1, 0, 0, &f, &values).unwrap();
    assert_eq!(p.values[3], FieldValue::UInt(2));
}

#[test]
fn decode_point_errors() {
    let layer = eatery();
    let values = vec![Value::from_string("ABC".to_string())];
    let decode = |f: &Feature| layer.decode_point(&Automatic, 10, 655, 403, f, &values);
    assert_eq!(decode(&feature(vec![0, 0], vec![9, 2])), Err(DecodeError::BadGeometry));
    assert_eq!(decode(&feature(vec![0, 0], vec![])), Err(DecodeError::BadGeometry));
    assert_eq!(decode(&feature(vec![0, 0], vec![9, 2, 4, 6])), Err(DecodeError::BadGeometry));
    assert_eq!(decode(&feature(vec![0, 0, 1], vec![9, 2, 4])), Err(DecodeError::BadTags));
    // geometry is checked before the tags
    assert_eq!(decode(&feature(vec![0], vec![9, 2])), Err(DecodeError::BadGeometry));
    // key out of range, value out of range
    assert_eq!(
        decode(&feature(vec![5, 0], vec![9, 2, 4])),
        Err(DecodeError::InvalidTagReference)
    );
    assert_eq!(
        decode(&feature(vec![0, 1], vec![9, 2, 4])),
        Err(DecodeError::InvalidTagReference)
    );
    assert_eq!(
        decode(&feature(vec![0, 0, 4, 7], vec![9, 2, 4])),
        Err(DecodeError::InvalidTagReference)
    );
    assert!(decode(&feature(vec![4, 0], vec![9, 2, 4])).is_ok());
}

#[test]
fn custom_decoder_decides() {
    let layer = guarded();
    let values = vec![
        Value::from_string("ABC".to_string()),
        Value::from_string("not hex".to_string()),
        Value::from_uint(70000),
        Value::from_int(41),
    ];
    let ok = feature(vec![0, 0, 1, 2, 2, 3], vec![9, 2, 4]);
    let p = layer.decode_point(&Hex, 4, 1, 1, &ok, &values).unwrap();
    assert_eq!(
        p.values,
        vec![
            FieldValue::Text("ABC".to_string()),
            FieldValue::UInt(70000 % 65536),
            FieldValue::Raw(Value::from_int(40)),
        ]
    );
    let bad = feature(vec![1, 2, 0, 1, 2, 3], vec![9, 2, 4]);
    assert_eq!(
        layer.decode_point(&Hex, 4, 1, 1, &bad, &values),
        Err(DecodeError::FieldDecodeFailed("gene".to_string()))
    );
    // without a decoder for it the field fails as soon as it is named
    assert_eq!(
        layer.decode_point(&Automatic, 4, 1, 1, &ok, &values),
        Err(DecodeError::FieldDecodeFailed("gene".to_string()))
    );
    // an earlier bad reference is reported first
    let mixed = feature(vec![9, 0, 0, 1], vec![9, 2, 4]);
    assert_eq!(
        layer.decode_point(&Hex, 4, 1, 1, &mixed, &values),
        Err(DecodeError::InvalidTagReference)
    );
}

#[test]
fn answers_are_taken_as_given() {
    let layer = guarded();
    let values = vec![Value::from_string("ABC".to_string()), Value::from_uint(5)];
    let f = feature(vec![0, 0, 1, 1], vec![9, 2, 4]);
    let given = vec![Some(FieldValue::Text("XYZ".to_string())), None];
    let p = layer.decode_point_with(4, 1, 1, &f, &values, &given).unwrap();
    assert_eq!(p.values[0], FieldValue::Text("XYZ".to_string()));
    assert_eq!(p.values[1], FieldValue::UInt(5));
    // an answer of another kind than the field counts as none
    let wrong = vec![Some(FieldValue::UInt(1)), None];
    assert_eq!(
        layer.decode_point_with(4, 1, 1, &f, &values, &wrong),
        Err(DecodeError::FieldDecodeFailed("gene".to_string()))
    );
    // a list of answers that is too short counts as none
    assert_eq!(
        layer.decode_point_with(4, 1, 1, &f, &values, &vec![]),
        Err(DecodeError::FieldDecodeFailed("gene".to_string()))
    );
}

#[test]
fn custom_encoder_decides() {
    let layer = guarded();
    let point = Point {
        coordinate: Coordinate::from_screen(4, 1, 1, 1, 2),
        values: vec![
            FieldValue::Text("ABC".to_string()),
            FieldValue::UInt(9),
            FieldValue::Raw(Value::from_int(40)),
        ],
    };
    let wire = layer.encode(&Hex, &vec![point.clone()]).unwrap();
    assert_eq!(
        wire.values,
        vec![Value::from_string("ABC".to_string()), Value::from_uint(9), Value::from_int(41)]
    );
    let back = layer.decode_layer(&Hex, 4, 1, 1, &wire);
    assert_eq!(back, vec![point.clone()]);
    // with the answers handed in, a missing one is the empty value
    let wire = layer.encode_with(&vec![point], &vec![]).unwrap();
    assert_eq!(wire.values[2], Value::default());
}

#[test]
fn partial_feature_resilience() {
    let layer = eatery();
    let points = vec![
        marker("A1", "one", 1, 2),
        marker("B2", "two", 3, 4),
        marker("C3", "three", 5, 6),
        marker("D4", "four", 7, 8),
    ];
    let sound = layer.encode(&Automatic, &points).unwrap();
    assert_eq!(layer.decode_layer(&Automatic, 10, 655, 403, &sound), points);

    let mut broken: Layer = sound.clone();
    broken.features[1].geometry.push(0);
    assert_eq!(
        layer.decode_layer(&Automatic, 10, 655, 403, &broken),
        vec![points[0].clone(), points[2].clone(), points[3].clone()]
    );

    let mut broken: Layer = sound.clone();
    broken.features[0].tags.pop();
    assert_eq!(
        layer.decode_layer(&Automatic, 10, 655, 403, &broken),
        vec![points[1].clone(), points[2].clone(), points[3].clone()]
    );

    let mut broken: Layer = sound.clone();
    broken.features[3].tags[1] = 20;
    assert_eq!(
        layer.decode_layer(&Automatic, 10, 655, 403, &broken),
        vec![points[0].clone(), points[1].clone(), points[2].clone()]
    );

    let mut broken: Layer = sound.clone();
    broken.features[2].tags[0] = 5;
    broken.features[1].geometry.clear();
    assert_eq!(
        layer.decode_layer(&Automatic, 10, 655, 403, &broken),
        vec![points[0].clone(), points[3].clone()]
    );
}

#[test]
fn round_trip_keeps_position_and_values() {
    let layer = eatery();
    let points = vec![marker("ABC", "first", 0, 0), marker("DEF", "second", 4095, 4095)];
    let wire = layer.encode(&Automatic, &points).unwrap();
    let back = layer.decode_layer(&Automatic, 10, 655, 403, &wire);
    assert_eq!(back, points);
    assert_eq!(layer.encode(&Automatic, &back).unwrap(), wire);
}

#[test]
fn value_members() {
    assert_eq!(Value::from_string("a".to_string()).string_value, Some("a".to_string()));
    assert_eq!(Value::from_string("a".to_string()).string_value(), "a");
    assert_eq!(Value::from_bool(true).bool_value, Some(true));
    assert!(Value::from_bool(true).bool_value());
    assert_eq!(Value::from_uint(7).uint_value, Some(7));
    assert_eq!(Value::from_uint(7).uint_value(), 7);
    assert_eq!(Value::from_int(-7).int_value, Some(-7));
    assert_eq!(Value::from_int(-7).uint_value, None);
    assert_eq!(Value::default().string_value(), "");
    assert_eq!(Value::default().uint_value(), 0);
    assert!(!Value::default().bool_value());
    assert_eq!(
        Value::from_uint(1),
        Value {
            string_value: None,
            float_bits: None,
            double_bits: None,
            int_value: None,
            uint_value: Some(1),
            sint_value: None,
            bool_value: None,
        }
    );
}

#[test]
fn rejected_features_are_listed() {
    let layer = eatery();
    let points = vec![
        marker("A1", "one", 1, 2),
        marker("B2", "two", 3, 4),
        marker("C3", "three", 5, 6),
    ];
    let mut wire = layer.encode(&Automatic, &points).unwrap();
    assert_eq!(layer.rejected(&Automatic, 10, 655, 403, &wire), vec![]);
    wire.features[0].geometry.pop();
    wire.features[2].tags.push(0);
    assert_eq!(
        layer.rejected(&Automatic, 10, 655, 403, &wire),
        vec![
            Rejected { feature: 0, error: DecodeError::BadGeometry },
            Rejected { feature: 2, error: DecodeError::BadTags },
        ]
    );
    assert_eq!(layer.decode_layer(&Automatic, 10, 655, 403, &wire), vec![points[1].clone()]);
}
