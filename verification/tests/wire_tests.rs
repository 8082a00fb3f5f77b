use mapack::vector_tile::Tile;
use mapack::wire::{
    parse_feature, parse_layer, parse_tile, parse_value, split_fields, unpack, write_feature,
    write_layer, write_tile, write_value, Field, FieldData, WireError,
};
use mapack::{Feature, Layer, Value};

fn sample_layer() -> Layer {
    Layer {
        version: Some(2),
        name: Some("poi".to_string()),
        features: vec![
            Feature { id: None, tags: vec![0, 0], type_: Some(1), geometry: vec![9, 6914, 3000] },
            Feature { id: Some(12), tags: vec![], type_: None, geometry: vec![9, 0, 300] },
        ],
        keys: vec!["name".to_string()],
        values: vec![Value::from_string("new poi".to_string()), Value::from_uint(300)],
        extent: Some(4096),
    }
}

#[test]
fn value_bytes_are_exact() {
    assert_eq!(write_value(&Value::from_uint(1)), Ok(vec![0x28, 0x01]));
    assert_eq!(write_value(&Value::from_uint(300)), Ok(vec![0x28, 0xac, 0x02]));
    assert_eq!(write_value(&Value::from_bool(true)), Ok(vec![0x38, 0x01]));
    assert_eq!(write_value(&Value::from_bool(false)), Ok(vec![0x38, 0x00]));
    assert_eq!(write_value(&Value::from_string("a".to_string())), Ok(vec![0x0a, 0x01, 0x61]));
    assert_eq!(
        write_value(&Value::from_int(-1)),
        Ok(vec![0x20, 0xff, 0xff, 0xff, 0xff, 0xff, 0xff, 0xff, 0xff, 0xff, 0x01])
    );
    assert_eq!(write_value(&Value::default()), Ok(vec![]));
    let all = Value {
        string_value: Some("é".to_string()),
        float_bits: Some(0x3f80_0000),
        double_bits: Some(1),
        int_value: Some(2),
        uint_value: Some(3),
        sint_value: Some(-2),
        bool_value: Some(true),
    };
    assert_eq!(
        write_value(&all),
        Ok(vec![
            0x0a, 0x02, 0xc3, 0xa9, 0x15, 0x00, 0x00, 0x80, 0x3f, 0x19, 0x01, 0, 0, 0, 0, 0, 0, 0,
            0x20, 0x02, 0x28, 0x03, 0x30, 0x03, 0x38, 0x01,
        ])
    );
    assert_eq!(parse_value(&write_value(&all).unwrap()), Ok(all));
}

#[test]
fn value_reads_each_member() {
    assert_eq!(parse_value(&[0x28, 0xac, 0x02]), Ok(Value::from_uint(300)));
    assert_eq!(parse_value(&[0x0a, 0x01, 0x61]), Ok(Value::from_string("a".to_string())));
    assert_eq!(parse_value(&[0x38, 0x05]), Ok(Value::from_bool(true)));
    assert_eq!(parse_value(&[]), Ok(Value::default()));
    let signed = parse_value(&[0x20, 0xff, 0xff, 0xff, 0xff, 0xff, 0xff, 0xff, 0xff, 0xff, 0x01]);
    assert_eq!(signed, Ok(Value::from_int(-1)));
    let zigzag = parse_value(&[0x30, 0x03]).unwrap();
    assert_eq!(zigzag.sint_value, Some(-2));
    // the later of two fields of one number counts
    assert_eq!(parse_value(&[0x28, 0x01, 0x28, 0x02]), Ok(Value::from_uint(2)));
    // a field that a value does not have is passed over
    assert_eq!(parse_value(&[0x40, 0x01, 0x28, 0x02]), Ok(Value::from_uint(2)));
    // a known number with another kind of content is passed over
    assert_eq!(parse_value(&[0x2a, 0x01, 0x61]), Ok(Value::default()));
}

#[test]
fn malformed_bytes_are_refused() {
    // a length that runs past the end
    assert_eq!(parse_value(&[0x0a, 0x05, 0x61]), Err(WireError::Malformed));
    // a varint that does not end
    assert_eq!(parse_value(&[0x28, 0x80]), Err(WireError::Malformed));
    // field number zero
    assert_eq!(parse_value(&[0x00, 0x01]), Err(WireError::Malformed));
    // a text that is no UTF-8
    assert_eq!(parse_value(&[0x0a, 0x01, 0xff]), Err(WireError::Malformed));
    assert_eq!(parse_tile(&[0x1a, 0x03, 0x0a, 0x01, 0xff]), Err(WireError::Malformed));
    assert_eq!(parse_tile(&[0x1a, 0x05]), Err(WireError::Malformed));
    assert_eq!(parse_tile(b"certainly not a tile"), Err(WireError::Malformed));
    // a version too wide for 32 bits
    assert_eq!(
        parse_layer(&[0x78, 0x80, 0x80, 0x80, 0x80, 0x10]),
        Err(WireError::Malformed)
    );
    // a packed payload that stops inside a number
    assert_eq!(parse_feature(&[0x12, 0x02, 0x01, 0x80]), Err(WireError::Malformed));
    // a kind of shape outside 32 bits
    assert_eq!(
        parse_feature(&[0x18, 0x80, 0x80, 0x80, 0x80, 0x10]),
        Err(WireError::Malformed)
    );
}

#[test]
fn packed_numbers() {
    assert_eq!(unpack(&[]), Ok(vec![]));
    assert_eq!(unpack(&[0x09, 0x82, 0x36, 0xb8, 0x17]), Ok(vec![9, 6914, 3000]));
    assert_eq!(unpack(&[0xff, 0xff, 0xff, 0xff, 0x0f]), Ok(vec![u32::MAX]));
    assert_eq!(unpack(&[0xff, 0xff, 0xff, 0xff, 0x1f]), Err(WireError::Malformed));
    assert_eq!(unpack(&[0x01, 0x80]), Err(WireError::Malformed));
}

#[test]
fn feature_bytes_are_exact() {
    let f = Feature { id: None, tags: vec![0, 0], type_: Some(1), geometry: vec![9, 6914, 3000] };
    let bytes = vec![0x12, 0x02, 0x00, 0x00, 0x18, 0x01, 0x22, 0x05, 0x09, 0x82, 0x36, 0xb8, 0x17];
    assert_eq!(write_feature(&f), Ok(bytes.clone()));
    assert_eq!(parse_feature(&bytes), Ok(f));
    // numbers given one by one are read like packed ones
    let loose = parse_feature(&[0x10, 0x03, 0x10, 0x04, 0x20, 0x09]).unwrap();
    assert_eq!(loose.tags, vec![3, 4]);
    assert_eq!(loose.geometry, vec![9]);
    // an empty packed member is not written
    assert_eq!(write_feature(&Feature::default()), Ok(vec![]));
    let with_id = Feature { id: Some(300), tags: vec![], type_: Some(-1), geometry: vec![] };
    let bytes = write_feature(&with_id).unwrap();
    assert_eq!(bytes[..3], [0x08, 0xac, 0x02]);
    assert_eq!(parse_feature(&bytes), Ok(with_id));
}

#[test]
fn layer_bytes_are_exact() {
    let layer = Layer {
        version: Some(2),
        name: Some("p".to_string()),
        features: vec![Feature { id: None, tags: vec![], type_: Some(1), geometry: vec![9] }],
        keys: vec!["k".to_string()],
        values: vec![Value::from_bool(true)],
        extent: Some(4096),
    };
    let bytes = vec![
        0x78, 0x02, // version
        0x0a, 0x01, 0x70, // name
        0x12, 0x05, 0x18, 0x01, 0x22, 0x01, 0x09, // feature
        0x1a, 0x01, 0x6b, // key
        0x22, 0x02, 0x38, 0x01, // value
        0x28, 0x80, 0x20, // extent
    ];
    assert_eq!(write_layer(&layer), Ok(bytes.clone()));
    assert_eq!(parse_layer(&bytes), Ok(layer.clone()));
    let mut tile_bytes = vec![0x1a, bytes.len() as u8];
    tile_bytes.extend(bytes);
    let tile = Tile { layers: vec![layer] };
    assert_eq!(write_tile(&tile), Ok(tile_bytes.clone()));
    assert_eq!(parse_tile(&tile_bytes), Ok(tile));
}

#[test]
fn tile_goes_through_bytes() {
    let tile = Tile { layers: vec![sample_layer(), Layer::default(), sample_layer()] };
    let bytes = write_tile(&tile).unwrap();
    assert_eq!(parse_tile(&bytes), Ok(tile.clone()));
    assert_eq!(write_tile(&parse_tile(&bytes).unwrap()), Ok(bytes));
    assert_eq!(parse_tile(&[]), Ok(Tile::default()));
    assert_eq!(write_tile(&Tile::default()), Ok(vec![]));
}

#[test]
fn a_field_the_format_does_not_know_is_passed_over() {
    let mut bytes = write_tile(&Tile { layers: vec![sample_layer()] }).unwrap();
    // field 9 with a varint, field 2 with a payload
    bytes.extend([0x48, 0x07, 0x12, 0x01, 0x00]);
    assert_eq!(parse_tile(&bytes), Ok(Tile { layers: vec![sample_layer()] }));
}

#[test]
fn layer_defaults() {
    let layer = Layer::default();
    assert_eq!(layer.version(), 1);
    assert_eq!(layer.name(), "");
    assert_eq!(sample_layer().version(), 2);
    assert_eq!(sample_layer().name(), "poi");
}

#[test]
fn fields_come_in_the_order_of_the_bytes() {
    let bytes = [0x28, 0x01, 0x0a, 0x01, 0x61, 0x15, 1, 2, 3, 4, 0x19, 1, 0, 0, 0, 0, 0, 0, 0, 0x28, 0x02];
    assert_eq!(
        split_fields(&bytes),
        Ok(vec![
            Field { number: 5, data: FieldData::Varint(1), narrow: true },
            Field { number: 1, data: FieldData::Bytes(vec![0x61]), narrow: false },
            Field { number: 2, data: FieldData::Fixed32(0x0403_0201), narrow: false },
            Field { number: 3, data: FieldData::Fixed64(1), narrow: false },
            Field { number: 5, data: FieldData::Varint(2), narrow: true },
        ])
    );
    assert_eq!(split_fields(&[]), Ok(vec![]));
    // a tag that breaks off, a field number of zero, a kind of content that there is not
    assert_eq!(split_fields(&[0x80]), Err(WireError::Malformed));
    assert_eq!(split_fields(&[0x00, 0x00]), Err(WireError::Malformed));
    assert_eq!(split_fields(&[0x0e, 0x00]), Err(WireError::Malformed));
    // content that breaks off
    assert_eq!(split_fields(&[0x15, 1, 2, 3]), Err(WireError::Malformed));
    assert_eq!(split_fields(&[0x08]), Err(WireError::Malformed));
}

#[test]
fn a_group_is_passed_over() {
    // field 1 opens a group that holds field 2, then field 5 follows
    let bytes = [0x0b, 0x10, 0x01, 0x0c, 0x28, 0x02];
    assert_eq!(
        split_fields(&bytes),
        Ok(vec![Field { number: 5, data: FieldData::Varint(2), narrow: true }])
    );
    assert_eq!(parse_value(&bytes), Ok(Value::from_uint(2)));
    // a group that does not close, a close without a group
    assert_eq!(split_fields(&[0x0b, 0x10, 0x01]), Err(WireError::Malformed));
    assert_eq!(split_fields(&[0x0c]), Err(WireError::Malformed));
}

#[test]
fn loose_and_packed_numbers_keep_their_order() {
    let f = parse_feature(&[0x10, 0x01, 0x12, 0x02, 0x02, 0x03, 0x10, 0x04]).unwrap();
    assert_eq!(f.tags, vec![1, 2, 3, 4]);
}

#[test]
fn a_32_bit_member_takes_no_over_long_varint() {
    // the number 2 written in six bytes
    let long = [0x82, 0x80, 0x80, 0x80, 0x80, 0x00];
    let with = |tag: u8| {
        let mut bytes = vec![tag];
        bytes.extend(long);
        bytes
    };
    assert_eq!(
        split_fields(&with(0x28)),
        Ok(vec![Field { number: 5, data: FieldData::Varint(2), narrow: false }])
    );
    // a 64-bit member takes it
    assert_eq!(parse_value(&with(0x28)), Ok(Value::from_uint(2)));
    assert_eq!(parse_feature(&with(0x08)).unwrap().id, Some(2));
    // the version, the extent and a number of the tags or the geometry do not
    assert_eq!(parse_layer(&with(0x78)), Err(WireError::Malformed));
    assert_eq!(parse_layer(&with(0x28)), Err(WireError::Malformed));
    assert_eq!(parse_feature(&with(0x10)), Err(WireError::Malformed));
    assert_eq!(parse_feature(&with(0x20)), Err(WireError::Malformed));
    // five bytes that end below 0x10 are the longest form that is taken
    let five = [0xff, 0xff, 0xff, 0xff, 0x0f];
    let mut bytes = vec![0x78];
    bytes.extend(five);
    assert_eq!(parse_layer(&bytes).unwrap().version, Some(u32::MAX));
    let mut bytes = vec![0x78];
    bytes.extend([0xff, 0xff, 0xff, 0xff, 0x1f]);
    assert_eq!(parse_layer(&bytes), Err(WireError::Malformed));
}
