use mapack::codec::{Automatic, EncodeError, FieldValue, Point};
use mapack::schema::{mapack, FieldDecl, LayerDecl, TileSchema};
use mapack::tile::{Tile, TileError};
use mapack::wire::{parse_tile, write_tile, WireError};
use mapack::{Coordinate, Feature, Layer, Value};

fn field(name: &str, ty: &str) -> FieldDecl {
    FieldDecl { name: name.to_string(), ty: ty.to_string(), no_encode: false, no_decode: false }
}

fn poi_schema() -> TileSchema {
    mapack(&vec![LayerDecl {
        name: "poi".to_string(),
        fields: vec![field("name", "String")],
        identity: None,
    }])
    .unwrap()
}

fn two_layers() -> TileSchema {
    mapack(&vec![
        LayerDecl {
            name: "eatery".to_string(),
            fields: vec![field("gene", "String"), field("category", "u8")],
            identity: Some("gene".to_string()),
        },
        LayerDecl {
            name: "issue".to_string(),
            fields: vec![field("gene", "String"), field("kind", "u8")],
            identity: None,
        },
    ])
    .unwrap()
}

fn eatery_point(gene: &str, category: u64) -> Point {
    Point {
        coordinate: Coordinate::from_screen(16, 41940, 25835, 100, 200),
        values: vec![FieldValue::Text(gene.to_string()), FieldValue::UInt(category)],
    }
}

#[test]
fn test() {
    // latitude 35.55293745336477, longitude 50.38793775563117 at zoom 16
    let schema = poi_schema();
    let mut my_tile = schema.new_tile();
    let coords = Coordinate::from_screen(16, 41940, 25835, 3457, 2596);

    my_tile.layers[0].push(Point {
        coordinate: coords,
        values: vec![FieldValue::Text("new poi".to_string())],
    });

    let pbf = schema.encode(&Automatic, &my_tile).expect("encode error");

    let old_tile = schema
        .decode(&Automatic, coords.zoom(), coords.tx(), coords.ty(), &pbf)
        .expect("decode error");

    let op = &old_tile.layers[0][0];
    let mp = &my_tile.layers[0][0];

    assert_eq!(mp.values, op.values);
    assert_eq!(mp.coordinate, op.coordinate);
    assert_eq!(old_tile, my_tile);

    assert_eq!(schema.encode(&Automatic, &old_tile).unwrap(), pbf);
}

#[test]
fn new_tile_has_a_slot_per_layer() {
    let tile = two_layers().new_tile();
    assert_eq!(tile.layers.len(), 2);
    assert!(tile.layers[0].is_empty() && tile.layers[1].is_empty());
    assert_eq!(poi_schema().new_tile().layers.len(), 1);
}

#[test]
fn encode_emits_every_layer_in_order() {
    let schema = two_layers();
    let mut tile = schema.new_tile();
    tile.layers[1].push(eatery_point("ABC", 3));
    let wire = schema.encode_tile(&Automatic, &tile).unwrap();
    assert_eq!(wire.layers.len(), 2);
    assert_eq!(wire.layers[0].name(), "eatery");
    assert!(wire.layers[0].features.is_empty());
    assert_eq!(wire.layers[0].keys, vec!["gene", "category"]);
    assert_eq!(wire.layers[1].name(), "issue");
    assert_eq!(wire.layers[1].keys, vec!["gene", "kind"]);
    assert_eq!(wire.layers[1].features.len(), 1);
    assert_eq!(wire.layers[1].values.len(), 2);
    let bytes = schema.encode(&Automatic, &tile).unwrap();
    assert_eq!(write_tile(&wire), Ok(bytes.clone()));
    assert_eq!(parse_tile(&bytes), Ok(wire));
}

#[test]
fn encode_errors() {
    let schema = two_layers();
    assert_eq!(
        schema.encode(&Automatic, &Tile { layers: vec![] }),
        Err(TileError::SlotCount)
    );
    assert_eq!(
        schema.encode_tile(&Automatic, &Tile { layers: vec![vec![], vec![], vec![]] }),
        Err(TileError::SlotCount)
    );
    let mut tile = schema.new_tile();
    tile.layers[0].push(eatery_point("ABC", 3));
    tile.layers[1].push(eatery_point("DEF", 4));
    tile.layers[1].push(eatery_point("GHI", 256));
    assert_eq!(
        schema.encode(&Automatic, &tile),
        Err(TileError::Layer { layer: 1, error: EncodeError::PointMismatch { point: 1 } })
    );
}

#[test]
fn forward_tolerance() {
    let schema = two_layers();
    let mut tile = schema.new_tile();
    tile.layers[0].push(eatery_point("ABC", 3));
    tile.layers[1].push(eatery_point("DEF", 4));
    let mut wire = schema.encode_tile(&Automatic, &tile).unwrap();

    // a layer of another version, a layer of an unknown name, a layer without either
    let mut old = wire.layers[0].clone();
    old.version = Some(1);
    old.features.clear();
    let mut foreign = wire.layers[1].clone();
    foreign.name = Some("roads".to_string());
    foreign.features[0].geometry = vec![9, 1, 1, 2, 2];
    let mut third = wire.layers[1].clone();
    third.version = Some(3);
    wire.layers.insert(0, foreign);
    wire.layers.push(old);
    wire.layers.push(Layer::default());
    wire.layers.push(third);

    assert_eq!(schema.decode_tile(&Automatic, 16, 41940, 25835, &wire), tile);
    let bytes = write_tile(&wire).unwrap();
    assert_eq!(schema.decode(&Automatic, 16, 41940, 25835, &bytes), Ok(tile));
}

#[test]
fn a_tile_of_foreign_layers_is_empty() {
    let schema = two_layers();
    let foreign = Layer {
        version: Some(2),
        name: Some("roads".to_string()),
        features: vec![Feature { id: Some(1), tags: vec![0, 0], type_: Some(2), geometry: vec![] }],
        keys: vec!["class".to_string()],
        values: vec![Value::from_string("path".to_string())],
        extent: Some(4096),
    };
    let wire = mapack::vector_tile::Tile { layers: vec![foreign] };
    assert_eq!(schema.decode_tile(&Automatic, 1, 0, 0, &wire), schema.new_tile());
    assert_eq!(schema.decode(&Automatic, 1, 0, 0, &[]), Ok(schema.new_tile()));
}

#[test]
fn the_later_layer_of_a_name_counts() {
    let schema = two_layers();
    let mut first = schema.new_tile();
    first.layers[0].push(eatery_point("ABC", 3));
    let mut second = schema.new_tile();
    second.layers[0].push(eatery_point("DEF", 4));
    second.layers[0].push(eatery_point("GHI", 5));
    let mut wire = schema.encode_tile(&Automatic, &first).unwrap();
    wire.layers.extend(schema.encode_tile(&Automatic, &second).unwrap().layers);
    assert_eq!(schema.decode_tile(&Automatic, 16, 41940, 25835, &wire), second);
}

#[test]
fn unparsable_bytes_abort_the_decode() {
    let schema = two_layers();
    assert_eq!(
        schema.decode(&Automatic, 1, 0, 0, &[0x1a, 0x09, 0x00]),
        Err(WireError::Malformed)
    );
}

#[test]
fn re_encode_is_identical() {
    let schema = two_layers();
    let mut tile = schema.new_tile();
    for (i, gene) in ["A", "B", "C", "D"].iter().enumerate() {
        let mut p = eatery_point(gene, i as u64);
        // a point that claims another tile than the one decoded for
        p.coordinate = Coordinate::from_screen(3, 1, 2, 4095 - i as u32, i as u32);
        tile.layers[i % 2].push(p);
    }
    let bytes = schema.encode(&Automatic, &tile).unwrap();
    let back = schema.decode(&Automatic, 16, 41940, 25835, &bytes).unwrap();
    assert_ne!(back, tile);
    assert_eq!(schema.encode(&Automatic, &back).unwrap(), bytes);
}

#[test]
fn points_by_layer_name() {
    let schema = two_layers();
    let mut tile = schema.new_tile();
    tile.layers[1].push(eatery_point("ABC", 3));
    assert_eq!(schema.points_of(&tile, &"issue".to_string()), Some(&tile.layers[1]));
    assert_eq!(schema.points_of(&tile, &"eatery".to_string()), Some(&vec![]));
    assert_eq!(schema.points_of(&tile, &"roads".to_string()), None);
    let short = Tile { layers: vec![vec![]] };
    assert_eq!(schema.points_of(&short, &"issue".to_string()), None);
    let copy = schema.duplicate();
    assert_eq!(copy, schema);
}
