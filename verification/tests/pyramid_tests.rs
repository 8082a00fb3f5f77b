use mapack::codec::{Automatic, EncodeError, FieldValue, Point};
use mapack::pyramid::{zoom_levels, FileContent, StoreError};
use mapack::schema::{FieldDecl, LayerDecl, LayerSchema};
use mapack::wire::{write_tile, WireError};
use mapack::Coordinate;

fn field(name: &str, ty: &str) -> FieldDecl {
    FieldDecl { name: name.to_string(), ty: ty.to_string(), no_encode: false, no_decode: false }
}

fn eatery() -> LayerSchema {
    LayerSchema::resolve(&LayerDecl {
        name: "eatery".to_string(),
        fields: vec![
            field("gene", "String"),
            field("is_private", "bool"),
            field("is_for_guest", "bool"),
            field("category", "u8"),
            field("name", "String"),
        ],
        identity: Some("gene".to_string()),
    })
    .unwrap()
}

fn nameless() -> LayerSchema {
    LayerSchema::resolve(&LayerDecl {
        name: "eatery".to_string(),
        fields: vec![field("gene", "String")],
        identity: None,
    })
    .unwrap()
}

/// The point of latitude 35.55293745336477, longitude 50.38793775563117
/// at each zoom level from 10 to 22.
const WALK: [(u8, u32, u32, u32, u32); 13] = [
    (10, 655, 403, 1334, 1321),
    (11, 1310, 807, 2668, 2642),
    (12, 2621, 1614, 1240, 1187),
    (13, 5242, 3229, 2480, 2373),
    (14, 10485, 6458, 864, 649),
    (15, 20970, 12917, 1728, 1298),
    (16, 41940, 25835, 3457, 2596),
    (17, 83881, 51670, 2819, 1096),
    (18, 167763, 103341, 1542, 2191),
    (19, 335526, 206682, 3084, 285),
    (20, 671053, 413365, 2073, 570),
    (21, 1342107, 826731, 50, 1140),
    (22, 2684214, 1653463, 101, 2280),
];

fn marker(gene: &str, name: &str, at: (u8, u32, u32, u32, u32)) -> Point {
    Point {
        coordinate: Coordinate::from_screen(at.0, at.1, at.2, at.3, at.4),
        values: vec![
            FieldValue::Text(gene.to_string()),
            FieldValue::Bool(false),
            FieldValue::Bool(true),
            FieldValue::UInt(2),
            FieldValue::Text(name.to_string()),
        ],
    }
}

fn genes(points: &[Point]) -> Vec<String> {
    points
        .iter()
        .map(|p| match &p.values[0] {
            FieldValue::Text(s) => s.clone(),
            _ => String::new(),
        })
        .collect()
}

#[test]
fn levels() {
    assert_eq!(zoom_levels(10), (10u8..=22).collect::<Vec<u8>>());
    assert_eq!(zoom_levels(0).len(), 23);
    assert_eq!(zoom_levels(22), vec![22]);
    assert_eq!(zoom_levels(23), Vec::<u8>::new());
    assert!(zoom_levels(10).iter().all(|z| *z >= 10));
}

#[test]
fn pyramid_upsert() {
    let layer = eatery();
    let at = WALK[0];
    let first = marker("ABC", "before", at);
    let file = layer.upsert(&Automatic, at.0, at.1, at.2, &[], &first).unwrap();
    let read = layer.decode(&Automatic, at.0, at.1, at.2, &file).unwrap();
    assert_eq!(read, vec![first.clone()]);
    assert_eq!(genes(&read), vec!["ABC"]);

    let second = marker("ABC", "after", at);
    let file = layer.upsert(&Automatic, at.0, at.1, at.2, &file, &second).unwrap();
    let read = layer.decode(&Automatic, at.0, at.1, at.2, &file).unwrap();
    assert_eq!(read, vec![second]);
    assert_eq!(read[0].values[4], FieldValue::Text("after".to_string()));
}

#[test]
fn upsert_keeps_the_others_in_place() {
    let layer = eatery();
    let at = WALK[2];
    let mut file = Vec::new();
    for gene in ["A1", "ABC", "B2"] {
        file = layer.upsert(&Automatic, at.0, at.1, at.2, &file, &marker(gene, "x", at)).unwrap();
    }
    let changed = marker("ABC", "y", at);
    file = layer.upsert(&Automatic, at.0, at.1, at.2, &file, &changed).unwrap();
    let read = layer.decode(&Automatic, at.0, at.1, at.2, &file).unwrap();
    assert_eq!(genes(&read), vec!["A1", "ABC", "B2"]);
    assert_eq!(read[1], changed);
    assert_eq!(read[0], marker("A1", "x", at));
}

#[test]
fn upsert_points_replaces_every_point_of_the_entity() {
    let layer = eatery();
    let at = WALK[0];
    let existing =
        vec![marker("ABC", "1", at), marker("DEF", "2", at), marker("ABC", "3", at)];
    let point = marker("ABC", "new", at);
    assert_eq!(
        layer.upsert_points(existing.clone(), &point),
        vec![point.clone(), marker("DEF", "2", at), point.clone()]
    );
    let other = marker("XYZ", "new", at);
    let mut appended = existing.clone();
    appended.push(other.clone());
    assert_eq!(layer.upsert_points(existing, &other), appended);
    assert_eq!(layer.upsert_points(vec![], &point), vec![point]);
}

#[test]
fn a_layer_without_identity_only_appends() {
    let layer = nameless();
    let p = Point {
        coordinate: Coordinate::from_screen(10, 1, 1, 1, 1),
        values: vec![FieldValue::Text("ABC".to_string())],
    };
    assert!(!layer.same_entity(&p, &p));
    assert_eq!(layer.upsert_points(vec![p.clone()], &p), vec![p.clone(), p.clone()]);
    assert_eq!(layer.remove_points(&vec![p.clone()], &p), vec![p]);
}

#[test]
fn corrupt_file_is_replaced_on_upsert() {
    let layer = eatery();
    let at = WALK[1];
    let point = marker("ABC", "x", at);
    let fresh = layer.encode_file(&Automatic, &vec![point.clone()]).unwrap();
    assert_eq!(layer.upsert(&Automatic, at.0, at.1, at.2, b"\x1a\x7fgarbage", &point), Ok(fresh));
    assert_eq!(
        layer.decode(&Automatic, at.0, at.1, at.2, b"\x1a\x7fgarbage"),
        Err(WireError::Malformed)
    );
}

#[test]
fn a_file_without_the_layer_gives_way() {
    let layer = eatery();
    let at = WALK[1];
    let point = marker("ABC", "x", at);
    let mut wire = mapack::vector_tile::Tile {
        layers: vec![layer.encode(&Automatic, &vec![marker("DEF", "y", at)]).unwrap()],
    };
    wire.layers[0].name = Some("other".to_string());
    let foreign = write_tile(&wire).unwrap();
    assert_eq!(layer.decode(&Automatic, at.0, at.1, at.2, &foreign), Ok(vec![]));
    let file = layer.upsert(&Automatic, at.0, at.1, at.2, &foreign, &point).unwrap();
    assert_eq!(layer.decode(&Automatic, at.0, at.1, at.2, &file), Ok(vec![point.clone()]));
    // a layer of another version holds no points either
    wire.layers[0].name = Some("eatery".to_string());
    wire.layers[0].version = Some(1);
    let old = write_tile(&wire).unwrap();
    assert_eq!(layer.decode(&Automatic, at.0, at.1, at.2, &old), Ok(vec![]));
    assert_eq!(layer.file_layer(&wire), None);
}

#[test]
fn a_foreign_layer_beside_the_layer_is_passed_over() {
    let layer = eatery();
    let at = WALK[1];
    let held = vec![marker("DEF", "y", at), marker("GHI", "z", at)];
    let own = layer.encode(&Automatic, &held).unwrap();
    let mut foreign = own.clone();
    foreign.name = Some("roads".to_string());
    foreign.features.truncate(1);
    let mut old = own.clone();
    old.version = Some(1);
    old.features.clear();
    for layers in [
        vec![own.clone(), foreign.clone()],
        vec![foreign.clone(), own.clone()],
        vec![old.clone(), own.clone(), foreign.clone(), old.clone()],
    ] {
        let tile = mapack::vector_tile::Tile { layers };
        let bytes = write_tile(&tile).unwrap();
        assert_eq!(layer.decode(&Automatic, at.0, at.1, at.2, &bytes), Ok(held.clone()));
        assert_eq!(
            layer.read_file(&Automatic, at.0, at.1, at.2, &bytes),
            FileContent::Points(held.clone())
        );
        // an upsert keeps what the file held
        let point = marker("ABC", "x", at);
        let file = layer.upsert(&Automatic, at.0, at.1, at.2, &bytes, &point).unwrap();
        assert_eq!(
            layer.decode(&Automatic, at.0, at.1, at.2, &file),
            Ok(vec![held[0].clone(), held[1].clone(), point])
        );
        // a delete takes out the entity and keeps the other
        let left = layer
            .delete(&Automatic, at.0, at.1, at.2, &bytes, &held[0])
            .unwrap()
            .unwrap();
        assert_eq!(layer.decode(&Automatic, at.0, at.1, at.2, &left), Ok(vec![held[1].clone()]));
    }
}

#[test]
fn the_last_layer_of_the_name_is_read() {
    let layer = eatery();
    let at = WALK[1];
    let first = layer.encode(&Automatic, &vec![marker("DEF", "y", at)]).unwrap();
    let second = layer.encode(&Automatic, &vec![marker("GHI", "z", at)]).unwrap();
    let tile = mapack::vector_tile::Tile { layers: vec![first, second] };
    assert_eq!(layer.file_layer(&tile), Some(1));
    let bytes = write_tile(&tile).unwrap();
    assert_eq!(
        layer.decode(&Automatic, at.0, at.1, at.2, &bytes),
        Ok(vec![marker("GHI", "z", at)])
    );
}

#[test]
fn pyramid_delete() {
    let layer = eatery();
    // one file per zoom level, as the walk of a store would keep them
    let mut files: Vec<Vec<u8>> = vec![Vec::new(); 23];
    for gene in ["ABC", "DEF"] {
        for zoom in zoom_levels(10) {
            let at = WALK[zoom as usize - 10];
            let z = zoom as usize;
            files[z] =
                layer.upsert(&Automatic, at.0, at.1, at.2, &files[z], &marker(gene, "x", at)).unwrap();
        }
    }
    for zoom in 0..10usize {
        assert!(files[zoom].is_empty());
    }
    for zoom in 10..=22usize {
        let at = WALK[zoom - 10];
        let read = layer.decode(&Automatic, at.0, at.1, at.2, &files[zoom]).unwrap();
        assert_eq!(genes(&read), vec!["ABC", "DEF"]);
    }
    let before = files.clone();
    for zoom in zoom_levels(10) {
        let at = WALK[zoom as usize - 10];
        let z = zoom as usize;
        let left = layer
            .delete(&Automatic, at.0, at.1, at.2, &files[z], &marker("ABC", "", at))
            .unwrap();
        files[z] = left.expect("the file is rewritten");
    }
    for zoom in 0..10usize {
        assert_eq!(files[zoom], before[zoom]);
    }
    for zoom in 10..=22usize {
        let at = WALK[zoom - 10];
        let read = layer.decode(&Automatic, at.0, at.1, at.2, &files[zoom]).unwrap();
        assert_eq!(genes(&read), vec!["DEF"]);
    }
}

#[test]
fn delete_leaves_some_files_alone() {
    let layer = eatery();
    let at = WALK[0];
    let point = marker("ABC", "x", at);
    // no file, or an empty one
    assert_eq!(layer.delete(&Automatic, at.0, at.1, at.2, &[], &point), Ok(None));
    // a file that is no tile message
    assert_eq!(layer.delete(&Automatic, at.0, at.1, at.2, b"\x1a\x7fgarbage", &point), Ok(None));
    // the last point goes: the file is written all the same
    let file = layer.upsert(&Automatic, at.0, at.1, at.2, &[], &point).unwrap();
    let left = layer.delete(&Automatic, at.0, at.1, at.2, &file, &point).unwrap().unwrap();
    assert_eq!(left, layer.encode_file(&Automatic, &vec![]).unwrap());
    assert!(!left.is_empty());
    assert_eq!(layer.decode(&Automatic, at.0, at.1, at.2, &left), Ok(vec![]));
    // an entity that is not there: the file is rewritten as it is
    let other = marker("DEF", "y", at);
    assert_eq!(layer.delete(&Automatic, at.0, at.1, at.2, &file, &other), Ok(Some(file)));
}

#[test]
fn a_point_that_does_not_fit_is_not_written() {
    let layer = eatery();
    let at = WALK[0];
    let mut point = marker("ABC", "x", at);
    point.values[3] = FieldValue::UInt(1000);
    assert_eq!(
        layer.upsert(&Automatic, at.0, at.1, at.2, &[], &point),
        Err(StoreError::Encode(EncodeError::PointMismatch { point: 0 }))
    );
    let good = marker("DEF", "x", at);
    let file = layer.upsert(&Automatic, at.0, at.1, at.2, &[], &good).unwrap();
    assert_eq!(
        layer.upsert(&Automatic, at.0, at.1, at.2, &file, &point),
        Err(StoreError::Encode(EncodeError::PointMismatch { point: 1 }))
    );
}

#[test]
fn identity_is_the_text_of_the_identity_field() {
    let layer = eatery();
    let point = marker("ABC", "x", WALK[0]);
    assert_eq!(layer.identity_of(&point), Some("ABC".to_string()));
    assert!(layer.same_entity(&point, &marker("ABC", "y", WALK[3])));
    assert!(!layer.same_entity(&point, &marker("ABD", "x", WALK[0])));
    let mut odd = point.clone();
    odd.values[0] = FieldValue::UInt(1);
    assert_eq!(layer.identity_of(&odd), None);
    assert!(!layer.same_entity(&odd, &odd));
    odd.values.clear();
    assert_eq!(layer.identity_of(&odd), None);
    assert_eq!(nameless().identity_of(&point), None);
}

#[test]
fn what_a_file_holds() {
    let layer = eatery();
    let at = WALK[0];
    let point = marker("ABC", "x", at);
    assert_eq!(layer.read_file(&Automatic, at.0, at.1, at.2, &[]), FileContent::Empty);
    assert_eq!(
        layer.read_file(&Automatic, at.0, at.1, at.2, b"\x1a\x7fgarbage"),
        FileContent::Corrupt
    );
    let file = layer.encode_file(&Automatic, &vec![point.clone()]).unwrap();
    assert_eq!(
        layer.read_file(&Automatic, at.0, at.1, at.2, &file),
        FileContent::Points(vec![point.clone()])
    );
    assert_eq!(layer.read_file_with(at.0, at.1, at.2, &file, &vec![]), FileContent::Points(vec![point]));
}

#[test]
fn the_rules_of_a_change() {
    let layer = eatery();
    let at = WALK[0];
    let point = marker("ABC", "new", at);
    let held = vec![marker("DEF", "x", at), marker("ABC", "old", at)];
    assert_eq!(layer.upsert_into(FileContent::Empty, &point), vec![point.clone()]);
    assert_eq!(layer.upsert_into(FileContent::Corrupt, &point), vec![point.clone()]);
    assert_eq!(
        layer.upsert_into(FileContent::Points(held.clone()), &point),
        vec![marker("DEF", "x", at), point.clone()]
    );
    assert_eq!(layer.delete_from(&FileContent::Empty, &point), None);
    assert_eq!(layer.delete_from(&FileContent::Corrupt, &point), None);
    assert_eq!(
        layer.delete_from(&FileContent::Points(held), &point),
        Some(vec![marker("DEF", "x", at)])
    );
    assert_eq!(layer.delete_from(&FileContent::Points(vec![]), &point), Some(vec![]));
}
