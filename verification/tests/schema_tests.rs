use mapack::schema::{
    mapack, FieldDecl, FieldKind, LayerDecl, LayerFault, LayerSchema, SchemaError,
};

fn field(name: &str, ty: &str) -> FieldDecl {
    FieldDecl { name: name.to_string(), ty: ty.to_string(), no_encode: false, no_decode: false }
}

fn eatery() -> LayerDecl {
    LayerDecl {
        name: "eatery".to_string(),
        fields: vec![
            field("gene", "String"),
            field("is_private", "bool"),
            field("is_for_guest", "bool"),
            field("category", "u8"),
            field("name", "String"),
        ],
        identity: Some("gene".to_string()),
    }
}

fn issue() -> LayerDecl {
    LayerDecl {
        name: "issue".to_string(),
        fields: vec![field("gene", "String"), field("kind", "u8")],
        identity: None,
    }
}

#[test]
fn type_names() {
    assert_eq!(FieldKind::from_type_name(&"bool".to_string()), Some(FieldKind::Bool));
    assert_eq!(FieldKind::from_type_name(&"u8".to_string()), Some(FieldKind::U8));
    assert_eq!(FieldKind::from_type_name(&"u16".to_string()), Some(FieldKind::U16));
    assert_eq!(FieldKind::from_type_name(&"u32".to_string()), Some(FieldKind::U32));
    assert_eq!(FieldKind::from_type_name(&"u64".to_string()), Some(FieldKind::U64));
    assert_eq!(FieldKind::from_type_name(&"String".to_string()), Some(FieldKind::Text));
    assert_eq!(FieldKind::from_type_name(&"i32".to_string()), None);
    assert_eq!(FieldKind::from_type_name(&"string".to_string()), None);
    assert_eq!(FieldKind::from_type_name(&"".to_string()), None);
}

#[test]
fn resolves_two_layers() {
    let schema = mapack(&vec![eatery(), issue()]).unwrap();
    let layers = schema.layers();
    assert_eq!(layers.len(), 2);
    assert_eq!(layers[0].name(), "eatery");
    assert_eq!(layers[1].name(), "issue");
    assert_eq!(
        layers[0].keys(),
        vec!["gene", "is_private", "is_for_guest", "category", "name"]
    );
    assert_eq!(layers[0].identity(), Some(0));
    assert_eq!(layers[1].identity(), None);
    let kinds: Vec<FieldKind> = layers[0].fields().iter().map(|f| f.kind).collect();
    assert_eq!(
        kinds,
        vec![FieldKind::Text, FieldKind::Bool, FieldKind::Bool, FieldKind::U8, FieldKind::Text]
    );
    assert!(layers[0].fields().iter().all(|f| f.auto_encode && f.auto_decode));
    assert_eq!(schema.find_layer(&"issue".to_string()), Some(1));
    assert_eq!(schema.find_layer(&"poi".to_string()), None);
    assert_eq!(layers[0].find_field(&"category".to_string()), Some(3));
    assert_eq!(layers[0].find_field(&"nothing".to_string()), None);
}

#[test]
fn empty_schema_resolves() {
    let schema = mapack(&vec![]).unwrap();
    assert_eq!(schema.layers().len(), 0);
}

#[test]
fn type_without_codec_is_refused() {
    let mut layer = issue();
    layer.fields.push(field("place", "Gene"));
    assert_eq!(LayerSchema::resolve(&layer), Err(LayerFault::NoCodec { field: 2 }));
    assert_eq!(
        mapack(&vec![eatery(), layer.clone()]),
        Err(SchemaError::Layer { layer: 1, fault: LayerFault::NoCodec { field: 2 } })
    );
    // one custom half is not enough
    layer.fields[2].no_decode = true;
    assert_eq!(LayerSchema::resolve(&layer), Err(LayerFault::NoCodec { field: 2 }));
    // both halves custom: accepted, as a custom field
    layer.fields[2].no_encode = true;
    let resolved = LayerSchema::resolve(&layer).unwrap();
    assert_eq!(resolved.fields()[2].kind, FieldKind::Custom);
    assert!(!resolved.fields()[2].auto_encode);
    assert!(!resolved.fields()[2].auto_decode);
}

#[test]
fn known_type_may_switch_one_half_off() {
    let mut layer = issue();
    layer.fields[1].no_decode = true;
    let resolved = LayerSchema::resolve(&layer).unwrap();
    assert_eq!(resolved.fields()[1].kind, FieldKind::U8);
    assert!(resolved.fields()[1].auto_encode);
    assert!(!resolved.fields()[1].auto_decode);
    assert!(resolved.has_custom_decoder());
    assert!(!resolved.has_custom_encoder());
}

#[test]
fn duplicate_field_is_refused() {
    let mut layer = issue();
    layer.fields.push(field("gene", "u8"));
    assert_eq!(LayerSchema::resolve(&layer), Err(LayerFault::DuplicateField { field: 2 }));
}

#[test]
fn first_fault_is_reported() {
    let mut layer = issue();
    layer.fields.push(field("gene", "u8"));
    layer.fields.push(field("odd", "f64"));
    assert_eq!(LayerSchema::resolve(&layer), Err(LayerFault::DuplicateField { field: 2 }));
    layer.fields.swap(2, 3);
    assert_eq!(LayerSchema::resolve(&layer), Err(LayerFault::NoCodec { field: 2 }));
    // a field fault comes before the layer's name
    assert_eq!(
        mapack(&vec![issue(), layer]),
        Err(SchemaError::Layer { layer: 1, fault: LayerFault::NoCodec { field: 2 } })
    );
}

#[test]
fn bad_identity_is_refused() {
    let mut layer = issue();
    layer.identity = Some("nothing".to_string());
    assert_eq!(LayerSchema::resolve(&layer), Err(LayerFault::BadIdentity));
    layer.identity = Some("kind".to_string());
    assert_eq!(LayerSchema::resolve(&layer), Err(LayerFault::BadIdentity));
    layer.identity = Some("gene".to_string());
    assert_eq!(LayerSchema::resolve(&layer).unwrap().identity(), Some(0));
}

#[test]
fn duplicate_layer_is_refused() {
    assert_eq!(
        mapack(&vec![eatery(), issue(), eatery()]),
        Err(SchemaError::DuplicateLayer { layer: 2 })
    );
}
