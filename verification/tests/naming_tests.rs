use mapack::naming::{is_camel_ready, point_name, to_camelcase};

#[test]
fn camel_case() {
    assert_eq!(to_camelcase("poi"), "Poi");
    assert_eq!(to_camelcase("is_for_guest"), "IsForGuest");
    assert_eq!(to_camelcase("EATERY"), "Eatery");
    assert_eq!(to_camelcase("a_b"), "AB");
    assert_eq!(to_camelcase("x"), "X");
    assert_eq!(to_camelcase("road_2way"), "Road2way");
    // the rest of a word may hold any character
    assert_eq!(to_camelcase("aÉ_bÖ"), "AéBö");
}

#[test]
fn words_must_start_plainly() {
    assert!(is_camel_ready("poi"));
    assert!(is_camel_ready("is_for_guest"));
    assert!(is_camel_ready("aÉ"));
    assert!(!is_camel_ready(""));
    assert!(!is_camel_ready("_"));
    assert!(!is_camel_ready("_a"));
    assert!(!is_camel_ready("a_"));
    assert!(!is_camel_ready("a__b"));
    assert!(!is_camel_ready("Éa"));
    assert!(!is_camel_ready("a_É"));
}

#[test]
fn point_names() {
    assert_eq!(point_name("eatery"), Some("PointEatery".to_string()));
    assert_eq!(point_name("bus_stop"), Some("PointBusStop".to_string()));
    assert_eq!(point_name(""), None);
    assert_eq!(point_name("a__b"), None);
}
