use obs_service::errors::{Error, LookupKind};
use obs_service::settings::{check_nul_free, str_eq, Array, Data};

#[test]
fn empty_object_serializes_to_braces() {
    let d = Data::new();
    assert_eq!(d.to_json(), "{}");
}

#[test]
fn scalars_serialize_in_insertion_order() {
    let mut d = Data::new();
    d.set_string("name", "cam").unwrap();
    d.set_int("volume", 5).unwrap();
    d.set_bool("active", true).unwrap();
    assert_eq!(d.to_json(), "{\"name\":\"cam\",\"volume\":5,\"active\":true}");
}

#[test]
fn negative_and_extreme_integers_serialize() {
    let mut d = Data::new();
    d.set_int("a", -42).unwrap();
    d.set_int("b", i64::MAX).unwrap();
    d.set_int("c", i64::MIN).unwrap();
    d.set_int("d", 0).unwrap();
    assert_eq!(
        d.to_json(),
        "{\"a\":-42,\"b\":9223372036854775807,\"c\":-9223372036854775808,\"d\":0}"
    );
}

#[test]
fn strings_escape_quote_and_backslash() {
    let mut d = Data::new();
    d.set_string("k", "a\"b\\c").unwrap();
    assert_eq!(d.to_json(), "{\"k\":\"a\\\"b\\\\c\"}");
}

#[test]
fn replacing_a_key_keeps_its_position() {
    let mut d = Data::new();
    d.set_int("a", 1).unwrap();
    d.set_int("b", 2).unwrap();
    d.set_int("a", 9).unwrap();
    assert_eq!(d.to_json(), "{\"a\":9,\"b\":2}");
}

#[test]
fn nested_objects_and_arrays_serialize() {
    let mut inner = Data::new();
    inner.set_int("b", 1).unwrap();
    let mut item = Data::new();
    item.set_int("x", -2).unwrap();
    let mut arr = Array::new();
    arr.push_back(Data::new());
    arr.push_back(item);
    let mut d = Data::new();
    d.set_object("a", inner).unwrap();
    d.set_array("list", arr).unwrap();
    assert_eq!(d.to_json(), "{\"a\":{\"b\":1},\"list\":[{},{\"x\":-2}]}");
}

#[test]
fn embedded_nul_in_key_or_value_is_rejected() {
    let mut d = Data::new();
    assert_eq!(d.set_string("k\0", "v"), Err(Error::EncodingError));
    assert_eq!(d.set_string("k", "v\0"), Err(Error::EncodingError));
    assert_eq!(d.set_int("k\0", 1), Err(Error::EncodingError));
    assert_eq!(d.set_bool("k\0", true), Err(Error::EncodingError));
    assert_eq!(d.set_object("k\0", Data::new()), Err(Error::EncodingError));
    assert_eq!(d.set_array("k\0", Array::new()), Err(Error::EncodingError));
    // nothing was bound
    assert_eq!(d.to_json(), "{}");
}

#[test]
fn array_order_is_preserved() {
    let mut arr = Array::new();
    for name in ["one", "two", "three"] {
        let mut item = Data::new();
        item.set_string("name", name).unwrap();
        arr.push_back(item);
    }
    assert_eq!(arr.len(), 3);
    assert_eq!(arr.item_at(0).to_json(), "{\"name\":\"one\"}");
    assert_eq!(arr.item_at(1).to_json(), "{\"name\":\"two\"}");
    assert_eq!(arr.item_at(2).to_json(), "{\"name\":\"three\"}");
}

#[test]
fn get_array_finds_only_arrays() {
    let mut d = Data::new();
    let mut arr = Array::new();
    arr.push_back(Data::new());
    d.set_array("list", arr).unwrap();
    d.set_int("n", 3).unwrap();
    assert_eq!(d.get_array("list").unwrap().len(), 1);
    match d.get_array("n") {
        Err(Error::LookupError { kind, name }) => {
            assert_eq!(kind, LookupKind::Array);
            assert_eq!(name, "n");
        },
        other => panic!("expected a lookup failure, got {:?}", other.map(|a| a.len())),
    }
    match d.get_array("absent") {
        Err(Error::LookupError { kind, name }) => {
            assert_eq!(kind, LookupKind::Array);
            assert_eq!(name, "absent");
        },
        other => panic!("expected a lookup failure, got {:?}", other.map(|a| a.len())),
    }
}

#[test]
fn into_array_takes_the_array_out() {
    let mut d = Data::new();
    let mut arr = Array::new();
    let mut item = Data::new();
    item.set_string("name", "cam").unwrap();
    arr.push_back(item);
    d.set_array("sources", arr).unwrap();
    let taken = d.into_array("sources").unwrap();
    assert_eq!(taken.len(), 1);
    assert_eq!(taken.item_at(0).to_json(), "{\"name\":\"cam\"}");
}

#[test]
fn str_eq_compares_by_characters() {
    assert!(str_eq("abc", "abc"));
    assert!(!str_eq("abc", "abd"));
    assert!(!str_eq("abc", "ab"));
    assert!(str_eq("", ""));
}

#[test]
fn check_nul_free_finds_embedded_nul() {
    assert!(check_nul_free("plain"));
    assert!(check_nul_free(""));
    assert!(!check_nul_free("a\0b"));
}
