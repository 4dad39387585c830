use obs_service::errors::Error;
use obs_service::settings::{Array, Data};

fn build_sample() -> Data {
    let mut inner = Data::new();
    inner.set_string("server", "rtmp://example/live").unwrap();
    inner.set_int("port", 1935).unwrap();
    let mut item = Data::new();
    item.set_bool("hidden", false).unwrap();
    item.set_string("value", "file \"a\".mkv").unwrap();
    let mut playlist = Array::new();
    playlist.push_back(item);
    let mut d = Data::new();
    d.set_string("name", "cam1").unwrap();
    d.set_int("volume", -3).unwrap();
    d.set_bool("active", true).unwrap();
    d.set_object("service", inner).unwrap();
    d.set_array("playlist", playlist).unwrap();
    d
}

#[test]
fn round_trip_preserves_keys_and_values() {
    let d = build_sample();
    let text = d.to_json();
    let reparsed = Data::from_json(&text).unwrap();
    assert_eq!(reparsed.to_json(), text);
}

#[test]
fn parse_of_concrete_document() {
    let d = Data::from_json("{\"a\":1,\"b\":\"x\",\"c\":false}").unwrap();
    assert_eq!(d.to_json(), "{\"a\":1,\"b\":\"x\",\"c\":false}");
}

#[test]
fn parse_rejects_malformed_text() {
    for bad in [
        "",
        "{",
        "}",
        "{\"a\"}",
        "{\"a\":}",
        "{\"a\":1,}",
        "{\"a\":1}x",
        "x{\"a\":1}",
        "{\"a\":truth}",
        "{\"a\":'x'}",
        "{\"a\":\"unterminated}",
        "{\"a\":1 }",
        "{ \"a\":1}",
        "[1]",
        "{\"a\":[1]}",
        "{\"a\":--1}",
        "{\"a\":-}",
    ] {
        assert_eq!(Data::from_json(bad), Err(Error::ParseError), "accepted: {}", bad);
    }
}

#[test]
fn parse_rejects_duplicate_keys() {
    assert_eq!(Data::from_json("{\"a\":1,\"a\":2}"), Err(Error::ParseError));
}

#[test]
fn parse_rejects_embedded_nul() {
    assert_eq!(Data::from_json("{\"a\":\"x\0y\"}"), Err(Error::ParseError));
}

#[test]
fn parse_integer_range_limits() {
    let d = Data::from_json("{\"a\":9223372036854775807}").unwrap();
    assert_eq!(d.to_json(), "{\"a\":9223372036854775807}");
    let d = Data::from_json("{\"a\":-9223372036854775808}").unwrap();
    assert_eq!(d.to_json(), "{\"a\":-9223372036854775808}");
    assert_eq!(Data::from_json("{\"a\":9223372036854775808}"), Err(Error::ParseError));
    assert_eq!(Data::from_json("{\"a\":-9223372036854775809}"), Err(Error::ParseError));
    // twenty digits never fit
    assert_eq!(Data::from_json("{\"a\":99999999999999999999}"), Err(Error::ParseError));
}

#[test]
fn parse_unescapes_strings() {
    let d = Data::from_json("{\"k\":\"a\\\"b\\\\c\"}").unwrap();
    assert_eq!(d.to_json(), "{\"k\":\"a\\\"b\\\\c\"}");
    // unknown escapes are malformed
    assert_eq!(Data::from_json("{\"k\":\"a\\nb\"}"), Err(Error::ParseError));
}

#[test]
fn parse_empty_containers() {
    let d = Data::from_json("{}").unwrap();
    assert_eq!(d.to_json(), "{}");
    let d = Data::from_json("{\"a\":[],\"b\":{}}").unwrap();
    assert_eq!(d.to_json(), "{\"a\":[],\"b\":{}}");
}

#[test]
fn parse_nested_document() {
    let text = "{\"sources\":[{\"name\":\"cam1\",\"muted\":false},{\"name\":\"cam2\",\"gain\":-7}]}";
    let d = Data::from_json(text).unwrap();
    let sources = d.into_array("sources").unwrap();
    assert_eq!(sources.len(), 2);
    assert_eq!(sources.item_at(0).to_json(), "{\"name\":\"cam1\",\"muted\":false}");
    assert_eq!(sources.item_at(1).to_json(), "{\"name\":\"cam2\",\"gain\":-7}");
}
