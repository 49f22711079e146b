use flist::codec::{decode_request, encode_request};
use flist::link::Link;
use flist::requests::InsertRequest;

#[test]
fn minimal_envelope_decodes() {
    let r = decode_request(r#"{"name":"x","link":"y","metadata":[]}"#).unwrap();
    assert_eq!(r.name, "x");
    assert_eq!(r.link, "y");
    assert!(r.metadata.is_empty());
}

#[test]
fn empty_object_is_dropped() {
    assert!(decode_request("{}").is_none());
}

#[test]
fn non_json_is_dropped() {
    for bad in ["", "hello", "[1,2]", "{", "\"x\"", "{\"name\":\"x\""] {
        assert!(decode_request(bad).is_none(), "accepted: {}", bad);
    }
}

#[test]
fn missing_or_extra_fields_are_dropped() {
    for bad in [
        r#"{"name":"x","link":"y"}"#,
        r#"{"name":"x","metadata":[]}"#,
        r#"{"name":"x","link":"y","metadata":[],"more":"z"}"#,
        r#"{"name":"x","name":"x","link":"y","metadata":[]}"#,
        r#"{"name":"x","link":"y","metadata":[]}extra"#,
    ] {
        assert!(decode_request(bad).is_none(), "accepted: {}", bad);
    }
}

#[test]
fn fields_in_any_order_with_whitespace() {
    let r = decode_request(
        " { \"metadata\" : [ \"m1\" , \"m2\" ] ,\n\t\"link\" : \"l\" , \"name\" : \"n\" } ",
    )
    .unwrap();
    assert_eq!(r.name, "n");
    assert_eq!(r.link, "l");
    assert_eq!(r.metadata, vec!["m1", "m2"]);
}

#[test]
fn escapes_decode() {
    let r = decode_request(r#"{"name":"a\"b\\c\/d\n\t\r\b\f","link":"Aé","metadata":[]}"#)
        .unwrap();
    assert_eq!(r.name, "a\"b\\c/d\n\t\r\u{8}\u{c}");
    assert_eq!(r.link, "A\u{e9}");
}

#[test]
fn unicode_escapes_decode_to_their_chars() {
    let r = decode_request(r#"{"name":"\u0041\u00e9","link":"y","metadata":[]}"#).unwrap();
    assert_eq!(r.name, "A\u{e9}");
    let r = decode_request(r#"{"name":"\ud83d\ude00","link":"y","metadata":[]}"#).unwrap();
    assert_eq!(r.name, "\u{1F600}");
}

#[test]
fn surrogate_pairs_decode_and_lone_surrogates_are_dropped() {
    let r = decode_request(r#"{"name":"😀","link":"y","metadata":[]}"#).unwrap();
    assert_eq!(r.name, "\u{1F600}");
    assert!(decode_request(r#"{"name":"\ud83d","link":"y","metadata":[]}"#).is_none());
    assert!(decode_request(r#"{"name":"\ude00","link":"y","metadata":[]}"#).is_none());
}

#[test]
fn unescaped_control_chars_are_dropped() {
    assert!(decode_request("{\"name\":\"a\nb\",\"link\":\"y\",\"metadata\":[]}").is_none());
}

#[test]
fn encoding_is_exact() {
    let req = InsertRequest {
        name: "x".to_string(),
        link: Link::Url("y".to_string()),
        metadata: vec![],
    };
    assert_eq!(encode_request(&req), r#"{"name":"x","link":"y","metadata":[]}"#);
    let req = InsertRequest {
        name: "a\"b".to_string(),
        link: Link::File("/p/q".to_string()),
        metadata: vec!["m1".to_string(), "m2".to_string()],
    };
    assert_eq!(
        encode_request(&req),
        r#"{"name":"a\"b","link":"/p/q","metadata":["m1","m2"]}"#
    );
    let req = InsertRequest {
        name: "a\nb".to_string(),
        link: Link::Url("u".to_string()),
        metadata: vec![],
    };
    assert_eq!(
        encode_request(&req),
        r#"{"name":"a\u000ab","link":"u","metadata":[]}"#
    );
}

#[test]
fn encode_then_decode_round_trips() {
    let req = InsertRequest {
        name: "weird \"name\" with \\ and \n and é and 😀".to_string(),
        link: Link::Url("http://example.test/?q=a b".to_string()),
        metadata: vec!["one".to_string(), "t\two".to_string(), "".to_string()],
    };
    let text = encode_request(&req);
    let back = decode_request(&text).unwrap();
    assert_eq!(back.name, req.name);
    assert_eq!(back.link, "http://example.test/?q=a b");
    assert_eq!(back.metadata, req.metadata);
}

#[test]
fn metadata_must_be_an_array_of_strings() {
    for bad in [
        r#"{"name":"x","link":"y","metadata":"z"}"#,
        r#"{"name":"x","link":"y","metadata":[1]}"#,
        r#"{"name":"x","link":"y","metadata":["a",]}"#,
        r#"{"name":"x","link":"y","metadata":["a" "b"]}"#,
    ] {
        assert!(decode_request(bad).is_none(), "accepted: {}", bad);
    }
}
