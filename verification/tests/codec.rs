//! The form-urlencoding codec, the query builder and parser, and the flat
//! JSON reader, each against hand-written expectations and against the url
//! and serde_urlencoded crates.

use sfs::json::{json_object_members, JsonField};
use sfs::query::{build_query, parse_query};
use sfs::urlencode::{form_decode, form_encode};

#[test]
fn encoding_keeps_unreserved_bytes() {
    assert_eq!(form_encode("AZaz09*-._"), "AZaz09*-._");
}

#[test]
fn encoding_escapes_reserved_bytes() {
    assert_eq!(form_encode("a b"), "a+b");
    assert_eq!(form_encode("&=%+"), "%26%3D%25%2B");
    assert_eq!(form_encode("http://x/y"), "http%3A%2F%2Fx%2Fy");
}

#[test]
fn encoding_uses_utf8_bytes() {
    assert_eq!(form_encode("é"), "%C3%A9");
    assert_eq!(form_encode("日"), "%E6%97%A5");
}

#[test]
fn encoding_matches_serde_urlencoded() {
    let samples = ["plain", "a b&c=d", "über *star*", "100%"];
    for s in samples {
        let mine = build_query(&vec![("k".to_string(), s.to_string())]);
        let theirs = serde_urlencoded::to_string([("k", s)]).unwrap();
        assert_eq!(mine, theirs);
    }
}

#[test]
fn decoding_inverts_encoding() {
    let samples = ["", "plain", "a b+c", "&=%", "é日", "x%2By"];
    for s in samples {
        assert_eq!(form_decode(&form_encode(s)).unwrap(), s);
    }
}

#[test]
fn decoding_handles_plus_and_percent() {
    assert_eq!(form_decode("a+b").unwrap(), "a b");
    assert_eq!(form_decode("%41%6243").unwrap(), "Ab43");
    assert_eq!(form_decode("%c3%a9").unwrap(), "é");
}

#[test]
fn decoding_rejects_bad_escapes() {
    assert!(form_decode("%").is_none());
    assert!(form_decode("abc%2").is_none());
    assert!(form_decode("%zz").is_none());
    assert!(form_decode("%ff").is_none(), "not valid UTF-8");
}

#[test]
fn query_round_trips_arbitrary_pairs() {
    let pairs = vec![
        ("key one".to_string(), "value&with=meta".to_string()),
        ("ünï".to_string(), "çode%".to_string()),
        ("empty".to_string(), "".to_string()),
    ];
    let q = build_query(&pairs);
    assert_eq!(parse_query(&q).unwrap(), pairs);
}

#[test]
fn query_parses_plain_text() {
    assert_eq!(
        parse_query("a=1&b=two+words").unwrap(),
        vec![
            ("a".to_string(), "1".to_string()),
            ("b".to_string(), "two words".to_string())
        ]
    );
    assert_eq!(parse_query("").unwrap(), vec![]);
    assert_eq!(
        parse_query("flag").unwrap(),
        vec![("flag".to_string(), "".to_string())]
    );
}

#[test]
fn query_rejects_undecodable_parts() {
    assert!(parse_query("a=%zz").is_none());
}

#[test]
fn json_reads_a_flat_object() {
    let ms = json_object_members(
        " { \"a\" : \"text\" , \"n\" : 42 , \"m\" : -7 } ",
    )
    .unwrap();
    assert_eq!(ms.len(), 3);
    assert_eq!(ms[0].0, "a");
    assert!(matches!(&ms[0].1, JsonField::Text(t) if t == "text"));
    assert!(matches!(ms[1].1, JsonField::Number(42)));
    assert!(matches!(ms[2].1, JsonField::Number(-7)));
}

#[test]
fn json_reads_the_empty_object() {
    assert_eq!(json_object_members("{}").unwrap().len(), 0);
    assert_eq!(json_object_members(" { } ").unwrap().len(), 0);
}

#[test]
fn json_unescapes_strings() {
    let ms = json_object_members("{\"k\":\"a\\\"b\\\\c\\nd\\/e\"}").unwrap();
    assert!(matches!(&ms[0].1, JsonField::Text(t) if t == "a\"b\\c\nd/e"));
}

#[test]
fn json_rejects_what_it_cannot_read() {
    assert!(json_object_members("").is_none());
    assert!(json_object_members("[1]").is_none());
    assert!(json_object_members("{\"a\":}").is_none());
    assert!(json_object_members("{\"a\":\"b\",}").is_none(), "trailing comma");
    assert!(json_object_members("{\"a\":{\"b\":1}}").is_none(), "nested object");
    assert!(json_object_members("{\"a\":01}").is_none(), "leading zero");
    assert!(json_object_members("{\"a\":1234567890}").is_none(), "ten digits");
    assert!(json_object_members("{\"a\":1.5}").is_none(), "float");
    assert!(json_object_members("{\"a\":\"b\"} trailing").is_none());
    assert!(json_object_members("{\"a\":\"unterminated}").is_none());
}

#[test]
fn json_number_bounds() {
    let ms = json_object_members("{\"a\":999999999,\"b\":-999999999,\"c\":0}").unwrap();
    assert!(matches!(ms[0].1, JsonField::Number(999_999_999)));
    assert!(matches!(ms[1].1, JsonField::Number(-999_999_999)));
    assert!(matches!(ms[2].1, JsonField::Number(0)));
}
