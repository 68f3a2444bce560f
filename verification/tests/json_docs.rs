//! Shallow JSON document parsing, serialization, lookups and merging.

use pia_ipc::json::{merge_docs, parse_doc, ser_doc_x, JsonDoc};

fn doc(bytes: &[u8]) -> JsonDoc {
    parse_doc(&bytes.to_vec()).expect("parses")
}

fn get<'a>(d: &'a JsonDoc, key: &[u8]) -> Option<&'a Vec<u8>> {
    d.get(&key.to_vec())
}

#[test]
fn parses_empty_object() {
    let d = doc(b"{}");
    assert_eq!(d.members.len(), 0);
    let d2 = doc(b"  {  }  ");
    assert_eq!(d2.members.len(), 0);
}

#[test]
fn parses_members_with_raw_value_spans() {
    let d = doc(br#"{"a":1,"b":"x","c":[1,2],"d":{"e":null}}"#);
    assert_eq!(d.members.len(), 4);
    assert_eq!(get(&d, b"a").unwrap(), &b"1".to_vec());
    assert_eq!(get(&d, b"b").unwrap(), &b"\"x\"".to_vec());
    assert_eq!(get(&d, b"c").unwrap(), &b"[1,2]".to_vec());
    assert_eq!(get(&d, b"d").unwrap(), &b"{\"e\":null}".to_vec());
    assert!(get(&d, b"e").is_none());
}

#[test]
fn tolerates_whitespace_between_tokens() {
    let d = doc(b" { \"a\" : 1 , \"b\" : true } ");
    assert_eq!(get(&d, b"a").unwrap(), &b"1".to_vec());
    assert_eq!(get(&d, b"b").unwrap(), &b"true".to_vec());
}

#[test]
fn string_values_respect_escapes() {
    let d = doc(br#"{"a":"x\"y","b":"z\\"}"#);
    assert_eq!(get(&d, b"a").unwrap(), &br#""x\"y""#.to_vec());
    assert_eq!(get(&d, b"b").unwrap(), &br#""z\\""#.to_vec());
}

#[test]
fn rejects_malformed_documents() {
    assert!(parse_doc(&b"".to_vec()).is_none());
    assert!(parse_doc(&b"{".to_vec()).is_none());
    assert!(parse_doc(&b"{\"a\"}".to_vec()).is_none());
    assert!(parse_doc(&b"{\"a\":1".to_vec()).is_none());
    assert!(parse_doc(&b"{\"a\":1}x".to_vec()).is_none());
    assert!(parse_doc(&b"[1]".to_vec()).is_none());
    assert!(parse_doc(&b"{\"a\":\"unterminated}".to_vec()).is_none());
}

#[test]
fn serializes_compactly_and_round_trips() {
    let d = doc(b" { \"a\" : 1 , \"b\" : [ 1 , 2 ] } ");
    let bytes = ser_doc_x(&d);
    assert_eq!(bytes, b"{\"a\":1,\"b\":[ 1 , 2 ]}".to_vec());
    let d2 = parse_doc(&bytes).expect("round trips");
    assert_eq!(d2.members, d.members);
}

#[test]
fn merge_overwrites_and_appends_keys() {
    let base = doc(br#"{"a":1,"b":2}"#);
    let upd = doc(br#"{"b":{"deep":3},"c":4}"#);
    let merged = merge_docs(&base, &upd);
    // Shallow merge: the nested object replaces b's value wholesale.
    assert_eq!(get(&merged, b"a").unwrap(), &b"1".to_vec());
    assert_eq!(get(&merged, b"b").unwrap(), &b"{\"deep\":3}".to_vec());
    assert_eq!(get(&merged, b"c").unwrap(), &b"4".to_vec());
    assert_eq!(merged.members.len(), 3);
}

#[test]
fn set_overwrites_in_place() {
    let mut d = doc(br#"{"a":1,"b":2}"#);
    d.set(b"a".to_vec(), b"9".to_vec());
    assert_eq!(get(&d, b"a").unwrap(), &b"9".to_vec());
    assert_eq!(d.members.len(), 2);
    d.set(b"z".to_vec(), b"0".to_vec());
    assert_eq!(get(&d, b"z").unwrap(), &b"0".to_vec());
    assert_eq!(d.members.len(), 3);
}
