use std::collections::BTreeMap;

use plist::Value;
use ufo_gleaner::contents::{
    contents_from_read, decode_read, index_from_plist, parse_contents, PlistParser, PlistTop,
    CONTENTS_PATH,
};
use ufo_gleaner::error::{ErrorKind, UfoError};
use ufo_gleaner::provider::MockProvider;

fn xml_bytes(value: &Value) -> Vec<u8> {
    let mut bytes = Vec::new();
    plist::to_writer_xml(&mut bytes, value).unwrap();
    bytes
}

#[test]
fn parses_valid_plist() {
    // Create a tiny plist dictionary
    let mut map = BTreeMap::new();
    map.insert("a".to_string(), Value::String("A".to_string()));

    let dict: plist::Dictionary = map.into_iter().collect();
    let value = Value::Dictionary(dict);
    let plist_bytes = xml_bytes(&value);

    let provider = MockProvider::new().with_file("test.plist", &plist_bytes);
    let parser = PlistParser::new(provider).unwrap();

    let parsed = parser.parse_plist("test.plist").unwrap();
    match parsed {
        PlistTop::Dictionary(map) => {
            let found = map.iter().find(|(k, _)| k == "a").map(|(_, v)| v.clone());
            assert_eq!(found, Some(Some("A".to_string())));
        }
        _ => panic!("Expected dictionary value"),
    }
}

#[test]
fn returns_error_when_missing_file() {
    let provider = MockProvider::new();
    let parser = PlistParser::new(provider).unwrap();
    let err = parser.parse_plist("missing.plist").unwrap_err();
    assert_eq!(err.kind(), &ErrorKind::Io);
}

#[test]
fn returns_error_when_invalid_plist() {
    let provider = MockProvider::new().with_file("bad.plist", b"not valid plist");
    let parser = PlistParser::new(provider).unwrap();
    let err = parser.parse_plist("bad.plist").unwrap_err();
    assert_eq!(err.kind(), &ErrorKind::Plist);
}

#[test]
fn test_parse_contents_reads_dictionary() {
    // contents.plist: {"a": "A.glif", "b": "B.glif", "ignored": 123}
    let value = Value::Dictionary(
        [
            ("a".to_string(), Value::from("A.glif".to_string())),
            ("b".to_string(), Value::from("B.glif".to_string())),
            ("ignored".to_string(), Value::from(123)),
        ]
        .iter()
        .cloned()
        .collect(),
    );
    let plist_bytes = xml_bytes(&value);

    let provider = MockProvider::new().with_file(CONTENTS_PATH, &plist_bytes);
    let dict = parse_contents(&provider).unwrap();

    let get = |k: &str| dict.iter().find(|(n, _)| n == k).map(|(_, f)| f.clone());
    assert_eq!(dict.len(), 2);
    assert_eq!(get("a").unwrap(), "A.glif");
    assert_eq!(get("b").unwrap(), "B.glif");
    assert!(get("ignored").is_none());
}

#[test]
fn test_parse_contents_invalid_file() {
    let provider = MockProvider::new(); // no files
    let err = parse_contents(&provider).unwrap_err();
    assert_eq!(err.kind(), &ErrorKind::Io);
}

#[test]
fn test_parse_contents_not_dictionary() {
    let value = Value::String("not a dict".to_string());
    let plist_bytes = xml_bytes(&value);

    let provider = MockProvider::new().with_file(CONTENTS_PATH, &plist_bytes);
    let err = parse_contents(&provider).unwrap_err();
    assert_eq!(err.kind(), &ErrorKind::Plist);
}

#[test]
fn contents_keep_document_order() {
    let value = Value::Dictionary(
        [
            ("z".to_string(), Value::from("z.glif".to_string())),
            ("n".to_string(), Value::from(true)),
            ("a".to_string(), Value::from("a.glif".to_string())),
        ]
        .into_iter()
        .collect(),
    );
    let got = contents_from_read(Ok(xml_bytes(&value))).unwrap();
    assert_eq!(
        got,
        vec![
            ("z".to_string(), "z.glif".to_string()),
            ("a".to_string(), "a.glif".to_string()),
        ]
    );
}

#[test]
fn contents_of_empty_dictionary_is_empty() {
    let value = Value::Dictionary(plist::Dictionary::new());
    let got = contents_from_read(Ok(xml_bytes(&value))).unwrap();
    assert!(got.is_empty());
}

#[test]
fn decode_read_passes_read_error_through() {
    let err = UfoError::new(ErrorKind::FileNotFound);
    let got = decode_read(Err(err), "x.plist").unwrap_err();
    assert_eq!(got.kind(), &ErrorKind::FileNotFound);
}

#[test]
fn decode_read_reports_path_of_undecodable_file() {
    let got = decode_read(Ok(b"<plist><dict>".to_vec()), "x.plist").unwrap_err();
    assert_eq!(got.kind(), &ErrorKind::Plist);
    assert_eq!(got.path(), &Some("x.plist".to_string()));
}

#[test]
fn decode_read_reads_binary_plist() {
    let value = Value::Dictionary(
        [("g".to_string(), Value::from("g.glif".to_string()))].into_iter().collect(),
    );
    let mut bytes = Vec::new();
    plist::to_writer_binary(&mut bytes, &value).unwrap();
    match decode_read(Ok(bytes), "x.plist").unwrap() {
        PlistTop::Dictionary(e) => {
            assert_eq!(e, vec![("g".to_string(), Some("g.glif".to_string()))])
        }
        PlistTop::Other => panic!("expected a dictionary"),
    }
}

#[test]
fn index_from_non_dictionary_is_plist_error_with_path() {
    let err = index_from_plist(Ok(PlistTop::Other)).unwrap_err();
    assert_eq!(err.kind(), &ErrorKind::Plist);
    assert_eq!(err.path(), &Some(CONTENTS_PATH.to_string()));
}

#[test]
fn index_drops_non_string_entries() {
    let top = PlistTop::Dictionary(vec![
        ("a".to_string(), Some("A.glif".to_string())),
        ("n".to_string(), None),
    ]);
    let got = index_from_plist(Ok(top)).unwrap();
    assert_eq!(got, vec![("a".to_string(), "A.glif".to_string())]);
}
