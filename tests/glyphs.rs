use std::cell::Cell;
use std::rc::Rc;

use plist::Value;
use ufo_gleaner::contents::CONTENTS_PATH;
use ufo_gleaner::error::{ErrorKind, UfoError};
use ufo_gleaner::font::{Font, Glyph};
use ufo_gleaner::gleaner::{glean_entry, Gleaner};
use ufo_gleaner::glif::{GlifParser, GlyphRecord};
use ufo_gleaner::provider::{MockProvider, Provider};

/// A record that keeps the text of its glyph file.
#[derive(Clone, Debug, PartialEq)]
struct TextRecord {
    text: String,
}

impl GlyphRecord for TextRecord {
    type Advance = u32;
    type Image = String;
    type Guideline = String;
    type Anchor = String;
    type Outline = String;
    type Lib = String;

    fn format(&self) -> String {
        "2".to_string()
    }
    fn format_minor(&self) -> Option<String> {
        None
    }
    fn advance(&self) -> Option<u32> {
        Some(self.text.len() as u32)
    }
    fn unicodes(&self) -> Vec<u32> {
        self.text.chars().filter(|c| c.is_ascii_uppercase()).map(|c| c as u32).collect()
    }
    fn note(&self) -> Option<String> {
        Some(self.text.clone())
    }
    fn image(&self) -> Option<String> {
        None
    }
    fn guidelines(&self) -> Vec<String> {
        Vec::new()
    }
    fn anchors(&self) -> Vec<String> {
        Vec::new()
    }
    fn outline(&self) -> Option<String> {
        None
    }
    fn lib(&self) -> Option<String> {
        None
    }
}

/// Accepts files whose text starts with `<glyph`, and counts its calls.
#[derive(Clone, Default)]
struct TextParser {
    calls: Rc<Cell<usize>>,
}

impl GlifParser for TextParser {
    type Record = TextRecord;

    fn parse_glif(&self, file_name: &str, data: &[u8]) -> Result<TextRecord, UfoError> {
        self.calls.set(self.calls.get() + 1);
        match String::from_utf8(data.to_vec()) {
            Ok(text) if text.starts_with("<glyph") => Ok(TextRecord { text }),
            _ => Err(UfoError::new(ErrorKind::Xml).with_path(file_name.to_string())),
        }
    }
}

fn contents_bytes(entries: Vec<(&str, Value)>) -> Vec<u8> {
    let dict: plist::Dictionary =
        entries.into_iter().map(|(k, v)| (k.to_string(), v)).collect();
    let mut bytes = Vec::new();
    plist::to_writer_xml(&mut bytes, &Value::Dictionary(dict)).unwrap();
    bytes
}

fn string(s: &str) -> Value {
    Value::String(s.to_string())
}

#[test]
fn test_new_and_glean() {
    let provider = MockProvider::new().with_file(CONTENTS_PATH, b"<?xml version='1.0'?><plist version='1.0'><dict><key>a</key><string>A.glif</string></dict></plist>");

    let gleaner = Gleaner::new(provider, TextParser::default()).unwrap();
    let glyphs = gleaner.glean().unwrap();

    assert_eq!(glyphs.len(), 1);
    assert!(glyphs.iter().any(|(k, _)| k == "a"));
    let a = &glyphs.iter().find(|(k, _)| k == "a").unwrap().1;
    assert!(a.is_none() || matches!(a, Some(TextRecord { .. })));
}

#[test]
fn scenario_single_glyph() {
    let provider = MockProvider::new()
        .with_file(CONTENTS_PATH, &contents_bytes(vec![("A", string("A.glif"))]))
        .with_file("A.glif", b"<glyph A/>");
    let mut font = Font::new(provider.clone(), TextParser::default()).unwrap();
    let all = font.glyphs();
    assert_eq!(all.len(), 1);
    assert_eq!(all[0].0, "A");
    assert_eq!(all[0].1.name(), "A");

    let gleaner = Gleaner::new(provider, TextParser::default()).unwrap();
    let records = gleaner.glean().unwrap();
    assert_eq!(
        records,
        vec![("A".to_string(), Some(TextRecord { text: "<glyph A/>".to_string() }))]
    );
}

#[test]
fn scenario_non_string_entry_ignored() {
    let provider = MockProvider::new()
        .with_file(
            CONTENTS_PATH,
            &contents_bytes(vec![("A", string("A.glif")), ("ignored", Value::from(123))]),
        )
        .with_file("A.glif", b"<glyph A/>");
    let mut font = Font::new(provider.clone(), TextParser::default()).unwrap();
    let names: Vec<String> = font.glyphs().into_iter().map(|(n, _)| n).collect();
    assert_eq!(names, vec!["A".to_string()]);
    assert_eq!(font.names(), vec!["A".to_string()]);

    let gleaner = Gleaner::new(provider, TextParser::default()).unwrap();
    let keys: Vec<String> = gleaner.glean().unwrap().into_iter().map(|(n, _)| n).collect();
    assert_eq!(keys, vec!["A".to_string()]);
}

#[test]
fn scenario_index_absent() {
    let provider = MockProvider::new();
    let font = Font::new(provider.clone(), TextParser::default());
    assert_eq!(font.err().unwrap().kind(), &ErrorKind::Io);
    let gleaner = Gleaner::new(provider, TextParser::default());
    assert_eq!(gleaner.err().unwrap().kind(), &ErrorKind::Io);
}

#[test]
fn scenario_index_not_dictionary() {
    let mut bytes = Vec::new();
    plist::to_writer_xml(&mut bytes, &string("not a dict")).unwrap();
    let parser = TextParser::default();
    let provider = MockProvider::new().with_file(CONTENTS_PATH, &bytes);
    let font = Font::new(provider.clone(), parser.clone());
    assert_eq!(font.err().unwrap().kind(), &ErrorKind::Plist);
    let gleaner = Gleaner::new(provider, parser.clone());
    assert_eq!(gleaner.err().unwrap().kind(), &ErrorKind::Plist);
    assert_eq!(parser.calls.get(), 0);
}

#[test]
fn scenario_unknown_name_gets_handle() {
    let provider = MockProvider::new()
        .with_file(CONTENTS_PATH, &contents_bytes(vec![("A", string("A.glif"))]))
        .with_file("A.glif", b"<glyph A/>");
    let mut font = Font::new(provider, TextParser::default()).unwrap();
    let z = font.glyph("Z").expect("a handle");
    assert_eq!(z.name(), "Z");
    let err = z.format(&mut font).unwrap_err();
    assert_eq!(err.kind(), &ErrorKind::MissingAttribute("Z".to_string()));
    assert_eq!(err.path(), &Some(CONTENTS_PATH.to_string()));
}

#[test]
fn all_glyphs_counts_string_entries() {
    let provider = MockProvider::new().with_file(
        CONTENTS_PATH,
        &contents_bytes(vec![
            ("A", string("A.glif")),
            ("x", Value::from(1)),
            ("B", string("B.glif")),
            ("y", Value::from(false)),
            ("C", string("C.glif")),
        ]),
    );
    let mut font = Font::new(provider.clone(), TextParser::default()).unwrap();
    let names: Vec<String> = font.glyphs().into_iter().map(|(n, _)| n).collect();
    assert_eq!(names, vec!["A", "B", "C"]);
    assert_eq!(font.glyphs().len(), 3);

    let mut looked_up_first = Font::new(provider, TextParser::default()).unwrap();
    let z = looked_up_first.glyph("Z").unwrap();
    let b = looked_up_first.glyph("B").unwrap();
    let all = looked_up_first.glyphs();
    let names: Vec<String> = all.iter().map(|(n, _)| n.clone()).collect();
    assert_eq!(names, vec!["Z", "B", "A", "C"]);
    assert_eq!(all[0].1.name(), z.name());
    assert_eq!(all[1].1.name(), b.name());
}

#[test]
fn field_accesses_parse_once() {
    let parser = TextParser::default();
    let provider = MockProvider::new()
        .with_file(CONTENTS_PATH, &contents_bytes(vec![("A", string("A.glif"))]))
        .with_file("A.glif", b"<glyph A/>");
    let mut font = Font::new(provider, parser.clone()).unwrap();
    let a = font.glyph("A").unwrap();
    assert_eq!(parser.calls.get(), 0);
    assert_eq!(a.format(&mut font).unwrap(), "2");
    assert_eq!(a.note(&mut font).unwrap(), Some("<glyph A/>".to_string()));
    assert_eq!(a.unicodes(&mut font).unwrap(), vec![65]);
    assert_eq!(a.advance(&mut font).unwrap(), Some(10));
    assert_eq!(a.format_minor(&mut font).unwrap(), None);
    assert_eq!(a.image(&mut font).unwrap(), None);
    assert!(a.guidelines(&mut font).unwrap().is_empty());
    assert!(a.anchors(&mut font).unwrap().is_empty());
    assert_eq!(a.outline(&mut font).unwrap(), None);
    assert_eq!(a.lib(&mut font).unwrap(), None);
    assert_eq!(parser.calls.get(), 1);
    let again = font.glyph("A").unwrap();
    assert_eq!(again.load(&mut font).unwrap().text, "<glyph A/>");
    assert_eq!(parser.calls.get(), 1);
}

#[test]
fn failed_load_is_retried() {
    let parser = TextParser::default();
    let provider = MockProvider::new()
        .with_file(CONTENTS_PATH, &contents_bytes(vec![("A", string("A.glif"))]))
        .with_file("A.glif", b"garbage");
    let mut font = Font::new(provider, parser.clone()).unwrap();
    let a = font.glyph("A").unwrap();
    assert_eq!(a.format(&mut font).unwrap_err().kind(), &ErrorKind::Xml);
    assert_eq!(a.format(&mut font).unwrap_err().kind(), &ErrorKind::Xml);
    assert_eq!(parser.calls.get(), 2);
}

#[test]
fn missing_glyph_file_is_read_error() {
    let parser = TextParser::default();
    let provider = MockProvider::new()
        .with_file(CONTENTS_PATH, &contents_bytes(vec![("A", string("A.glif"))]));
    let mut font = Font::new(provider, parser.clone()).unwrap();
    let a = font.glyph("A").unwrap();
    assert_eq!(a.note(&mut font).unwrap_err().kind(), &ErrorKind::Io);
    assert_eq!(parser.calls.get(), 0);
}

#[test]
fn same_name_same_handle() {
    let provider = MockProvider::new()
        .with_file(CONTENTS_PATH, &contents_bytes(vec![("A", string("A.glif")), ("B", string("B.glif"))]));
    let mut font = Font::new(provider, TextParser::default()).unwrap();
    let a1 = font.glyph("A").unwrap();
    let b = Glyph::new(&mut font, "B".to_string());
    let all = font.glyphs();
    let a2 = font.glyph("A").unwrap();
    assert!(font.holds(&a1) && font.holds(&a2) && font.holds(&b));
    assert_eq!(a1.name(), a2.name());
    assert!(font.holds(&all[0].1));
    let mut it = font.iter();
    let first = it.next(&mut font).unwrap();
    assert_eq!(first.name(), "A");
    assert_eq!(it.next(&mut font).unwrap().name(), "B");
    assert!(it.next(&mut font).is_none());
}

#[test]
fn iteration_shares_the_cache() {
    let parser = TextParser::default();
    let provider = MockProvider::new()
        .with_file(CONTENTS_PATH, &contents_bytes(vec![("A", string("A.glif"))]))
        .with_file("A.glif", b"<glyph A/>");
    let mut font = Font::new(provider, parser.clone()).unwrap();
    let a = font.glyph("A").unwrap();
    a.format(&mut font).unwrap();
    let mut it = font.iter();
    let from_iter = it.next(&mut font).unwrap();
    from_iter.note(&mut font).unwrap();
    assert_eq!(parser.calls.get(), 1);
    let mut second = font.iter();
    assert_eq!(second.next(&mut font).unwrap().name(), "A");
}

#[test]
fn contents_copy_matches_index() {
    let provider = MockProvider::new().with_file(
        CONTENTS_PATH,
        &contents_bytes(vec![("A", string("A.glif")), ("B", string("b_.glif"))]),
    );
    let font = Font::new(provider, TextParser::default()).unwrap();
    assert_eq!(
        font.contents(),
        vec![
            ("A".to_string(), "A.glif".to_string()),
            ("B".to_string(), "b_.glif".to_string()),
        ]
    );
    assert!(font.provider().clone().with_file("x", b"").root().is_empty());
}

#[test]
fn glean_one_corrupt_among_many() {
    let parser = TextParser::default();
    let provider = MockProvider::new()
        .with_file(
            CONTENTS_PATH,
            &contents_bytes(vec![
                ("A", string("A.glif")),
                ("B", string("B.glif")),
                ("C", string("C.glif")),
            ]),
        )
        .with_file("A.glif", b"<glyph A/>")
        .with_file("B.glif", b"corrupt")
        .with_file("C.glif", b"<glyph C/>");
    let gleaner = Gleaner::new(provider, parser.clone()).unwrap();
    let got = gleaner.glean().unwrap();
    assert_eq!(got.len(), 3);
    assert_eq!(got[0], ("A".to_string(), Some(TextRecord { text: "<glyph A/>".to_string() })));
    assert_eq!(got[1], ("B".to_string(), None));
    assert_eq!(got[2], ("C".to_string(), Some(TextRecord { text: "<glyph C/>".to_string() })));
    assert_eq!(parser.calls.get(), 3);
    gleaner.glean().unwrap();
    assert_eq!(parser.calls.get(), 6);
}

#[test]
fn glean_entry_drops_errors() {
    let ok: Result<u8, UfoError> = Ok(7);
    assert_eq!(glean_entry(ok), Some(7));
    let err: Result<u8, UfoError> = Err(UfoError::new(ErrorKind::Parse));
    assert_eq!(glean_entry(err), None);
}
