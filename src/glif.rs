//! The glyph record parser that the library is given, and what it needs of a record.
use crate::error::UfoError;
use crate::provider::Provider;
use vstd::prelude::*;

verus! {

/// A parsed glyph record: the fields that a glyph handle exposes.
///
/// The grammar of a glyph file, and so the shape of each field, is the
/// parser's own business: the library hands these values through unchanged.
pub trait GlyphRecord: Clone {
    type Advance;
    type Image;
    type Guideline;
    type Anchor;
    type Outline;
    type Lib;

    fn format(&self) -> String;

    fn format_minor(&self) -> Option<String>;

    fn advance(&self) -> Option<Self::Advance>;

    fn unicodes(&self) -> Vec<u32>;

    fn note(&self) -> Option<String>;

    fn image(&self) -> Option<Self::Image>;

    fn guidelines(&self) -> Vec<Self::Guideline>;

    fn anchors(&self) -> Vec<Self::Anchor>;

    fn outline(&self) -> Option<Self::Outline>;

    fn lib(&self) -> Option<Self::Lib>;
}

/// Turns the bytes of one glyph file into a record, or fails.
pub trait GlifParser {
    type Record: GlyphRecord;

    /// `r` is what parsing `data`, the bytes of the glyph file `file`, may
    /// give. A parser that is not verified keeps this default, which admits
    /// any outcome.
    open spec fn parses(&self, file: Seq<char>, data: Seq<u8>, r: Result<Self::Record, UfoError>) -> bool {
        true
    }

    /// Parses `data`, the bytes of the glyph file `file_name`.
    fn parse_glif(&self, file_name: &str, data: &[u8]) -> (r: Result<Self::Record, UfoError>)
        ensures
            self.parses(file_name@, data@, r),
    ;
}

/// `a` is what reading the glyph file `file` through `provider` and parsing
/// its bytes with `parser` may give: the read's error, or the parse's outcome.
pub open spec fn attempt_outcome<P: Provider, G: GlifParser>(
    provider: P,
    parser: G,
    file: Seq<char>,
    a: Result<G::Record, UfoError>,
) -> bool {
    exists|read: Result<Vec<u8>, UfoError>|
        #[trigger] provider.reads(file, read) && match read {
            Err(e) => a == Err::<G::Record, UfoError>(e),
            Ok(b) => parser.parses(file, b@, a),
        }
}

} // verus!
