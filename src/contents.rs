//! The glyph index: the package's `glyphs/contents.plist`, read as a list of
//! glyph names, each with the name of its glyph file.
use crate::error::{UfoError, ErrorKind};
use crate::provider::Provider;
use vstd::prelude::*;
use vstd::string::*;

verus! {

/// Path of the glyph index, relative to the package root.
pub const CONTENTS_PATH: &'static str = "glyphs/contents.plist";

/// The entries of a decoded dictionary: each key, with its value where that
/// value is a string.
pub type EntriesView = Seq<(Seq<char>, Option<Seq<char>>)>;

/// A glyph index: each glyph name with the name of its glyph file.
pub type IndexView = Seq<(Seq<char>, Seq<char>)>;

/// The top-level value of a property list, as far as the glyph index needs it.
#[derive(Debug)]
pub enum PlistTop {
    /// A dictionary, in document order: each key, with its value where that
    /// value is a string.
    Dictionary(Vec<(String, Option<String>)>),
    /// Any value that is not a dictionary.
    Other,
}

pub open spec fn opt_string_view(s: Option<String>) -> Option<Seq<char>> {
    match s {
        Some(v) => Some(v@),
        None => None,
    }
}

pub open spec fn entries_view(e: Seq<(String, Option<String>)>) -> EntriesView {
    e.map_values(|x: (String, Option<String>)| (x.0@, opt_string_view(x.1)))
}

pub open spec fn index_view(e: Seq<(String, String)>) -> IndexView {
    e.map_values(|x: (String, String)| (x.0@, x.1@))
}

impl View for PlistTop {
    /// `None` for a value that is not a dictionary.
    type V = Option<EntriesView>;

    open spec fn view(&self) -> Option<EntriesView> {
        match self {
            PlistTop::Dictionary(e) => Some(entries_view(e@)),
            PlistTop::Other => None,
        }
    }
}

/// No key occurs twice.
pub open spec fn keys_distinct<V>(e: Seq<(Seq<char>, V)>) -> bool {
    forall|i: int, j: int| 0 <= i < j < e.len() ==> #[trigger] e[i].0 != #[trigger] e[j].0
}

/// What `plist::Value::from_reader` makes of `bytes`: `None` where they do not
/// decode, else the top-level value as [`PlistTop`] views it.
pub uninterp spec fn plist_document(bytes: Seq<u8>) -> Option<Option<EntriesView>>;

/// Relies on `plist::Value::from_reader`: it decodes a property list (binary,
/// XML or ASCII) from the bytes alone, and a decoded dictionary is a map, so
/// its keys are distinct.
#[verifier::external_body]
fn decode_plist(bytes: &[u8]) -> (r: Result<PlistTop, plist::Error>)
    ensures
        r is Ok <==> plist_document(bytes@) is Some,
        r is Ok ==> r->Ok_0@ == plist_document(bytes@)->Some_0,
        r matches Ok(PlistTop::Dictionary(e)) ==> keys_distinct(entries_view(e@)),
{
    match plist::Value::from_reader(std::io::Cursor::new(bytes)) {
        Ok(plist::Value::Dictionary(d)) => Ok(
            PlistTop::Dictionary(d.into_iter().map(|(k, v)| (k, v.into_string())).collect()),
        ),
        Ok(_) => Ok(PlistTop::Other),
        Err(e) => Err(e),
    }
}

/// The entries whose value is a string, in their order.
pub open spec fn string_entries(e: EntriesView) -> IndexView
    decreases e.len(),
{
    if e.len() == 0 {
        Seq::empty()
    } else {
        let rest = string_entries(e.drop_last());
        match e.last().1 {
            Some(v) => rest.push((e.last().0, v)),
            None => rest,
        }
    }
}

/// How many entries have a string value.
pub open spec fn count_strings(e: EntriesView) -> nat
    decreases e.len(),
{
    if e.len() == 0 {
        0
    } else {
        count_strings(e.drop_last()) + if e.last().1 is Some {
            1nat
        } else {
            0nat
        }
    }
}

/// What decoding the outcome of a read of the property list at `path` gives:
/// the read's own error, a `Plist` error where the bytes do not decode, or
/// the decoded top-level value.
pub open spec fn plist_outcome(
    read: Result<Vec<u8>, UfoError>,
    path: Seq<char>,
    r: Result<PlistTop, UfoError>,
) -> bool {
    match read {
        Err(e) => r == Err::<PlistTop, UfoError>(e),
        Ok(b) => match plist_document(b@) {
            None => r is Err && r->Err_0.kind == ErrorKind::Plist && opt_string_view(r->Err_0.path) == Some(path),
            Some(t) => r is Ok && r->Ok_0@ == t && (r->Ok_0 matches PlistTop::Dictionary(e)
                ==> keys_distinct(entries_view(e@))),
        },
    }
}

/// What the glyph index is, given the decoded index file: the decoding error,
/// a `Plist` error where the top-level value is not a dictionary, or the
/// entries with a string value.
pub open spec fn index_outcome(top: Result<PlistTop, UfoError>, r: Result<Vec<(String, String)>, UfoError>) -> bool {
    match top {
        Err(e) => r == Err::<Vec<(String, String)>, UfoError>(e),
        Ok(PlistTop::Other) => r is Err && r->Err_0.kind == ErrorKind::Plist
            && opt_string_view(r->Err_0.path) == Some(CONTENTS_PATH@),
        Ok(PlistTop::Dictionary(e)) => r is Ok && index_view(r->Ok_0@) == string_entries(
            entries_view(e@),
        ),
    }
}

/// What the glyph index is, given the outcome of reading the index file.
pub open spec fn contents_outcome(
    read: Result<Vec<u8>, UfoError>,
    r: Result<Vec<(String, String)>, UfoError>,
) -> bool {
    exists|top: Result<PlistTop, UfoError>|
        plist_outcome(read, CONTENTS_PATH@, top) && #[trigger] index_outcome(top, r)
}

/// Decodes the outcome of a read of the property list at `path`.
pub fn decode_read(read: Result<Vec<u8>, UfoError>, path: &str) -> (r: Result<PlistTop, UfoError>)
    ensures
        plist_outcome(read, path@, r),
{
    match read {
        Err(e) => Err(e),
        Ok(bytes) => match decode_plist(bytes.as_slice()) {
            Ok(top) => Ok(top),
            Err(_) => Err(
                UfoError::new(ErrorKind::Plist).with_context(
                    String::from_str("not a valid property list"),
                ).with_path(String::from_str(path)),
            ),
        },
    }
}

/// Reads and decodes property lists through a [`Provider`].
pub struct PlistParser<P> {
    provider: P,
}

impl<P: Provider> PlistParser<P> {
    /// The provider that the parser reads through.
    pub closed spec fn provider_spec(&self) -> P {
        self.provider
    }

    /// A parser that reads through `provider`.
    pub fn new(provider: P) -> (r: Result<PlistParser<P>, UfoError>)
        ensures
            r is Ok,
            r->Ok_0.provider_spec() == provider,
    {
        Ok(PlistParser { provider })
    }

    /// Reads the property list at `path` and decodes its top-level value.
    pub fn parse_plist(&self, path: &str) -> (r: Result<PlistTop, UfoError>)
        ensures
            exists|read: Result<Vec<u8>, UfoError>|
                self.provider_spec().reads(path@, read) && plist_outcome(read, path@, r),
    {
        let read = self.provider.read(path);
        decode_read(read, path)
    }
}

/// The glyph index held by a decoded index file; see [`index_outcome`].
pub fn index_from_plist(top: Result<PlistTop, UfoError>) -> (r: Result<Vec<(String, String)>, UfoError>)
    ensures
        index_outcome(top, r),
{
    match top {
        Err(e) => Err(e),
        Ok(PlistTop::Other) => Err(
            UfoError::new(ErrorKind::Plist).with_context(
                String::from_str("contents.plist is not a dictionary"),
            ).with_path(String::from_str(CONTENTS_PATH)),
        ),
        Ok(PlistTop::Dictionary(entries)) => {
            let mut out: Vec<(String, String)> = Vec::new();
            let ghost all = entries_view(entries@);
            let mut i: usize = 0;
            while i < entries.len()
                invariant
                    i <= entries.len(),
                    all == entries_view(entries@),
                    index_view(out@) == string_entries(all.take(i as int)),
                decreases entries.len() - i,
            {
                assert(all.take(i + 1).drop_last() =~= all.take(i as int));
                match &entries[i].1 {
                    Some(v) => {
                        out.push((entries[i].0.clone(), v.clone()));
                        assert(index_view(out@) =~= string_entries(all.take(i + 1)));
                    },
                    None => {},
                }
                i = i + 1;
            }
            assert(all.take(entries.len() as int) =~= all);
            Ok(out)
        },
    }
}

/// The glyph index that reading the index file gives; see [`contents_outcome`].
pub fn contents_from_read(read: Result<Vec<u8>, UfoError>) -> (r: Result<Vec<(String, String)>, UfoError>)
    ensures
        contents_outcome(read, r),
        r is Ok ==> keys_distinct(index_view(r->Ok_0@)),
{
    let top = decode_read(read, CONTENTS_PATH);
    let ghost decoded = top;
    let r = index_from_plist(top);
    assert(index_outcome(decoded, r));
    proof {
        if let Ok(PlistTop::Dictionary(e)) = decoded {
            law_index_keeps_string_entries(entries_view(e@));
        }
    }
    r
}

/// Reads the glyph index of the package that `provider` gives access to.
///
/// Fails with the read's error where the index file cannot be read, and with
/// a `Plist` error where it does not decode or is not a dictionary. Entries
/// whose value is not a string are left out.
pub fn parse_contents<P: Provider>(provider: &P) -> (r: Result<Vec<(String, String)>, UfoError>)
    ensures
        exists|read: Result<Vec<u8>, UfoError>|
            provider.reads(CONTENTS_PATH@, read) && contents_outcome(read, r),
        r is Ok ==> keys_distinct(index_view(r->Ok_0@)),
{
    let read = provider.read(CONTENTS_PATH);
    contents_from_read(read)
}

/// Of a decoded dictionary, the glyph index keeps exactly the entries whose
/// value is a string: as many handles as there are such entries, each with
/// its value, and, where keys are distinct, no key whose value is not a
/// string.
pub proof fn law_index_keeps_string_entries(e: EntriesView)
    requires
        keys_distinct(e),
    ensures
        string_entries(e).len() == count_strings(e),
        forall|m: int|
            0 <= m < string_entries(e).len() ==> exists|k: int|
                0 <= k < e.len() && (#[trigger] e[k]).0 == (#[trigger] string_entries(e)[m]).0
                    && e[k].1 == Some(string_entries(e)[m].1),
        forall|k: int, m: int|
            0 <= k < e.len() && (#[trigger] e[k]).1 is None && 0 <= m < string_entries(e).len()
                ==> (#[trigger] string_entries(e)[m]).0 != e[k].0,
        keys_distinct(string_entries(e)),
    decreases e.len(),
{
    if e.len() > 0 {
        let rest = e.drop_last();
        assert(keys_distinct(rest)) by {
            assert forall|i: int, j: int| 0 <= i < j < rest.len() implies rest[i].0 != rest[j].0 by {
                assert(rest[i] == e[i] && rest[j] == e[j]);
            }
        }
        law_index_keeps_string_entries(rest);
        let se = string_entries(e);
        let sr = string_entries(rest);
        let last: int = e.len() - 1;
        assert forall|m: int| 0 <= m < se.len() implies exists|k: int|
            0 <= k < e.len() && (#[trigger] e[k]).0 == (#[trigger] se[m]).0 && e[k].1 == Some(se[m].1) by {
            if m < sr.len() {
                assert(se[m] == sr[m]);
                let k = choose|k: int|
                    0 <= k < rest.len() && (#[trigger] rest[k]).0 == (#[trigger] sr[m]).0 && rest[k].1
                        == Some(sr[m].1);
                assert(e[k] == rest[k]);
            } else {
                assert(e[last].0 == se[m].0);
            }
        }
        assert forall|k: int, m: int|
            0 <= k < e.len() && (#[trigger] e[k]).1 is None && 0 <= m < se.len() implies (
            #[trigger] se[m]).0 != e[k].0 by {
            if m < sr.len() {
                assert(se[m] == sr[m]);
                if k < last {
                    assert(e[k] == rest[k]);
                } else {
                    let k2 = choose|k2: int|
                        0 <= k2 < rest.len() && (#[trigger] rest[k2]).0 == (#[trigger] sr[m]).0
                            && rest[k2].1 == Some(sr[m].1);
                    assert(e[k2] == rest[k2]);
                }
            } else {
                assert(e[last].1 is Some);
            }
        }
        assert forall|a: int, b: int| 0 <= a < b < se.len() implies se[a].0 != se[b].0 by {
            assert(se[a] == sr[a]);
            if b < sr.len() {
                assert(se[b] == sr[b]);
            } else {
                let k = choose|k: int|
                    0 <= k < rest.len() && (#[trigger] rest[k]).0 == (#[trigger] sr[a]).0 && rest[k].1
                        == Some(sr[a].1);
                assert(e[k] == rest[k]);
                assert(se[b].0 == e[last].0);
            }
        }
    }
}

/// A glyph index that cannot be read, that does not decode, or whose
/// top-level value is not a dictionary makes loading the index fail: with
/// the read's own error in the first case, with a `Plist` error otherwise.
pub proof fn law_unusable_index_fails(
    read: Result<Vec<u8>, UfoError>,
    c: Result<Vec<(String, String)>, UfoError>,
)
    requires
        contents_outcome(read, c),
    ensures
        read is Err ==> c == Err::<Vec<(String, String)>, UfoError>(read->Err_0),
        read is Ok && plist_document(read->Ok_0@) is None ==> c is Err && c->Err_0.kind
            == ErrorKind::Plist,
        read is Ok && plist_document(read->Ok_0@) == Some(None::<EntriesView>) ==> c is Err
            && c->Err_0.kind == ErrorKind::Plist,
{
    let top = choose|top: Result<PlistTop, UfoError>|
        plist_outcome(read, CONTENTS_PATH@, top) && #[trigger] index_outcome(top, c);
    if read is Ok && plist_document(read->Ok_0@) == Some(None::<EntriesView>) {
        assert(top->Ok_0@ == None::<EntriesView>);
        assert(top->Ok_0 is Other);
    }
}

} // verus!
