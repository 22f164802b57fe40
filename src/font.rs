//! The lazy glyph model: a [`Font`] owns the glyph index and an arena of
//! cache entries, one per glyph name; a [`Glyph`] is a handle into that arena.
//! A glyph's file is read and parsed on the first access to one of its
//! fields, and the record is kept from then on.
use crate::contents::{
    contents_outcome, count_strings, index_view, keys_distinct, law_index_keeps_string_entries,
    parse_contents, string_entries, EntriesView, IndexView, CONTENTS_PATH,
};
use crate::error::{ErrorKind, UfoError};
use crate::glif::{attempt_outcome, GlifParser, GlyphRecord};
use crate::provider::Provider;
use vstd::prelude::*;
use vstd::string::*;

verus! {

/// The file name that `index` gives for `name`, if any.
pub open spec fn file_of(index: IndexView, name: Seq<char>) -> Option<Seq<char>>
    decreases index.len(),
{
    if index.len() == 0 {
        None
    } else if index.last().0 == name {
        Some(index.last().1)
    } else {
        file_of(index.drop_last(), name)
    }
}

/// No name occurs twice.
pub open spec fn names_distinct(names: Seq<Seq<char>>) -> bool {
    forall|i: int, j: int| 0 <= i < j < names.len() ==> #[trigger] names[i] != #[trigger] names[j]
}

/// A glyph handle as the model sees it: its slot in the arena and its name.
pub type GlyphView = (int, Seq<char>);

/// The state of a [`Font`]: its index, and for each slot of its arena the
/// glyph name, the cached record, how many times its record was parsed
/// successfully, and how many times its file was read.
pub struct FontView<R> {
    pub index: IndexView,
    pub names: Seq<Seq<char>>,
    pub records: Seq<Option<R>>,
    pub loads: Seq<nat>,
    pub reads: Seq<nat>,
}

impl<R> FontView<R> {
    /// One slot per name; a record is cached exactly when it was parsed, and
    /// it was parsed at most once.
    pub open spec fn wf(self) -> bool {
        &&& keys_distinct(self.index)
        &&& names_distinct(self.names)
        &&& self.records.len() == self.names.len()
        &&& self.loads.len() == self.names.len()
        &&& self.reads.len() == self.names.len()
        &&& forall|i: int|
            0 <= i < self.names.len() ==> #[trigger] self.loads[i] <= 1 && (self.loads[i] == 1
                <==> self.records[i] is Some)
    }

    /// `g` is a handle into this arena.
    pub open spec fn holds(self, g: GlyphView) -> bool {
        0 <= g.0 < self.names.len() && self.names[g.0] == g.1
    }

    /// `new` is this state with possibly more slots, the old ones unchanged.
    pub open spec fn grows_to(self, new: FontView<R>) -> bool {
        &&& new.index == self.index
        &&& self.names.is_prefix_of(new.names)
        &&& self.records.is_prefix_of(new.records)
        &&& self.loads.is_prefix_of(new.loads)
        &&& self.reads.is_prefix_of(new.reads)
    }
}

/// The effect of looking up `name`: the handle of its slot, made empty where
/// there was none.
pub open spec fn glyph_step<R>(old: FontView<R>, name: Seq<char>, new: FontView<R>, g: GlyphView) -> bool {
    &&& g.1 == name
    &&& new.holds(g)
    &&& if old.names.contains(name) {
        new == old
    } else {
        &&& new.index == old.index
        &&& new.names == old.names.push(name)
        &&& new.records == old.records.push(None)
        &&& new.loads == old.loads.push(0)
        &&& new.reads == old.reads.push(0)
    }
}

/// `s` ends with `t`.
pub open spec fn ends_with(s: Seq<char>, t: Seq<char>) -> bool {
    t.len() <= s.len() && s.subrange(s.len() - t.len(), s.len() as int) == t
}

/// The effect of loading the record of slot `i`, with result `r`, for a font
/// that reads through `provider` and parses with `parser`:
/// - a cached record is returned and nothing changes;
/// - a name without an index entry fails with `MissingAttribute`, with the
///   path of the index file, and nothing changes;
/// - else the file that the index gives is read once more through
///   `provider` and its bytes parsed with `parser`; a parsed record is
///   cached, counted as parsed and returned, and a read or parse error is
///   returned as it came, the slot left empty.
pub open spec fn load_at<P: Provider, G: GlifParser>(
    provider: P,
    parser: G,
    old: FontView<G::Record>,
    i: int,
    new: FontView<G::Record>,
    r: Result<G::Record, UfoError>,
) -> bool {
    match old.records[i] {
        Some(rec) => new == old && r is Ok && cloned(rec, r->Ok_0),
        None => match file_of(old.index, old.names[i]) {
            None => {
                &&& new == old
                &&& r is Err
                &&& r->Err_0.kind matches ErrorKind::MissingAttribute(n) && n@ == old.names[i]
                &&& r->Err_0.path matches Some(p) && ends_with(p@, CONTENTS_PATH@)
            },
            Some(file) => {
                &&& new.index == old.index
                &&& new.names == old.names
                &&& new.reads == old.reads.update(i, old.reads[i] + 1)
                &&& exists|pr: Result<G::Record, UfoError>|
                    #[trigger] attempt_outcome(provider, parser, file, pr) && match pr {
                        Ok(rec) => {
                            &&& r is Ok
                            &&& cloned(rec, r->Ok_0)
                            &&& new.records == old.records.update(i, Some(rec))
                            &&& new.loads == old.loads.update(i, 1)
                        },
                        Err(e) => {
                            &&& r == Err::<G::Record, UfoError>(e)
                            &&& new.records == old.records
                            &&& new.loads == old.loads
                        },
                    }
            },
        },
    }
}

/// `r` succeeds exactly when the load `lr` did, and fails with its error.
pub open spec fn same_outcome<R, T>(lr: Result<R, UfoError>, r: Result<T, UfoError>) -> bool {
    &&& (r is Ok <==> lr is Ok)
    &&& r is Err ==> r->Err_0 == lr->Err_0
}

/// One cache entry of the arena.
struct Slot<R> {
    name: String,
    record: Option<R>,
}

/// A font package opened for lazy access to its glyphs.
pub struct Font<P, G: GlifParser> {
    provider: P,
    parser: G,
    contents: Vec<(String, String)>,
    slots: Vec<Slot<G::Record>>,
    loads: Ghost<Seq<nat>>,
    reads: Ghost<Seq<nat>>,
}

impl<P, G: GlifParser> View for Font<P, G> {
    type V = FontView<G::Record>;

    closed spec fn view(&self) -> FontView<G::Record> {
        FontView {
            index: index_view(self.contents@),
            names: self.slots@.map_values(|s: Slot<G::Record>| s.name@),
            records: self.slots@.map_values(|s: Slot<G::Record>| s.record),
            loads: self.loads@,
            reads: self.reads@,
        }
    }
}

impl<P: Provider, G: GlifParser> Font<P, G> {
    pub open spec fn wf(&self) -> bool {
        self@.wf()
    }

    /// The parser that glyph files are parsed with.
    pub closed spec fn parser_spec(&self) -> G {
        self.parser
    }

    /// `other` reads through the same provider and parses with the same parser.
    pub open spec fn same_io(&self, other: &Font<P, G>) -> bool {
        self.provider_spec() == other.provider_spec() && self.parser_spec() == other.parser_spec()
    }

    /// The provider that the font reads through.
    pub closed spec fn provider_spec(&self) -> P {
        self.provider
    }

    /// Opens the package that `provider` gives access to, reading its glyph
    /// index; glyph files are parsed with `parser`, later, on demand.
    ///
    /// Fails as the index loader does; no glyph file is touched.
    pub fn new(provider: P, parser: G) -> (r: Result<Font<P, G>, UfoError>)
        ensures
            exists|read: Result<Vec<u8>, UfoError>, c: Result<Vec<(String, String)>, UfoError>|
                provider.reads(CONTENTS_PATH@, read) && contents_outcome(read, c) && match r {
                    Ok(f) => {
                        &&& c is Ok
                        &&& f.wf()
                        &&& f@.index == index_view(c->Ok_0@)
                        &&& f@.names.len() == 0
                        &&& f.provider_spec() == provider
                        &&& f.parser_spec() == parser
                    },
                    Err(e) => c == Err::<Vec<(String, String)>, UfoError>(e),
                },
    {
        let c = parse_contents(&provider);
        match c {
            Ok(contents) => {
                let f = Font {
                    provider,
                    parser,
                    contents,
                    slots: Vec::new(),
                    loads: Ghost(Seq::empty()),
                    reads: Ghost(Seq::empty()),
                };
                assert(f@.names =~= Seq::<Seq<char>>::empty());
                Ok(f)
            },
            Err(e) => Err(e),
        }
    }

    /// The provider that the font reads through.
    pub fn provider(&self) -> (r: &P)
        ensures
            *r == self.provider_spec(),
    {
        &self.provider
    }

}

impl<P: Provider, G: GlifParser> Font<P, G> {
    /// The slot named `name`, if there is one.
    fn find_slot(&self, name: &String) -> (r: Option<usize>)
        ensures
            match r {
                Some(i) => self@.holds((i as int, name@)),
                None => !self@.names.contains(name@),
            },
    {
        let mut i: usize = 0;
        while i < self.slots.len()
            invariant
                i <= self.slots.len(),
                forall|j: int| 0 <= j < i ==> self@.names[j] != name@,
            decreases self.slots.len() - i,
        {
            if self.slots[i].name == *name {
                return Some(i);
            }
            i = i + 1;
        }
        None
    }

    /// The file name that the index gives for `name`, if any.
    fn find_file(&self, name: &String) -> (r: Option<String>)
        ensures
            match file_of(self@.index, name@) {
                Some(f) => r is Some && r->Some_0@ == f,
                None => r is None,
            },
    {
        let ghost index = self@.index;
        let mut i: usize = self.contents.len();
        assert(index.take(i as int) =~= index);
        while i > 0
            invariant
                i <= self.contents.len(),
                index == self@.index,
                file_of(index, name@) == file_of(index.take(i as int), name@),
            decreases i,
        {
            let ghost prefix = index.take(i as int);
            assert(prefix.drop_last() =~= index.take(i - 1));
            if self.contents[i - 1].0 == *name {
                return Some(self.contents[i - 1].1.clone());
            }
            i = i - 1;
        }
        None
    }

    /// The handle of the slot named `name`, made empty where there was none.
    fn slot_for(&mut self, name: String) -> (r: Glyph)
        requires
            old(self).wf(),
        ensures
            final(self).wf(),
            final(self).same_io(old(self)),
            glyph_step(old(self)@, name@, final(self)@, r@),
    {
        match self.find_slot(&name) {
            Some(i) => Glyph { index: i, name },
            None => {
                let i: usize = self.slots.len();
                let ghost old_view = self@;
                self.slots.push(Slot { name: name.clone(), record: None });
                self.loads = Ghost(self.loads@.push(0));
                self.reads = Ghost(self.reads@.push(0));
                assert(self@.names =~= old_view.names.push(name@));
                assert(self@.records =~= old_view.records.push(None));
                Glyph { index: i, name }
            },
        }
    }

    /// The handle of the glyph `name`: the cached one where there is one,
    /// else a new one, which is cached.
    ///
    /// A name that the index lacks gets a handle too; the first access to
    /// one of its fields fails with `MissingAttribute`.
    pub fn glyph(&mut self, name: &str) -> (r: Option<Glyph>)
        requires
            old(self).wf(),
        ensures
            final(self).wf(),
            final(self).same_io(old(self)),
            r is Some,
            glyph_step(old(self)@, name@, final(self)@, r->Some_0@),
    {
        Some(self.slot_for(String::from_str(name)))
    }

    /// Whether `g` is a handle into this font.
    pub fn holds(&self, g: &Glyph) -> (r: bool)
        ensures
            r == self@.holds(g@),
    {
        g.index < self.slots.len() && self.slots[g.index].name == g.name
    }
}

/// A handle to one glyph of a [`Font`]: the name, and the slot of the font's
/// arena that caches the record.
pub struct Glyph {
    index: usize,
    name: String,
}

impl View for Glyph {
    type V = GlyphView;

    closed spec fn view(&self) -> GlyphView {
        (self.index as int, self.name@)
    }
}

impl Glyph {
    /// The handle of the glyph `name` in `font`; see [`Font::glyph`].
    pub fn new<P: Provider, G: GlifParser>(font: &mut Font<P, G>, name: String) -> (r: Glyph)
        requires
            old(font).wf(),
        ensures
            final(font).wf(),
            final(font).same_io(old(font)),
            glyph_step(old(font)@, name@, final(font)@, r@),
    {
        font.slot_for(name)
    }

    /// The glyph name.
    pub fn name(&self) -> (r: String)
        ensures
            r@ == self@.1,
    {
        self.name.clone()
    }

    /// The glyph's record: the cached one, else the one parsed now from the
    /// file that the index gives for the name, which is then cached.
    ///
    /// A name without an index entry fails with `MissingAttribute`; a read or
    /// parse failure is returned as it came and leaves the cache empty, so
    /// that a later access tries again.
    pub fn load<P: Provider, G: GlifParser>(&self, font: &mut Font<P, G>) -> (r: Result<
        G::Record,
        UfoError,
    >)
        requires
            old(font).wf(),
            old(font)@.holds(self@),
        ensures
            final(font).wf(),
            final(font).same_io(old(font)),
            load_at(
                old(font).provider_spec(),
                old(font).parser_spec(),
                old(font)@,
                self@.0,
                final(font)@,
                r,
            ),
    {
        let i: usize = self.index;
        match &font.slots[i].record {
            Some(rec) => {
                return Ok(rec.clone());
            },
            None => {},
        }
        let file = match font.find_file(&self.name) {
            Some(f) => f,
            None => {
                let root = font.provider.root();
                let mut path = String::new();
                if root.as_str().unicode_len() > 0 {
                    path.append(root.as_str());
                    path.append("/");
                }
                let ghost prefix = path@;
                path.append(CONTENTS_PATH);
                assert(path@.subrange(prefix.len() as int, path@.len() as int) =~= CONTENTS_PATH@);
                return Err(
                    UfoError::new(ErrorKind::MissingAttribute(self.name.clone())).with_path(path),
                );
            },
        };
        let ghost old_view = font@;
        let ghost provider = font.provider_spec();
        let ghost parser = font.parser_spec();
        font.reads = Ghost(font.reads@.update(i as int, font.reads@[i as int] + 1));
        assert(font@.records =~= old_view.records);
        let read = font.provider.read(file.as_str());
        let ghost got = read;
        assert(provider.reads(file@, got));
        let bytes = match read {
            Ok(b) => b,
            Err(e) => {
                assert(attempt_outcome(provider, parser, file@, Err::<G::Record, UfoError>(e)));
                return Err(e);
            },
        };
        let parsed = font.parser.parse_glif(file.as_str(), bytes.as_slice());
        assert(attempt_outcome(provider, parser, file@, parsed));
        match parsed {
            Ok(rec) => {
                let out = rec.clone();
                let name = font.slots[i].name.clone();
                font.slots.set(i, Slot { name, record: Some(rec) });
                font.loads = Ghost(font.loads@.update(i as int, 1));
                assert(font@.names =~= old_view.names);
                assert(font@.records =~= old_view.records.update(i as int, Some(rec)));
                Ok(out)
            },
            Err(e) => Err(e),
        }
    }
}

impl Glyph {
    /// The major format version of the glyph file, as the cached record gives it; the record is loaded first
    /// (see [`Glyph::load`]), and a failed load is returned as it came.
    pub fn format<P: Provider, G: GlifParser>(&self, font: &mut Font<P, G>) -> (r: Result<
        String,
        UfoError,
    >)
        requires
            old(font).wf(),
            old(font)@.holds(self@),
        ensures
            final(font).wf(),
            final(font).same_io(old(font)),
            exists|lr: Result<G::Record, UfoError>|
                load_at(
                    old(font).provider_spec(),
                    old(font).parser_spec(),
                    old(font)@,
                    self@.0,
                    final(font)@,
                    lr,
                ) && same_outcome(lr, r),
            r is Ok ==> final(font)@.records[self@.0] is Some && call_ensures(
                <G::Record as GlyphRecord>::format,
                (&final(font)@.records[self@.0]->Some_0,),
                r->Ok_0,
            ),
    {
        let lr = self.load(font);
        let ghost loaded = lr;
        let r = match lr {
            Ok(_) => match &font.slots[self.index].record {
                Some(rec) => Ok(rec.format()),
                None => Err(UfoError::new(ErrorKind::Parse)),
            },
            Err(e) => Err(e),
        };
        assert(same_outcome(loaded, r));
        r
    }

    /// The minor format version of the glyph file, if any, as the cached record gives it; the record is loaded first
    /// (see [`Glyph::load`]), and a failed load is returned as it came.
    pub fn format_minor<P: Provider, G: GlifParser>(&self, font: &mut Font<P, G>) -> (r: Result<
        Option<String>,
        UfoError,
    >)
        requires
            old(font).wf(),
            old(font)@.holds(self@),
        ensures
            final(font).wf(),
            final(font).same_io(old(font)),
            exists|lr: Result<G::Record, UfoError>|
                load_at(
                    old(font).provider_spec(),
                    old(font).parser_spec(),
                    old(font)@,
                    self@.0,
                    final(font)@,
                    lr,
                ) && same_outcome(lr, r),
            r is Ok ==> final(font)@.records[self@.0] is Some && call_ensures(
                <G::Record as GlyphRecord>::format_minor,
                (&final(font)@.records[self@.0]->Some_0,),
                r->Ok_0,
            ),
    {
        let lr = self.load(font);
        let ghost loaded = lr;
        let r = match lr {
            Ok(_) => match &font.slots[self.index].record {
                Some(rec) => Ok(rec.format_minor()),
                None => Err(UfoError::new(ErrorKind::Parse)),
            },
            Err(e) => Err(e),
        };
        assert(same_outcome(loaded, r));
        r
    }

    /// The advance width and height of the glyph, if any, as the cached record gives it; the record is loaded first
    /// (see [`Glyph::load`]), and a failed load is returned as it came.
    pub fn advance<P: Provider, G: GlifParser>(&self, font: &mut Font<P, G>) -> (r: Result<
        Option<<G::Record as GlyphRecord>::Advance>,
        UfoError,
    >)
        requires
            old(font).wf(),
            old(font)@.holds(self@),
        ensures
            final(font).wf(),
            final(font).same_io(old(font)),
            exists|lr: Result<G::Record, UfoError>|
                load_at(
                    old(font).provider_spec(),
                    old(font).parser_spec(),
                    old(font)@,
                    self@.0,
                    final(font)@,
                    lr,
                ) && same_outcome(lr, r),
            r is Ok ==> final(font)@.records[self@.0] is Some && call_ensures(
                <G::Record as GlyphRecord>::advance,
                (&final(font)@.records[self@.0]->Some_0,),
                r->Ok_0,
            ),
    {
        let lr = self.load(font);
        let ghost loaded = lr;
        let r = match lr {
            Ok(_) => match &font.slots[self.index].record {
                Some(rec) => Ok(rec.advance()),
                None => Err(UfoError::new(ErrorKind::Parse)),
            },
            Err(e) => Err(e),
        };
        assert(same_outcome(loaded, r));
        r
    }

    /// The Unicode code points of the glyph, as the cached record gives it; the record is loaded first
    /// (see [`Glyph::load`]), and a failed load is returned as it came.
    pub fn unicodes<P: Provider, G: GlifParser>(&self, font: &mut Font<P, G>) -> (r: Result<
        Vec<u32>,
        UfoError,
    >)
        requires
            old(font).wf(),
            old(font)@.holds(self@),
        ensures
            final(font).wf(),
            final(font).same_io(old(font)),
            exists|lr: Result<G::Record, UfoError>|
                load_at(
                    old(font).provider_spec(),
                    old(font).parser_spec(),
                    old(font)@,
                    self@.0,
                    final(font)@,
                    lr,
                ) && same_outcome(lr, r),
            r is Ok ==> final(font)@.records[self@.0] is Some && call_ensures(
                <G::Record as GlyphRecord>::unicodes,
                (&final(font)@.records[self@.0]->Some_0,),
                r->Ok_0,
            ),
    {
        let lr = self.load(font);
        let ghost loaded = lr;
        let r = match lr {
            Ok(_) => match &font.slots[self.index].record {
                Some(rec) => Ok(rec.unicodes()),
                None => Err(UfoError::new(ErrorKind::Parse)),
            },
            Err(e) => Err(e),
        };
        assert(same_outcome(loaded, r));
        r
    }

    /// The note of the glyph, if any, as the cached record gives it; the record is loaded first
    /// (see [`Glyph::load`]), and a failed load is returned as it came.
    pub fn note<P: Provider, G: GlifParser>(&self, font: &mut Font<P, G>) -> (r: Result<
        Option<String>,
        UfoError,
    >)
        requires
            old(font).wf(),
            old(font)@.holds(self@),
        ensures
            final(font).wf(),
            final(font).same_io(old(font)),
            exists|lr: Result<G::Record, UfoError>|
                load_at(
                    old(font).provider_spec(),
                    old(font).parser_spec(),
                    old(font)@,
                    self@.0,
                    final(font)@,
                    lr,
                ) && same_outcome(lr, r),
            r is Ok ==> final(font)@.records[self@.0] is Some && call_ensures(
                <G::Record as GlyphRecord>::note,
                (&final(font)@.records[self@.0]->Some_0,),
                r->Ok_0,
            ),
    {
        let lr = self.load(font);
        let ghost loaded = lr;
        let r = match lr {
            Ok(_) => match &font.slots[self.index].record {
                Some(rec) => Ok(rec.note()),
                None => Err(UfoError::new(ErrorKind::Parse)),
            },
            Err(e) => Err(e),
        };
        assert(same_outcome(loaded, r));
        r
    }

    /// The image reference of the glyph, if any, as the cached record gives it; the record is loaded first
    /// (see [`Glyph::load`]), and a failed load is returned as it came.
    pub fn image<P: Provider, G: GlifParser>(&self, font: &mut Font<P, G>) -> (r: Result<
        Option<<G::Record as GlyphRecord>::Image>,
        UfoError,
    >)
        requires
            old(font).wf(),
            old(font)@.holds(self@),
        ensures
            final(font).wf(),
            final(font).same_io(old(font)),
            exists|lr: Result<G::Record, UfoError>|
                load_at(
                    old(font).provider_spec(),
                    old(font).parser_spec(),
                    old(font)@,
                    self@.0,
                    final(font)@,
                    lr,
                ) && same_outcome(lr, r),
            r is Ok ==> final(font)@.records[self@.0] is Some && call_ensures(
                <G::Record as GlyphRecord>::image,
                (&final(font)@.records[self@.0]->Some_0,),
                r->Ok_0,
            ),
    {
        let lr = self.load(font);
        let ghost loaded = lr;
        let r = match lr {
            Ok(_) => match &font.slots[self.index].record {
                Some(rec) => Ok(rec.image()),
                None => Err(UfoError::new(ErrorKind::Parse)),
            },
            Err(e) => Err(e),
        };
        assert(same_outcome(loaded, r));
        r
    }

    /// The guidelines of the glyph, as the cached record gives it; the record is loaded first
    /// (see [`Glyph::load`]), and a failed load is returned as it came.
    pub fn guidelines<P: Provider, G: GlifParser>(&self, font: &mut Font<P, G>) -> (r: Result<
        Vec<<G::Record as GlyphRecord>::Guideline>,
        UfoError,
    >)
        requires
            old(font).wf(),
            old(font)@.holds(self@),
        ensures
            final(font).wf(),
            final(font).same_io(old(font)),
            exists|lr: Result<G::Record, UfoError>|
                load_at(
                    old(font).provider_spec(),
                    old(font).parser_spec(),
                    old(font)@,
                    self@.0,
                    final(font)@,
                    lr,
                ) && same_outcome(lr, r),
            r is Ok ==> final(font)@.records[self@.0] is Some && call_ensures(
                <G::Record as GlyphRecord>::guidelines,
                (&final(font)@.records[self@.0]->Some_0,),
                r->Ok_0,
            ),
    {
        let lr = self.load(font);
        let ghost loaded = lr;
        let r = match lr {
            Ok(_) => match &font.slots[self.index].record {
                Some(rec) => Ok(rec.guidelines()),
                None => Err(UfoError::new(ErrorKind::Parse)),
            },
            Err(e) => Err(e),
        };
        assert(same_outcome(loaded, r));
        r
    }

    /// The anchors of the glyph, as the cached record gives it; the record is loaded first
    /// (see [`Glyph::load`]), and a failed load is returned as it came.
    pub fn anchors<P: Provider, G: GlifParser>(&self, font: &mut Font<P, G>) -> (r: Result<
        Vec<<G::Record as GlyphRecord>::Anchor>,
        UfoError,
    >)
        requires
            old(font).wf(),
            old(font)@.holds(self@),
        ensures
            final(font).wf(),
            final(font).same_io(old(font)),
            exists|lr: Result<G::Record, UfoError>|
                load_at(
                    old(font).provider_spec(),
                    old(font).parser_spec(),
                    old(font)@,
                    self@.0,
                    final(font)@,
                    lr,
                ) && same_outcome(lr, r),
            r is Ok ==> final(font)@.records[self@.0] is Some && call_ensures(
                <G::Record as GlyphRecord>::anchors,
                (&final(font)@.records[self@.0]->Some_0,),
                r->Ok_0,
            ),
    {
        let lr = self.load(font);
        let ghost loaded = lr;
        let r = match lr {
            Ok(_) => match &font.slots[self.index].record {
                Some(rec) => Ok(rec.anchors()),
                None => Err(UfoError::new(ErrorKind::Parse)),
            },
            Err(e) => Err(e),
        };
        assert(same_outcome(loaded, r));
        r
    }

    /// The outline of the glyph, if any, as the cached record gives it; the record is loaded first
    /// (see [`Glyph::load`]), and a failed load is returned as it came.
    pub fn outline<P: Provider, G: GlifParser>(&self, font: &mut Font<P, G>) -> (r: Result<
        Option<<G::Record as GlyphRecord>::Outline>,
        UfoError,
    >)
        requires
            old(font).wf(),
            old(font)@.holds(self@),
        ensures
            final(font).wf(),
            final(font).same_io(old(font)),
            exists|lr: Result<G::Record, UfoError>|
                load_at(
                    old(font).provider_spec(),
                    old(font).parser_spec(),
                    old(font)@,
                    self@.0,
                    final(font)@,
                    lr,
                ) && same_outcome(lr, r),
            r is Ok ==> final(font)@.records[self@.0] is Some && call_ensures(
                <G::Record as GlyphRecord>::outline,
                (&final(font)@.records[self@.0]->Some_0,),
                r->Ok_0,
            ),
    {
        let lr = self.load(font);
        let ghost loaded = lr;
        let r = match lr {
            Ok(_) => match &font.slots[self.index].record {
                Some(rec) => Ok(rec.outline()),
                None => Err(UfoError::new(ErrorKind::Parse)),
            },
            Err(e) => Err(e),
        };
        assert(same_outcome(loaded, r));
        r
    }

    /// The library value of the glyph, if any, as the cached record gives it; the record is loaded first
    /// (see [`Glyph::load`]), and a failed load is returned as it came.
    pub fn lib<P: Provider, G: GlifParser>(&self, font: &mut Font<P, G>) -> (r: Result<
        Option<<G::Record as GlyphRecord>::Lib>,
        UfoError,
    >)
        requires
            old(font).wf(),
            old(font)@.holds(self@),
        ensures
            final(font).wf(),
            final(font).same_io(old(font)),
            exists|lr: Result<G::Record, UfoError>|
                load_at(
                    old(font).provider_spec(),
                    old(font).parser_spec(),
                    old(font)@,
                    self@.0,
                    final(font)@,
                    lr,
                ) && same_outcome(lr, r),
            r is Ok ==> final(font)@.records[self@.0] is Some && call_ensures(
                <G::Record as GlyphRecord>::lib,
                (&final(font)@.records[self@.0]->Some_0,),
                r->Ok_0,
            ),
    {
        let lr = self.load(font);
        let ghost loaded = lr;
        let r = match lr {
            Ok(_) => match &font.slots[self.index].record {
                Some(rec) => Ok(rec.lib()),
                None => Err(UfoError::new(ErrorKind::Parse)),
            },
            Err(e) => Err(e),
        };
        assert(same_outcome(loaded, r));
        r
    }
}

/// A lookup only adds slots.
proof fn lemma_glyph_step_grows<R>(old: FontView<R>, name: Seq<char>, new: FontView<R>, g: GlyphView)
    requires
        glyph_step(old, name, new, g),
    ensures
        old.grows_to(new),
{
    if !old.names.contains(name) {
        assert(old.names =~= new.names.subrange(0, old.names.len() as int));
        assert(old.records =~= new.records.subrange(0, old.records.len() as int));
        assert(old.loads =~= new.loads.subrange(0, old.loads.len() as int));
        assert(old.reads =~= new.reads.subrange(0, old.reads.len() as int));
    }
}

/// A handle stays a handle as the arena grows.
proof fn lemma_holds_grows<R>(a: FontView<R>, b: FontView<R>, g: GlyphView)
    requires
        a.grows_to(b),
        a.holds(g),
    ensures
        b.holds(g),
{
    assert(a.names[g.0] == b.names.subrange(0, a.names.len() as int)[g.0]);
}

/// Growing twice is growing.
proof fn lemma_grows_trans<R>(a: FontView<R>, b: FontView<R>, c: FontView<R>)
    requires
        a.grows_to(b),
        b.grows_to(c),
    ensures
        a.grows_to(c),
{
    assert(a.names =~= c.names.subrange(0, a.names.len() as int));
    assert(a.records =~= c.records.subrange(0, a.records.len() as int));
    assert(a.loads =~= c.loads.subrange(0, a.loads.len() as int));
    assert(a.reads =~= c.reads.subrange(0, a.reads.len() as int));
}

/// The arena names after making a slot for each of `keys`, in order, that
/// has none yet.
pub open spec fn warm(names: Seq<Seq<char>>, keys: Seq<Seq<char>>) -> Seq<Seq<char>>
    decreases keys.len(),
{
    if keys.len() == 0 {
        names
    } else {
        let w = warm(names, keys.drop_last());
        if w.contains(keys.last()) {
            w
        } else {
            w.push(keys.last())
        }
    }
}

/// Every slot of an arena with these names, in order, as a name and its handle.
pub open spec fn arena_handles(names: Seq<Seq<char>>) -> Seq<(Seq<char>, GlyphView)> {
    Seq::new(names.len(), |k: int| (names[k], (k, names[k])))
}

/// The effect of taking every glyph: a slot is made, empty, for each index
/// name that has none, and the result is every slot of the arena, in order,
/// with its handle; names looked up before that the index lacks stay in.
pub open spec fn glyphs_step<R>(old: FontView<R>, new: FontView<R>, r: Seq<(Seq<char>, GlyphView)>) -> bool {
    &&& old.grows_to(new)
    &&& new.names == warm(old.names, index_names(old.index))
    &&& forall|k: int|
        old.names.len() <= k < new.names.len() ==> (#[trigger] new.records[k]) is None
            && new.loads[k] == 0 && new.reads[k] == 0
    &&& r == arena_handles(new.names)
}

/// The names and handles of `v`, as the model sees them.
pub open spec fn handles_view(v: Seq<(String, Glyph)>) -> Seq<(Seq<char>, GlyphView)> {
    v.map_values(|e: (String, Glyph)| (e.0@, e.1@))
}

impl<P: Provider, G: GlifParser> Font<P, G> {
    /// Every glyph handle of the font, each with its name: a handle is made
    /// and cached first for each index name that has none yet, and handles
    /// made before for names that the index lacks are included. No record is
    /// parsed.
    pub fn glyphs(&mut self) -> (r: Vec<(String, Glyph)>)
        requires
            old(self).wf(),
        ensures
            final(self).wf(),
            final(self).same_io(old(self)),
            glyphs_step(old(self)@, final(self)@, handles_view(r@)),
    {
        let ghost start = self@;
        let ghost keys = index_names(start.index);
        let mut i: usize = 0;
        assert(start.names =~= self@.names.subrange(0, start.names.len() as int));
        assert(start.records =~= self@.records.subrange(0, start.records.len() as int));
        assert(start.loads =~= self@.loads.subrange(0, start.loads.len() as int));
        assert(start.reads =~= self@.reads.subrange(0, start.reads.len() as int));
        assert(keys.take(0) =~= Seq::<Seq<char>>::empty());
        let n: usize = self.contents.len();
        while i < n
            invariant
                n == start.index.len(),
                keys == index_names(start.index),
                self.contents@.len() == self@.index.len(),
                i <= n,
                self.wf(),
                self.same_io(old(self)),
                old(self)@ == start,
                start.grows_to(self@),
                self@.names == warm(start.names, keys.take(i as int)),
                forall|k: int|
                    start.names.len() <= k < self@.names.len() ==> (#[trigger] self@.records[k])
                        is None && self@.loads[k] == 0 && self@.reads[k] == 0,
            decreases n - i,
        {
            let ghost before = self@;
            let name = self.contents[i].0.clone();
            assert(keys[i as int] == name@);
            assert(keys.take(i + 1).drop_last() =~= keys.take(i as int));
            let g = self.slot_for(name);
            proof {
                lemma_glyph_step_grows(before, name@, self@, g@);
                lemma_grows_trans(start, before, self@);
            }
            i = i + 1;
        }
        assert(keys.take(n as int) =~= keys);
        let mut out: Vec<(String, Glyph)> = Vec::new();
        let mut k: usize = 0;
        while k < self.slots.len()
            invariant
                k <= self.slots.len(),
                self@.names.len() == self.slots@.len(),
                out@.len() == k,
                handles_view(out@) == arena_handles(self@.names).take(k as int),
            decreases self.slots.len() - k,
        {
            let ghost prev = out@;
            let name = self.slots[k].name.clone();
            out.push((self.slots[k].name.clone(), Glyph { index: k, name }));
            assert(out@ =~= prev.push(out@[k as int]));
            assert(self@.names[k as int] == self.slots@[k as int].name@);
            assert(handles_view(out@) =~= arena_handles(self@.names).take(k + 1));
            k = k + 1;
        }
        assert(arena_handles(self@.names).take(k as int) =~= arena_handles(self@.names));
        out
    }
}

/// The glyph names of an index, in order.
pub open spec fn index_names(index: IndexView) -> Seq<Seq<char>> {
    index.map_values(|e: (Seq<char>, Seq<char>)| e.0)
}

impl<P: Provider, G: GlifParser> Font<P, G> {
    /// A copy of the glyph index.
    pub fn contents(&self) -> (r: Vec<(String, String)>)
        ensures
            index_view(r@) == self@.index,
    {
        let mut out: Vec<(String, String)> = Vec::new();
        let mut i: usize = 0;
        while i < self.contents.len()
            invariant
                i <= self.contents.len(),
                out@.len() == i,
                index_view(out@) == self@.index.take(i as int),
            decreases self.contents.len() - i,
        {
            let ghost prev = out@;
            out.push((self.contents[i].0.clone(), self.contents[i].1.clone()));
            assert(out@ =~= prev.push(out@[i as int]));
            assert(index_view(out@) =~= index_view(prev).push(self@.index[i as int]));
            assert(index_view(out@) =~= self@.index.take(i + 1));
            i = i + 1;
        }
        assert(self@.index.take(i as int) =~= self@.index);
        out
    }

    /// The glyph names of the index, in order.
    pub fn names(&self) -> (r: Vec<String>)
        ensures
            r@.map_values(|s: String| s@) == index_names(self@.index),
    {
        let mut out: Vec<String> = Vec::new();
        let mut i: usize = 0;
        while i < self.contents.len()
            invariant
                i <= self.contents.len(),
                out@.len() == i,
                out@.map_values(|s: String| s@) == index_names(self@.index).take(i as int),
            decreases self.contents.len() - i,
        {
            let ghost prev = out@;
            out.push(self.contents[i].0.clone());
            assert(out@ =~= prev.push(out@[i as int]));
            assert(index_names(self@.index)[i as int] == self@.index[i as int].0);
            assert(out@.map_values(|s: String| s@) =~= prev.map_values(|s: String| s@).push(
                self@.index[i as int].0,
            ));
            assert(out@.map_values(|s: String| s@) =~= index_names(self@.index).take(i + 1));
            i = i + 1;
        }
        assert(index_names(self@.index).take(i as int) =~= index_names(self@.index));
        out
    }

    /// A fresh cursor over the glyph names of the index; see [`Iter`].
    pub fn iter(&self) -> (r: Iter)
        ensures
            r@ == (index_names(self@.index), 0int),
    {
        Iter::new(self)
    }
}

/// A cursor over the glyph names that a font's index held when the cursor
/// was made. Each step yields the handle of the next name, through the same
/// cache as [`Font::glyph`].
pub struct Iter {
    keys: Vec<String>,
    pos: usize,
}

impl View for Iter {
    /// The names, and the position of the next one.
    type V = (Seq<Seq<char>>, int);

    closed spec fn view(&self) -> (Seq<Seq<char>>, int) {
        (self.keys@.map_values(|s: String| s@), self.pos as int)
    }
}

impl Iter {
    /// A cursor at the first glyph name of `font`'s index.
    pub fn new<P: Provider, G: GlifParser>(font: &Font<P, G>) -> (r: Iter)
        ensures
            r@ == (index_names(font@.index), 0int),
    {
        Iter { keys: font.names(), pos: 0 }
    }

    /// The handle of the next name, or `None` once every name was yielded.
    pub fn next<P: Provider, G: GlifParser>(&mut self, font: &mut Font<P, G>) -> (r: Option<Glyph>)
        requires
            old(font).wf(),
        ensures
            final(font).wf(),
            final(font).same_io(old(font)),
            if old(self)@.1 < old(self)@.0.len() {
                &&& r is Some
                &&& glyph_step(old(font)@, old(self)@.0[old(self)@.1], final(font)@, r->Some_0@)
                &&& final(self)@ == (old(self)@.0, old(self)@.1 + 1)
            } else {
                &&& r is None
                &&& final(font)@ == old(font)@
                &&& final(self)@ == old(self)@
            },
    {
        if self.pos < self.keys.len() {
            let g = font.slot_for(self.keys[self.pos].clone());
            self.pos = self.pos + 1;
            Some(g)
        } else {
            None
        }
    }
}

/// Making a slot for each of a list of distinct names, in an empty arena,
/// gives exactly those names in order.
proof fn lemma_warm_fresh(keys: Seq<Seq<char>>)
    requires
        names_distinct(keys),
    ensures
        warm(Seq::empty(), keys) == keys,
    decreases keys.len(),
{
    if keys.len() > 0 {
        let rest = keys.drop_last();
        assert(names_distinct(rest)) by {
            assert forall|i: int, j: int| 0 <= i < j < rest.len() implies rest[i] != rest[j] by {
                assert(rest[i] == keys[i] && rest[j] == keys[j]);
            }
        }
        lemma_warm_fresh(rest);
        if rest.contains(keys.last()) {
            let i = choose|i: int| 0 <= i < rest.len() && rest[i] == keys.last();
            assert(keys[i] == keys[keys.len() - 1]);
        }
        assert(rest.push(keys.last()) =~= keys);
    }
}

/// Taking every glyph of a font just opened on an index read from a
/// dictionary with distinct keys gives one handle per entry with a string
/// value, in order, and none for an entry whose value is not a string.
pub proof fn law_all_glyphs_are_string_entries<R>(
    e: EntriesView,
    old: FontView<R>,
    new: FontView<R>,
    r: Seq<(Seq<char>, GlyphView)>,
)
    requires
        keys_distinct(e),
        old.index == string_entries(e),
        old.names.len() == 0,
        glyphs_step(old, new, r),
    ensures
        r.len() == count_strings(e),
        forall|m: int| 0 <= m < r.len() ==> (#[trigger] r[m]).0 == string_entries(e)[m].0,
        forall|k: int, m: int|
            0 <= k < e.len() && (#[trigger] e[k]).1 is None && 0 <= m < r.len() ==> (#[trigger] r[m]).0
                != e[k].0,
{
    law_index_keeps_string_entries(e);
    let keys = index_names(old.index);
    assert(names_distinct(keys)) by {
        assert forall|i: int, j: int| 0 <= i < j < keys.len() implies keys[i] != keys[j] by {
            assert(keys[i] == old.index[i].0 && keys[j] == old.index[j].0);
        }
    }
    assert(old.names =~= Seq::<Seq<char>>::empty());
    lemma_warm_fresh(keys);
    assert forall|k: int, m: int|
        0 <= k < e.len() && (#[trigger] e[k]).1 is None && 0 <= m < r.len() implies (
        #[trigger] r[m]).0 != e[k].0 by {
        assert(r[m].0 == string_entries(e)[m].0);
    }
}

/// Making slots for names that all have one already changes nothing.
proof fn lemma_warm_present(names: Seq<Seq<char>>, keys: Seq<Seq<char>>)
    requires
        forall|k: int| 0 <= k < keys.len() ==> names.contains(#[trigger] keys[k]),
    ensures
        warm(names, keys) == names,
    decreases keys.len(),
{
    if keys.len() > 0 {
        lemma_warm_present(names, keys.drop_last());
        assert(names.contains(keys[keys.len() - 1]));
    }
}

/// Every name of `keys` has a slot after making slots for them.
proof fn lemma_warm_contains(names: Seq<Seq<char>>, keys: Seq<Seq<char>>)
    ensures
        forall|k: int| 0 <= k < keys.len() ==> warm(names, keys).contains(#[trigger] keys[k]),
        names.is_prefix_of(warm(names, keys)),
    decreases keys.len(),
{
    if keys.len() > 0 {
        let rest = keys.drop_last();
        lemma_warm_contains(names, rest);
        let w = warm(names, rest);
        assert forall|k: int| 0 <= k < keys.len() implies warm(names, keys).contains(
            #[trigger] keys[k],
        ) by {
            if k < rest.len() {
                assert(rest[k] == keys[k]);
                let j = choose|j: int| 0 <= j < w.len() && w[j] == rest[k];
                assert(warm(names, keys)[j] == w[j]);
            } else if !w.contains(keys.last()) {
                assert(warm(names, keys)[w.len() as int] == keys.last());
            }
        }
        assert(names =~= warm(names, keys).subrange(0, names.len() as int));
    }
}

/// Taking every glyph twice in a row gives the same handles, and the
/// second time makes no slot.
pub proof fn law_all_glyphs_twice<R>(
    f0: FontView<R>,
    f1: FontView<R>,
    r1: Seq<(Seq<char>, GlyphView)>,
    f2: FontView<R>,
    r2: Seq<(Seq<char>, GlyphView)>,
)
    requires
        glyphs_step(f0, f1, r1),
        glyphs_step(f1, f2, r2),
    ensures
        f2.names == f1.names,
        r2 == r1,
{
    let keys = index_names(f0.index);
    lemma_warm_contains(f0.names, keys);
    lemma_warm_present(f1.names, keys);
}

/// Looking up one name twice on one font gives the same handle, whatever
/// happened in between, as long as the arena kept its slots.
pub proof fn law_same_name_same_handle<R>(
    f0: FontView<R>,
    f1: FontView<R>,
    f2: FontView<R>,
    f3: FontView<R>,
    name: Seq<char>,
    g1: GlyphView,
    g2: GlyphView,
)
    requires
        glyph_step(f0, name, f1, g1),
        f1.names.is_prefix_of(f2.names),
        f2.wf(),
        glyph_step(f2, name, f3, g2),
    ensures
        g1 == g2,
        f3 == f2,
{
    assert(f1.names[g1.0] == f2.names[g1.0]);
    assert(f2.names.contains(name));
}

/// One load keeps the arena well formed and its size, and leaves a slot
/// whose record was cached as it was, its file unread.
proof fn lemma_load_step<P: Provider, G: GlifParser>(
    provider: P,
    parser: G,
    old: FontView<G::Record>,
    j: int,
    new: FontView<G::Record>,
    r: Result<G::Record, UfoError>,
    i: int,
)
    requires
        old.wf(),
        0 <= j < old.names.len(),
        0 <= i < old.names.len(),
        load_at(provider, parser, old, j, new, r),
    ensures
        new.wf(),
        new.names == old.names,
        old.records[i] is Some ==> new.reads[i] == old.reads[i] && new.records[i] == old.records[i],
{
    if old.records[j] is None && file_of(old.index, old.names[j]) is Some {
        let file = file_of(old.index, old.names[j])->Some_0;
        let pr = choose|pr: Result<G::Record, UfoError>|
            #[trigger] attempt_outcome(provider, parser, file, pr) && match pr {
                Ok(rec) => {
                    &&& r is Ok
                    &&& cloned(rec, r->Ok_0)
                    &&& new.records == old.records.update(j, Some(rec))
                    &&& new.loads == old.loads.update(j, 1)
                },
                Err(e) => {
                    &&& r == Err::<G::Record, UfoError>(e)
                    &&& new.records == old.records
                    &&& new.loads == old.loads
                },
            };
        assert forall|k: int| 0 <= k < new.names.len() implies #[trigger] new.loads[k] <= 1 && (
        new.loads[k] == 1 <==> new.records[k] is Some) by {
            if k != j {
                assert(new.loads[k] == old.loads[k]);
                assert(new.records[k] == old.records[k]);
            }
        }
    }
}

/// Along a run of loads on a font, on any of its handles, the first `n + 1`
/// states are well formed, and a record cached at some state is still
/// cached at state `n`, its file not read since.
proof fn lemma_load_run<P: Provider, G: GlifParser>(
    provider: P,
    parser: G,
    fonts: Seq<FontView<G::Record>>,
    slots: Seq<int>,
    results: Seq<Result<G::Record, UfoError>>,
    i: int,
    n: int,
)
    requires
        fonts.len() == slots.len() + 1,
        results.len() == slots.len(),
        fonts[0].wf(),
        0 <= i < fonts[0].names.len(),
        forall|k: int|
            0 <= k < slots.len() ==> 0 <= #[trigger] slots[k] < fonts[k].names.len() && load_at(
                provider,
                parser,
                fonts[k],
                slots[k],
                fonts[k + 1],
                results[k],
            ),
        0 <= n < fonts.len(),
    ensures
        fonts[n].wf(),
        fonts[n].names == fonts[0].names,
        forall|k: int|
            0 <= k <= n && (#[trigger] fonts[k].records[i]) is Some ==> fonts[n].reads[i]
                == fonts[k].reads[i] && fonts[n].records[i] == fonts[k].records[i],
    decreases n,
{
    if n > 0 {
        lemma_load_run(provider, parser, fonts, slots, results, i, n - 1);
        assert(0 <= slots[n - 1] < fonts[n - 1].names.len());
        lemma_load_step(provider, parser, fonts[n - 1], slots[n - 1], fonts[n], results[n - 1], i);
    }
}

/// Along any run of field accesses on a font, each on any of its handles,
/// a glyph's record is parsed successfully at most once; once it is cached,
/// its file is never read again and the record stays as it is.
pub proof fn law_parsed_at_most_once<P: Provider, G: GlifParser>(
    provider: P,
    parser: G,
    fonts: Seq<FontView<G::Record>>,
    slots: Seq<int>,
    results: Seq<Result<G::Record, UfoError>>,
    i: int,
)
    requires
        fonts.len() == slots.len() + 1,
        results.len() == slots.len(),
        fonts[0].wf(),
        0 <= i < fonts[0].names.len(),
        forall|k: int|
            0 <= k < slots.len() ==> 0 <= #[trigger] slots[k] < fonts[k].names.len() && load_at(
                provider,
                parser,
                fonts[k],
                slots[k],
                fonts[k + 1],
                results[k],
            ),
    ensures
        forall|k: int| 0 <= k < fonts.len() ==> (#[trigger] fonts[k].loads[i]) <= 1,
        forall|k1: int, k2: int|
            0 <= k1 <= k2 < fonts.len() && (#[trigger] fonts[k1].records[i]) is Some ==> (
            #[trigger] fonts[k2].reads[i]) == fonts[k1].reads[i] && fonts[k2].records[i]
                == fonts[k1].records[i],
{
    assert forall|k: int| 0 <= k < fonts.len() implies (#[trigger] fonts[k].loads[i]) <= 1 by {
        lemma_load_run(provider, parser, fonts, slots, results, i, k);
    }
    assert forall|k1: int, k2: int|
        0 <= k1 <= k2 < fonts.len() && (#[trigger] fonts[k1].records[i]) is Some implies (
        #[trigger] fonts[k2].reads[i]) == fonts[k1].reads[i] && fonts[k2].records[i]
            == fonts[k1].records[i] by {
        lemma_load_run(provider, parser, fonts, slots, results, i, k2);
    }
}

} // verus!
