//! Eager, best-effort reading of every glyph of a package, with no cache.
use crate::contents::{contents_outcome, index_view, parse_contents, IndexView, CONTENTS_PATH};
use crate::error::UfoError;
use crate::glif::{attempt_outcome, GlifParser};
use crate::provider::Provider;
use vstd::prelude::*;

verus! {

/// The record of an attempt to read and parse a glyph, or `None` where it failed.
pub open spec fn attempt_record<R>(a: Result<R, UfoError>) -> Option<R> {
    match a {
        Ok(x) => Some(x),
        Err(_) => None,
    }
}

/// The map that a best-effort read gives: each index entry's name, in
/// order, with the record of the attempt made for it.
pub open spec fn best_effort<R>(index: IndexView, attempts: Seq<Result<R, UfoError>>) -> Seq<
    (Seq<char>, Option<R>),
> {
    Seq::new(index.len(), |k: int| (index[k].0, attempt_record(attempts[k])))
}

/// The names and records of `v`, as the model sees them.
pub open spec fn glean_view<R>(v: Seq<(String, Option<R>)>) -> Seq<(Seq<char>, Option<R>)> {
    v.map_values(|e: (String, Option<R>)| (e.0@, e.1))
}

/// The record of a read-and-parse attempt: a failure becomes `None`.
pub fn glean_entry<R>(attempt: Result<R, UfoError>) -> (r: Option<R>)
    ensures
        r == attempt_record(attempt),
{
    match attempt {
        Ok(x) => Some(x),
        Err(_) => None,
    }
}

/// Reads a package's glyph index once, then parses every indexed glyph on
/// each call of [`Gleaner::glean`].
pub struct Gleaner<P, G> {
    provider: P,
    contents: Vec<(String, String)>,
    glif_parser: G,
}

impl<P: Provider, G: GlifParser> Gleaner<P, G> {
    /// The glyph index read when the gleaner was made.
    pub closed spec fn index(&self) -> IndexView {
        index_view(self.contents@)
    }

    /// The provider that glyph files are read through.
    pub closed spec fn provider_spec(&self) -> P {
        self.provider
    }

    /// The parser that glyph files are parsed with.
    pub closed spec fn parser_spec(&self) -> G {
        self.glif_parser
    }

    /// Reads the glyph index of the package that `provider` gives access to;
    /// glyph files will be parsed with `parser`.
    ///
    /// Fails as the index loader does; no glyph file is touched.
    pub fn new(provider: P, parser: G) -> (r: Result<Gleaner<P, G>, UfoError>)
        ensures
            exists|read: Result<Vec<u8>, UfoError>, c: Result<Vec<(String, String)>, UfoError>|
                provider.reads(CONTENTS_PATH@, read) && contents_outcome(read, c) && match r {
                    Ok(g) => {
                        &&& c is Ok
                        &&& g.index() == index_view(c->Ok_0@)
                        &&& g.provider_spec() == provider
                        &&& g.parser_spec() == parser
                    },
                    Err(e) => c == Err::<Vec<(String, String)>, UfoError>(e),
                },
    {
        let c = parse_contents(&provider);
        match c {
            Ok(contents) => Ok(Gleaner { provider, contents, glif_parser: parser }),
            Err(e) => Err(e),
        }
    }

    /// Reads and parses the glyph file of entry `i` of the index.
    fn attempt(&self, i: usize) -> (r: Result<G::Record, UfoError>)
        requires
            i < self.index().len(),
        ensures
            attempt_outcome(self.provider_spec(), self.parser_spec(), self.index()[i as int].1, r),
    {
        let file = &self.contents[i].1;
        assert(file@ == self.index()[i as int].1);
        let read = self.provider.read(file.as_str());
        let ghost got = read;
        let r = match read {
            Ok(bytes) => self.glif_parser.parse_glif(file.as_str(), bytes.as_slice()),
            Err(e) => Err(e),
        };
        assert(self.provider.reads(file@, got));
        r
    }

    /// Reads and parses every glyph of the index, afresh: each name, in
    /// index order, with its record, or `None` where reading or parsing
    /// failed. Entry `k`'s attempt reads entry `k`'s file through the
    /// provider and parses its bytes with the parser. A failure for one glyph
    /// does not affect the others, and this never fails.
    pub fn glean(&self) -> (r: Result<Vec<(String, Option<G::Record>)>, UfoError>)
        ensures
            r is Ok,
            exists|attempts: Seq<Result<G::Record, UfoError>>|
                {
                    &&& attempts.len() == self.index().len()
                    &&& forall|k: int|
                        0 <= k < attempts.len() ==> attempt_outcome(
                            self.provider_spec(),
                            self.parser_spec(),
                            self.index()[k].1,
                            #[trigger] attempts[k],
                        )
                    &&& glean_view(r->Ok_0@) == best_effort(self.index(), attempts)
                },
    {
        let mut out: Vec<(String, Option<G::Record>)> = Vec::new();
        let ghost mut attempts: Seq<Result<G::Record, UfoError>> = Seq::empty();
        let mut i: usize = 0;
        while i < self.contents.len()
            invariant
                i <= self.contents.len(),
                out@.len() == i,
                attempts.len() == i,
                forall|k: int|
                    0 <= k < i ==> attempt_outcome(
                        self.provider_spec(),
                        self.parser_spec(),
                        self.index()[k].1,
                        #[trigger] attempts[k],
                    ),
                glean_view(out@) == best_effort(self.index().take(i as int), attempts),
            decreases self.contents.len() - i,
        {
            let a = self.attempt(i);
            let ghost old_attempts = attempts;
            proof {
                attempts = attempts.push(a);
            }
            let ghost prev = out@;
            out.push((self.contents[i].0.clone(), glean_entry(a)));
            assert(out@ =~= prev.push(out@[i as int]));
            assert(self.index()[i as int].0 == self.contents@[i as int].0@);
            assert forall|k: int| 0 <= k < i implies glean_view(out@)[k] == best_effort(
                self.index().take(i + 1),
                attempts,
            )[k] by {
                assert(glean_view(out@)[k] == glean_view(prev)[k]);
                assert(best_effort(self.index().take(i as int), old_attempts)[k] == best_effort(
                    self.index().take(i + 1),
                    attempts,
                )[k]);
            }
            assert(glean_view(out@) =~= best_effort(self.index().take(i + 1), attempts));
            i = i + 1;
        }
        assert(self.index().take(i as int) =~= self.index());
        Ok(out)
    }
}

/// A best-effort read never fails as a whole: where one attempt fails and
/// every other succeeds, the map holds every indexed name, the failed one
/// without a record and each other one with the record that was parsed.
pub proof fn law_one_failure_among_many<R>(
    index: IndexView,
    attempts: Seq<Result<R, UfoError>>,
    bad: int,
)
    requires
        attempts.len() == index.len(),
        0 <= bad < index.len(),
        attempts[bad] is Err,
        forall|k: int| 0 <= k < index.len() && k != bad ==> (#[trigger] attempts[k]) is Ok,
    ensures
        best_effort(index, attempts).len() == index.len(),
        best_effort(index, attempts)[bad] == (index[bad].0, None::<R>),
        forall|k: int|
            0 <= k < index.len() && k != bad ==> #[trigger] best_effort(index, attempts)[k] == (
                index[k].0,
                Some(attempts[k]->Ok_0),
            ),
{
}

} // verus!
