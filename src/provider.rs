//! Read-only access to the files of a font package.
use crate::error::{UfoError, ErrorKind};
use vstd::prelude::*;
use vstd::string::*;

verus! {

/// Reads files relative to the root of a font package.
pub trait Provider {
    /// `r` is what reading the file at `path` may give. A provider whose
    /// files can change (a directory on disk) keeps this default, which
    /// admits any outcome.
    open spec fn reads(&self, path: Seq<char>, r: Result<Vec<u8>, UfoError>) -> bool {
        true
    }

    /// The root of the package, for diagnostics.
    fn root(&self) -> String;

    /// The whole content of the file at `rel_path`, relative to the root.
    fn read(&self, rel_path: &str) -> (r: Result<Vec<u8>, UfoError>)
        ensures
            self.reads(rel_path@, r),
    ;
}

/// The file of `files` stored under `path`, if any.
pub open spec fn file_in(files: Seq<(Seq<char>, Seq<u8>)>, path: Seq<char>) -> Option<Seq<u8>>
    decreases files.len(),
{
    if files.len() == 0 {
        None
    } else if files.last().0 == path {
        Some(files.last().1)
    } else {
        file_in(files.drop_last(), path)
    }
}

/// A fresh vector holding the bytes of `s`.
pub fn copy_bytes(s: &[u8]) -> (r: Vec<u8>)
    ensures
        r@ == s@,
{
    let mut r: Vec<u8> = Vec::with_capacity(s.len());
    let mut i: usize = 0;
    while i < s.len()
        invariant
            i <= s@.len(),
            r@ == s@.take(i as int),
        decreases s@.len() - i,
    {
        r.push(s[i]);
        i = i + 1;
        assert(r@ =~= s@.take(i as int));
    }
    assert(s@.take(s@.len() as int) =~= s@);
    r
}

/// An in-memory package: a list of files, each under its own path.
#[derive(Clone)]
pub struct MockProvider {
    root: String,
    files: Vec<(String, Vec<u8>)>,
}

impl MockProvider {
    /// The files, each as its path and its content.
    pub closed spec fn files(&self) -> Seq<(Seq<char>, Seq<u8>)> {
        self.files@.map_values(|e: (String, Vec<u8>)| (e.0@, e.1@))
    }

    /// The root path.
    pub closed spec fn root_spec(&self) -> Seq<char> {
        self.root@
    }

    /// The content stored under `path`, if any.
    pub open spec fn file(&self, path: Seq<char>) -> Option<Seq<u8>> {
        file_in(self.files(), path)
    }

    /// An empty package, rooted at the empty path.
    pub fn new() -> (r: MockProvider)
        ensures
            r.files() == Seq::<(Seq<char>, Seq<u8>)>::empty(),
            r.root_spec() == Seq::<char>::empty(),
            forall|p: Seq<char>| r.file(p) is None,
    {
        MockProvider { root: String::new(), files: Vec::new() }
    }

    /// The same package, where `path` now holds `content`.
    pub fn with_file(self, path: &str, content: &[u8]) -> (r: MockProvider)
        ensures
            r.file(path@) == Some(content@),
            r.root_spec() == self.root_spec(),
            forall|p: Seq<char>| p != path@ ==> r.file(p) == self.file(p),
    {
        let mut files = self.files;
        files.push((String::from_str(path), copy_bytes(content)));
        let r = MockProvider { root: self.root, files };
        proof {
            assert(r.files().drop_last() =~= self.files());
        }
        r
    }

    /// The content stored under `path`, or an I/O error if there is none.
    pub fn get(&self, path: &str) -> (r: Result<Vec<u8>, UfoError>)
        ensures
            match self.file(path@) {
                Some(c) => r is Ok && r->Ok_0@ == c,
                None => r is Err && r->Err_0.kind == ErrorKind::Io,
            },
    {
        let key = String::from_str(path);
        let mut i: usize = self.files.len();
        assert(self.files().take(i as int) =~= self.files());
        while i > 0
            invariant
                i <= self.files.len(),
                key@ == path@,
                file_in(self.files(), path@) == file_in(self.files().take(i as int), path@),
            decreases i,
        {
            let ghost prefix = self.files().take(i as int);
            assert(prefix.drop_last() =~= self.files().take(i - 1));
            assert(prefix.last() == (self.files@[i - 1].0@, self.files@[i - 1].1@));
            if self.files[i - 1].0 == key {
                return Ok(copy_bytes(self.files[i - 1].1.as_slice()));
            }
            i = i - 1;
        }
        Err(UfoError::new(ErrorKind::Io).with_context(String::from_str("file not found")))
    }
}

impl Provider for MockProvider {
    /// The stored content, or an I/O error where there is none.
    open spec fn reads(&self, path: Seq<char>, r: Result<Vec<u8>, UfoError>) -> bool {
        match self.file(path) {
            Some(c) => r is Ok && r->Ok_0@ == c,
            None => r is Err && r->Err_0.kind == ErrorKind::Io,
        }
    }

    fn root(&self) -> String {
        self.root.clone()
    }

    fn read(&self, rel_path: &str) -> Result<Vec<u8>, UfoError> {
        self.get(rel_path)
    }
}

} // verus!
