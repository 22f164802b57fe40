//! UfoError type shared by every part of the library.
use vstd::prelude::*;

verus! {

/// The kind of failure that an [`UfoError`] reports.
#[derive(Clone, Debug, PartialEq, Eq)]
pub enum ErrorKind {
    /// A file could not be read.
    Io,
    /// A property list could not be decoded, or did not have the expected shape.
    Plist,
    /// A glyph document is not well-formed XML.
    Xml,
    /// A structural problem in a parsed document.
    Parse,
    /// A file does not exist.
    FileNotFound,
    /// A glyph name has no entry in the glyph index.
    MissingAttribute(String),
    /// A failure that comes from outside the library, described by its message.
    Other(String),
}

/// A failure, with the path, the context and the underlying cause that help
/// to diagnose it. The cause is kept as its message.
#[derive(Clone, Debug)]
pub struct UfoError {
    pub kind: ErrorKind,
    pub path: Option<String>,
    pub context: Option<String>,
    pub cause: Option<String>,
}

impl UfoError {
    /// An error of the given kind, with neither path nor context.
    pub fn new(kind: ErrorKind) -> (r: UfoError)
        ensures
            r.kind == kind,
            r.path is None,
            r.context is None,
            r.cause is None,
    {
        UfoError { kind, path: None, context: None, cause: None }
    }

    /// The kind of this error.
    pub fn kind(&self) -> (r: &ErrorKind)
        ensures
            *r == self.kind,
    {
        &self.kind
    }

    /// The path of the file concerned, if known.
    pub fn path(&self) -> (r: &Option<String>)
        ensures
            *r == self.path,
    {
        &self.path
    }

    /// The context message, if any.
    pub fn context(&self) -> (r: &Option<String>)
        ensures
            *r == self.context,
    {
        &self.context
    }

    /// The same error, with `path` as the file concerned.
    pub fn with_path(self, path: String) -> (r: UfoError)
        ensures
            r.kind == self.kind,
            r.context == self.context,
            r.path == Some(path),
            r.cause == self.cause,
    {
        UfoError { kind: self.kind, path: Some(path), context: self.context, cause: self.cause }
    }

    /// The same error, with `context` as its context message.
    pub fn with_context(self, context: String) -> (r: UfoError)
        ensures
            r.kind == self.kind,
            r.path == self.path,
            r.context == Some(context),
            r.cause == self.cause,
    {
        UfoError { kind: self.kind, path: self.path, context: Some(context), cause: self.cause }
    }

    /// The message of the underlying cause, if any.
    pub fn cause(&self) -> (r: &Option<String>)
        ensures
            *r == self.cause,
    {
        &self.cause
    }

    /// The same error, with `cause` as the message of its underlying cause.
    pub fn with_cause(self, cause: String) -> (r: UfoError)
        ensures
            r.kind == self.kind,
            r.path == self.path,
            r.context == self.context,
            r.cause == Some(cause),
    {
        UfoError { kind: self.kind, path: self.path, context: self.context, cause: Some(cause) }
    }
}

} // verus!
