//! File system objects as the library sees them: what was found at a path, and what went wrong
//! with it.
use vstd::prelude::*;
use vstd::string::StringExecFns;

verus! {

/// The kind of a file system object. Symbolic links are never followed to decide it.
#[derive(Clone, Copy, Debug, PartialEq, Eq, Structural)]
pub enum EntryKind {
    /// A directory.
    Dir,
    /// A regular file.
    File,
    /// A symbolic link, whatever it points to.
    Symlink,
}

/// The kind of an [`Error`].
#[derive(Clone, Copy, Debug, PartialEq, Eq, Structural)]
pub enum ErrorKind {
    /// A directory is not empty.
    DirectoryNotEmpty,
    /// The object is a directory.
    IsADirectory,
    /// Nothing exists at the path.
    NotFound,
    /// The object cannot be accessed.
    PermissionDenied,
    /// Removing the object was refused by policy, because it is potentially dangerous.
    Refused,
    /// Any other failure.
    Unknown,
}

/// The human readable description of an error kind.
pub open spec fn kind_description(kind: ErrorKind) -> Seq<char> {
    match kind {
        ErrorKind::DirectoryNotEmpty => "Directory not empty"@,
        ErrorKind::IsADirectory => "Is a directory"@,
        ErrorKind::NotFound => "Not found"@,
        ErrorKind::PermissionDenied => "Permission denied"@,
        ErrorKind::Refused => "Refused to remove"@,
        ErrorKind::Unknown => "Unknown error"@,
    }
}

impl ErrorKind {
    /// The human readable description of this kind.
    pub fn description(&self) -> (r: &'static str)
        ensures
            r@ == kind_description(*self),
    {
        match self {
            ErrorKind::DirectoryNotEmpty => "Directory not empty",
            ErrorKind::IsADirectory => "Is a directory",
            ErrorKind::NotFound => "Not found",
            ErrorKind::PermissionDenied => "Permission denied",
            ErrorKind::Refused => "Refused to remove",
            ErrorKind::Unknown => "Unknown error",
        }
    }
}

/// What an [`Entry`] stands for.
pub ghost struct EntryView {
    pub kind: EntryKind,
    pub path: Seq<char>,
}

/// What an [`Error`] stands for.
pub ghost struct ErrorView {
    pub kind: ErrorKind,
    pub path: Seq<char>,
    pub tip: Option<Seq<char>>,
}

/// A resolved file system object: its kind and the path it was found at, as given (the path is
/// never made canonical).
#[derive(Clone, Debug)]
pub struct Entry {
    kind: EntryKind,
    path: String,
}

/// A failure to resolve a path, or a refusal to remove what is there.
#[derive(Clone, Debug)]
pub struct Error {
    kind: ErrorKind,
    path: String,
    tip: Option<String>,
}

impl View for Entry {
    type V = EntryView;

    closed spec fn view(&self) -> EntryView {
        EntryView { kind: self.kind, path: self.path@ }
    }
}

/// The view of an optional string.
pub open spec fn opt_view(s: Option<String>) -> Option<Seq<char>> {
    match s {
        Some(t) => Some(t@),
        None => None,
    }
}

impl View for Error {
    type V = ErrorView;

    closed spec fn view(&self) -> ErrorView {
        ErrorView { kind: self.kind, path: self.path@, tip: opt_view(self.tip) }
    }
}

/// The view of the result of resolving a path.
pub open spec fn outcome_view(r: Result<Entry, Error>) -> Result<EntryView, ErrorView> {
    match r {
        Ok(e) => Ok(e@),
        Err(e) => Err(e@),
    }
}

/// The path that an outcome concerns.
pub open spec fn outcome_path(r: Result<EntryView, ErrorView>) -> Seq<char> {
    match r {
        Ok(e) => e.path,
        Err(e) => e.path,
    }
}

fn copy_string(s: &String) -> (r: String)
    ensures
        r@ == s@,
{
    s.clone()
}

fn copy_opt_string(s: &Option<String>) -> (r: Option<String>)
    ensures
        opt_view(r) == opt_view(*s),
{
    match s {
        Some(t) => Some(t.clone()),
        None => None,
    }
}

impl Entry {
    /// Creates an entry of the given kind for the given path.
    pub fn new(path: &str, kind: EntryKind) -> (r: Entry)
        ensures
            r@ == (EntryView { kind, path: path@ }),
    {
        Entry { kind, path: path.to_owned() }
    }

    /// Turns the entry into an error of the given kind for the same path, without a tip.
    pub fn into_err(self, kind: ErrorKind) -> (r: Error)
        ensures
            r@ == (ErrorView { kind, path: self@.path, tip: None }),
    {
        Error { kind, path: self.path, tip: None }
    }

    /// Whether the entry is a directory.
    pub fn is_dir(&self) -> (r: bool)
        ensures
            r == (self@.kind == EntryKind::Dir),
    {
        self.kind == EntryKind::Dir
    }

    /// The kind of the entry.
    pub fn kind(&self) -> (r: EntryKind)
        ensures
            r == self@.kind,
    {
        self.kind
    }

    /// The path of the entry.
    pub fn path(&self) -> (r: String)
        ensures
            r@ == self@.path,
    {
        copy_string(&self.path)
    }

    /// The path of the entry, borrowed.
    pub fn path_str(&self) -> (r: &str)
        ensures
            r@ == self@.path,
    {
        self.path.as_str()
    }

    /// A copy of the entry.
    pub fn duplicate(&self) -> (r: Entry)
        ensures
            r@ == self@,
    {
        Entry { kind: self.kind, path: copy_string(&self.path) }
    }
}

impl PartialEq for Entry {
    fn eq(&self, other: &Entry) -> (r: bool)
        ensures
            r == (self@ == other@),
    {
        self.kind == other.kind && self.path == other.path
    }
}

impl vstd::std_specs::cmp::PartialEqSpecImpl for Entry {
    open spec fn obeys_eq_spec() -> bool {
        true
    }

    open spec fn eq_spec(&self, other: &Entry) -> bool {
        self@ == other@
    }
}

/// The message that reports an error: `Cannot remove {path}: {kind}`, followed by ` ({tip})`
/// where the error has a tip.
pub open spec fn error_message(e: ErrorView) -> Seq<char> {
    let base = "Cannot remove "@ + e.path + ": "@ + kind_description(e.kind);
    match e.tip {
        Some(tip) => base + " ("@ + tip + ")"@,
        None => base,
    }
}

impl Error {
    /// Creates an error of the given kind for the given path, without a tip.
    pub fn new(path: &str, kind: ErrorKind) -> (r: Error)
        ensures
            r@ == (ErrorView { kind, path: path@, tip: None }),
    {
        Error { kind, path: path.to_owned(), tip: None }
    }

    /// The kind of the error.
    pub fn kind(&self) -> (r: ErrorKind)
        ensures
            r == self@.kind,
    {
        self.kind
    }

    /// The path the error concerns.
    pub fn path(&self) -> (r: String)
        ensures
            r@ == self@.path,
    {
        copy_string(&self.path)
    }

    /// The tip attached to the error, if any.
    pub fn tip(&self) -> (r: Option<String>)
        ensures
            opt_view(r) == self@.tip,
    {
        copy_opt_string(&self.tip)
    }

    /// The same error with the given tip attached (replacing any earlier one).
    pub fn with_tip(self, tip: &str) -> (r: Error)
        ensures
            r@ == (ErrorView { tip: Some(tip@), ..self@ }),
    {
        Error { kind: self.kind, path: self.path, tip: Some(tip.to_owned()) }
    }

    /// A copy of the error.
    pub fn duplicate(&self) -> (r: Error)
        ensures
            r@ == self@,
    {
        Error { kind: self.kind, path: copy_string(&self.path), tip: copy_opt_string(&self.tip) }
    }

    /// The message that reports the error.
    pub fn message(&self) -> (r: String)
        ensures
            r@ == error_message(self@),
    {
        let mut m = String::from_str("Cannot remove ");
        m.append(self.path.as_str());
        m.append(": ");
        m.append(self.kind.description());
        match &self.tip {
            Some(tip) => {
                m.append(" (");
                m.append(tip.as_str());
                m.append(")");
            },
            None => {},
        }
        m
    }
}

impl PartialEq for Error {
    fn eq(&self, other: &Error) -> (r: bool)
        ensures
            r == (self@ == other@),
    {
        let same_tip = match (&self.tip, &other.tip) {
            (Some(a), Some(b)) => *a == *b,
            (None, None) => true,
            _ => false,
        };
        self.kind == other.kind && self.path == other.path && same_tip
    }
}

impl vstd::std_specs::cmp::PartialEqSpecImpl for Error {
    open spec fn obeys_eq_spec() -> bool {
        true
    }

    open spec fn eq_spec(&self, other: &Error) -> bool {
        self@ == other@
    }
}

/// A copy of an outcome.
pub fn copy_outcome(r: &Result<Entry, Error>) -> (c: Result<Entry, Error>)
    ensures
        outcome_view(c) == outcome_view(*r),
{
    match r {
        Ok(e) => Ok(e.duplicate()),
        Err(e) => Err(e.duplicate()),
    }
}

/// Resolves a path from what a metadata probe that does not follow symbolic links found there:
/// the kind of the object, or the kind of the failure (`NotFound` where nothing exists).
pub fn open(path: &str, found: Result<EntryKind, ErrorKind>) -> (r: Result<Entry, Error>)
    ensures
        outcome_view(r) == match found {
            Ok(kind) => Ok(EntryView { kind, path: path@ }),
            Err(kind) => Err(ErrorView { kind, path: path@, tip: None }),
        },
{
    match found {
        Ok(kind) => Ok(Entry::new(path, kind)),
        Err(kind) => Err(Error::new(path, kind)),
    }
}

} // verus!
