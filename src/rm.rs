//! Removal strategies: what becomes of an entry that survived the policies.
use vstd::prelude::*;
use vstd::string::StringExecFns;
use crate::fs::{Entry, EntryKind, EntryView, Error, ErrorKind, ErrorView};

verus! {

/// How surviving entries are disposed of.
#[derive(Clone, Copy, Debug, PartialEq, Eq, Structural)]
pub enum Remover {
    /// Remove them from the file system.
    Remove,
    /// Move them to the trash.
    Dispose,
    /// Only report what removing them would do.
    ShowRemove,
    /// Only report what moving them to the trash would do.
    ShowDispose,
}

/// A file system operation that a remover asks for.
#[derive(Debug)]
pub enum Removal {
    /// Remove the (empty) directory at the path; this fails if it is not empty.
    RemoveDir(String),
    /// Unlink the file or symbolic link at the path; a link is never followed.
    RemoveFile(String),
    /// Move the object at the path to the trash.
    Dispose(String),
}

/// How moving an object to the trash failed.
#[derive(Clone, Copy, Debug, PartialEq, Eq, Structural)]
pub enum TrashFailure {
    /// The object could not be accessed.
    CouldNotAccess,
    /// The file system failed; the kind is that of the underlying failure.
    FileSystem(ErrorKind),
    /// The object is a file system root.
    TargetedRoot,
    /// Anything else.
    Other,
}

/// The error kind for a failure to move an object to the trash.
pub open spec fn trash_failure_kind(f: TrashFailure) -> ErrorKind {
    match f {
        TrashFailure::CouldNotAccess => ErrorKind::PermissionDenied,
        TrashFailure::FileSystem(kind) => kind,
        TrashFailure::TargetedRoot => ErrorKind::Refused,
        TrashFailure::Other => ErrorKind::Unknown,
    }
}

impl TrashFailure {
    /// The error kind for this failure.
    pub fn kind(&self) -> (r: ErrorKind)
        ensures
            r == trash_failure_kind(*self),
    {
        match self {
            TrashFailure::CouldNotAccess => ErrorKind::PermissionDenied,
            TrashFailure::FileSystem(kind) => *kind,
            TrashFailure::TargetedRoot => ErrorKind::Refused,
            TrashFailure::Other => ErrorKind::Unknown,
        }
    }
}

/// The message for an entry that was removed.
pub open spec fn removed_message(e: EntryView) -> Seq<char> {
    "Removed "@ + e.path
}

/// The message for an entry that would be removed.
pub open spec fn would_remove_message(e: EntryView) -> Seq<char> {
    "Would remove "@ + e.path
}

/// The message for an entry that was moved to the trash.
pub open spec fn moved_message(e: EntryView) -> Seq<char> {
    "Moved "@ + e.path + " to trash"@
}

/// The message for an entry that would be moved to the trash.
pub open spec fn would_move_message(e: EntryView) -> Seq<char> {
    "Would move "@ + e.path + " to trash"@
}

/// The view of what a remover returns.
pub open spec fn result_view(r: Result<String, Error>) -> Result<Seq<char>, ErrorView> {
    match r {
        Ok(m) => Ok(m@),
        Err(e) => Err(e@),
    }
}

/// Pretends to remove the entry: reports what removing it would do, and never fails.
pub fn show_remove(entry: Entry) -> (r: Result<String, Error>)
    ensures
        result_view(r) == Ok::<Seq<char>, ErrorView>(would_remove_message(entry@)),
{
    let mut m = String::from_str("Would remove ");
    m.append(entry.path_str());
    Ok(m)
}

/// Pretends to move the entry to the trash: reports what doing so would do, and never fails.
pub fn show_dispose(entry: Entry) -> (r: Result<String, Error>)
    ensures
        result_view(r) == Ok::<Seq<char>, ErrorView>(would_move_message(entry@)),
{
    let mut m = String::from_str("Would move ");
    m.append(entry.path_str());
    m.append(" to trash");
    Ok(m)
}

/// The file system operation that removes an entry: a directory is removed as a directory, a
/// file or a symbolic link is unlinked.
pub fn removal_for(entry: &Entry) -> (r: Removal)
    ensures
        match r {
            Removal::RemoveDir(p) => entry@.kind == EntryKind::Dir && p@ == entry@.path,
            Removal::RemoveFile(p) => entry@.kind != EntryKind::Dir && p@ == entry@.path,
            Removal::Dispose(_) => false,
        },
{
    match entry.kind() {
        EntryKind::Dir => Removal::RemoveDir(entry.path()),
        EntryKind::File => Removal::RemoveFile(entry.path()),
        EntryKind::Symlink => Removal::RemoveFile(entry.path()),
    }
}

/// What removing an entry came to, given what the file system operation returned: the
/// message that it was removed, or an error of the operation's kind for the entry's path.
pub fn removed(entry: Entry, result: Result<(), ErrorKind>) -> (r: Result<String, Error>)
    ensures
        result_view(r) == match result {
            Ok(()) => Ok(removed_message(entry@)),
            Err(kind) => Err(ErrorView { kind, path: entry@.path, tip: None }),
        },
{
    match result {
        Ok(()) => {
            let mut m = String::from_str("Removed ");
            m.append(entry.path_str());
            Ok(m)
        },
        Err(kind) => Err(entry.into_err(kind)),
    }
}

/// What moving an entry to the trash came to, given what the trash returned: the message that
/// it was moved, or an error of the failure's kind for the entry's path.
pub fn disposed(entry: Entry, result: Result<(), TrashFailure>) -> (r: Result<String, Error>)
    ensures
        result_view(r) == match result {
            Ok(()) => Ok(moved_message(entry@)),
            Err(f) => Err(ErrorView { kind: trash_failure_kind(f), path: entry@.path, tip: None }),
        },
{
    match result {
        Ok(()) => {
            let mut m = String::from_str("Moved ");
            m.append(entry.path_str());
            m.append(" to trash");
            Ok(m)
        },
        Err(f) => Err(entry.into_err(f.kind())),
    }
}

} // verus!
