//! The removal policies: stages that each map an item to an item, applied in a fixed order to
//! every visited object.
use vstd::prelude::*;
use vstd::string::StringExecFns;
use crate::fs::{Entry, EntryKind, EntryView, ErrorKind, ErrorView};
use crate::walk::{Item, ItemView};

verus! {

/// Whether the last components of a path are those of `child`, as `std::path::Path::ends_with`
/// decides it (whole components only).
pub uninterp spec fn path_ends_with(path: Seq<char>, child: Seq<char>) -> bool;

/// Whether a path has a parent, as `std::path::Path::parent` decides it.
pub uninterp spec fn path_has_parent(path: Seq<char>) -> bool;

/// The lowercase form of a string, as `str::to_lowercase` computes it.
pub uninterp spec fn lower_of(s: Seq<char>) -> Seq<char>;

/// Relies on `std::path::Path::ends_with`: whether `child` names the last components of `path`.
#[verifier::external_body]
fn ends_with(path: &str, child: &str) -> (r: bool)
    ensures
        r == path_ends_with(path@, child@),
{
    std::path::Path::new(path).ends_with(child)
}

/// Relies on `std::path::Path::parent`: there is none for a path that ends in a root, such as
/// `/` (the documentation's own example).
#[verifier::external_body]
fn has_parent(path: &str) -> (r: bool)
    ensures
        r == path_has_parent(path@),
        path@ == "/"@ ==> !r,
{
    std::path::Path::new(path).parent().is_some()
}

/// A string with leading and trailing whitespace removed, as `str::trim` does it.
pub uninterp spec fn trim_of(s: Seq<char>) -> Seq<char>;

/// Relies on `str::trim`; the result depends on the characters alone.
#[verifier::external_body]
fn trim(s: &str) -> (r: &str)
    ensures
        r@ == trim_of(s@),
{
    s.trim()
}

/// Relies on `str::to_lowercase`; the result depends on the characters alone.
#[verifier::external_body]
fn lowercase(s: &str) -> (r: String)
    ensures
        r@ == lower_of(s@),
{
    s.to_lowercase()
}

/// The tip for an error about a directory when directories are not removed.
pub open spec fn tip_is_dir() -> Seq<char> {
    "use '--dir' to remove"@
}

/// The tip for an error about a directory that is not empty.
pub open spec fn tip_dir_not_empty() -> Seq<char> {
    "use '--recursive' to remove"@
}

/// The tip for an error about a missing path.
pub open spec fn tip_not_found_text() -> Seq<char> {
    "use '--blind' to ignore"@
}

/// Why a missing path is skipped.
pub open spec fn reason_not_found() -> Seq<char> {
    "Not found"@
}

/// Why an item is skipped when the user answered no.
pub open spec fn reason_kept() -> Seq<char> {
    "Kept by user"@
}

/// Why an item is skipped when the user's answer was not understood.
pub open spec fn reason_unrecognized() -> Seq<char> {
    "Unrecognized input"@
}

/// Why an item is skipped when asking the user failed.
pub open spec fn reason_io_error() -> Seq<char> {
    "I/O error"@
}

/// Whether a path names the current or the parent directory in its last component.
pub open spec fn is_dot_path(path: Seq<char>) -> bool {
    path_ends_with(path, "."@) || path_ends_with(path, ".."@)
}

/// The item with its entry (if it has one) turned into an error of the given kind and tip,
/// where `refuse` holds of the entry. Errors, skip reasons and visited marks are kept.
pub open spec fn refuse_entry_if(
    item: ItemView,
    refuse: spec_fn(EntryView) -> bool,
    kind: ErrorKind,
    tip: Option<Seq<char>>,
) -> ItemView {
    match item.inner {
        Ok(e) => if refuse(e) {
            ItemView { inner: Err(ErrorView { kind, path: e.path, tip }), ..item }
        } else {
            item
        },
        Err(_) => item,
    }
}

/// Whether an item carries an error of the given kind.
pub open spec fn has_error_kind(item: ItemView, kind: ErrorKind) -> bool {
    match item.inner {
        Err(e) => e.kind == kind,
        Ok(_) => false,
    }
}

/// Returns the item untouched.
pub fn identity(item: Item) -> (r: Item)
    ensures
        r@ == item@,
{
    item
}

/// Turns every directory into an `IsADirectory` error with a tip to use `--dir`; everything
/// else is returned untouched.
pub fn disallow_all_dirs(item: Item) -> (r: Item)
    ensures
        r@ == refuse_entry_if(item@, |e: EntryView| e.kind == EntryKind::Dir,
            ErrorKind::IsADirectory, Some(tip_is_dir())),
{
    proof {
        reveal_strlit("use '--dir' to remove");
    }
    match item.outcome() {
        Ok(entry) => {
            if entry.is_dir() {
                let err = entry.duplicate().into_err(ErrorKind::IsADirectory).with_tip(
                    "use '--dir' to remove",
                );
                return item.with_inner(Err(err));
            }
        },
        Err(_) => {},
    }
    item
}

/// Whether the given path is the current or the parent directory, judged by its last component.
pub fn is_current_or_parent_dir(path: &str) -> (r: bool)
    ensures
        r == is_dot_path(path@),
{
    ends_with(path, ".") || ends_with(path, "..")
}

/// Turns an entry whose path is the current or the parent directory into a `Refused` error
/// without a tip; everything else is returned untouched.
pub fn disallow_current_and_parent_dir(item: Item) -> (r: Item)
    ensures
        r@ == refuse_entry_if(item@, |e: EntryView| is_dot_path(e.path), ErrorKind::Refused, None),
{
    match item.outcome() {
        Ok(entry) => {
            if is_current_or_parent_dir(entry.path_str()) {
                let err = entry.duplicate().into_err(ErrorKind::Refused);
                return item.with_inner(Err(err));
            }
        },
        Err(_) => {},
    }
    item
}

/// Turns a directory that is not empty into a `DirectoryNotEmpty` error with a tip to use
/// `--recursive`; everything else is returned untouched. `empty` tells whether the item's
/// directory was found empty.
pub fn disallow_filled_dirs(item: Item, empty: bool) -> (r: Item)
    ensures
        r@ == refuse_entry_if(item@, |e: EntryView| e.kind == EntryKind::Dir && !empty,
            ErrorKind::DirectoryNotEmpty, Some(tip_dir_not_empty())),
{
    proof {
        reveal_strlit("use '--recursive' to remove");
    }
    match item.outcome() {
        Ok(entry) => {
            if entry.is_dir() && !empty {
                let err = entry.duplicate().into_err(ErrorKind::DirectoryNotEmpty).with_tip(
                    "use '--recursive' to remove",
                );
                return item.with_inner(Err(err));
            }
        },
        Err(_) => {},
    }
    item
}

/// Whether the given path is a file system root, that is, has no parent.
pub fn is_root(path: &str) -> (r: bool)
    ensures
        r == !path_has_parent(path@),
        path@ == "/"@ ==> r,
{
    !has_parent(path)
}

/// Turns an entry at a file system root into a `Refused` error without a tip; everything else
/// is returned untouched.
pub fn disallow_root(item: Item) -> (r: Item)
    ensures
        r@ == refuse_entry_if(item@, |e: EntryView| !path_has_parent(e.path), ErrorKind::Refused,
            None),
{
    match item.outcome() {
        Ok(entry) => {
            if is_root(entry.path_str()) {
                let err = entry.duplicate().into_err(ErrorKind::Refused);
                return item.with_inner(Err(err));
            }
        },
        Err(_) => {},
    }
    item
}

/// Marks a `NotFound` error to be skipped, with the reason "Not found"; everything else is
/// returned untouched.
pub fn skip_not_found(item: Item) -> (r: Item)
    ensures
        r@ == if has_error_kind(item@, ErrorKind::NotFound) {
            ItemView { skip_reason: Some(reason_not_found()), ..item@ }
        } else {
            item@
        },
{
    proof {
        reveal_strlit("Not found");
    }
    let not_found = match item.outcome() {
        Err(err) => err.kind() == ErrorKind::NotFound,
        Ok(_) => false,
    };
    if not_found {
        item.into_skipped("Not found")
    } else {
        item
    }
}

/// Attaches a tip to use `--blind` to a `NotFound` error; everything else is returned
/// untouched.
pub fn tip_not_found(item: Item) -> (r: Item)
    ensures
        r@ == match item@.inner {
            Err(e) => if e.kind == ErrorKind::NotFound {
                ItemView { inner: Err(ErrorView { tip: Some(tip_not_found_text()), ..e }), ..item@ }
            } else {
                item@
            },
            Ok(_) => item@,
        },
{
    proof {
        reveal_strlit("use '--blind' to ignore");
    }
    match item.outcome() {
        Err(err) => {
            if err.kind() == ErrorKind::NotFound {
                let e = err.duplicate().with_tip("use '--blind' to ignore");
                return item.with_inner(Err(e));
            }
        },
        Ok(_) => {},
    }
    item
}

/// How a user's answer to a prompt is understood.
#[derive(Clone, Copy, Debug, PartialEq, Eq, Structural)]
pub enum Answer {
    /// Remove the object.
    Yes,
    /// Keep the object.
    No,
    /// Anything else: the object is kept too.
    Unrecognized,
}

/// How an answer, already in lowercase, is understood.
pub open spec fn answer_of(folded: Seq<char>) -> Answer {
    if folded == "y"@ || folded == "yes"@ {
        Answer::Yes
    } else if folded == "n"@ || folded == "no"@ {
        Answer::No
    } else {
        Answer::Unrecognized
    }
}

/// Understands an answer that was already put in lowercase: `y` or `yes` allow, `n` or `no`
/// keep, anything else is unrecognized.
pub fn interpret_answer(folded: &str) -> (r: Answer)
    ensures
        r == answer_of(folded@),
{
    let f = folded.to_owned();
    if f == "y".to_owned() || f == "yes".to_owned() {
        Answer::Yes
    } else if f == "n".to_owned() || f == "no".to_owned() {
        Answer::No
    } else {
        Answer::Unrecognized
    }
}

/// The item after the user answered: `response` is the answer as typed (already trimmed), or
/// `None` where reading or writing failed.
pub open spec fn interact_spec(response: Option<Seq<char>>, item: ItemView) -> ItemView {
    match response {
        None => ItemView { skip_reason: Some(reason_io_error()), ..item },
        Some(a) => match answer_of(lower_of(a)) {
            Answer::Yes => item,
            Answer::No => ItemView { skip_reason: Some(reason_kept()), ..item },
            Answer::Unrecognized => ItemView { skip_reason: Some(reason_unrecognized()), ..item },
        },
    }
}

/// The view of a response to a prompt.
pub open spec fn response_view(response: Result<String, ()>) -> Option<Seq<char>> {
    match response {
        Ok(a) => Some(a@),
        Err(_) => None,
    }
}

/// Transforms an item according to the user's (trimmed) answer: a yes keeps it as it is, a no
/// skips it as "Kept by user", anything else as "Unrecognized input", and a failure to ask as
/// "I/O error". Case does not matter.
pub fn interact_transform(response: Result<String, ()>, item: Item) -> (r: Item)
    ensures
        r@ == interact_spec(response_view(response), item@),
{
    proof {
        reveal_strlit("Kept by user");
        reveal_strlit("Unrecognized input");
        reveal_strlit("I/O error");
    }
    match response {
        Ok(answer) => {
            let folded = lowercase(answer.as_str());
            match interpret_answer(folded.as_str()) {
                Answer::Yes => item,
                Answer::No => item.into_skipped("Kept by user"),
                Answer::Unrecognized => item.into_skipped("Unrecognized input"),
            }
        },
        Err(()) => item.into_skipped("I/O error"),
    }
}

/// The answer to a prompt as the user typed it on a line: without surrounding whitespace.
pub fn answer_from_line(line: &str) -> (r: String)
    ensures
        r@ == trim_of(line@),
{
    trim(line).to_owned()
}

/// The question asked about an entry: it depends on its kind and, for a directory, on whether
/// it is empty and whether it is the final visit (after its content was walked).
pub open spec fn question(kind: EntryKind, visited: bool, empty: bool) -> Seq<char> {
    match kind {
        EntryKind::Dir => if empty {
            "Remove empty directory"@
        } else if visited {
            "Remove directory"@
        } else {
            "Descend into directory"@
        },
        EntryKind::File => "Remove regular file"@,
        EntryKind::Symlink => "Remove symbolic link"@,
    }
}

/// The prompt shown for an entry: `{question} {path}? [Y/n] `.
pub open spec fn prompt_text(e: EntryView, visited: bool, empty: bool) -> Seq<char> {
    question(e.kind, visited, empty) + " "@ + e.path + "? [Y/n] "@
}

/// Creates the prompt for an entry; `empty` tells whether a directory was found empty.
pub fn new_prompt_for(entry: &Entry, visited: bool, empty: bool) -> (r: String)
    ensures
        r@ == prompt_text(entry@, visited, empty),
{
    let q = match entry.kind() {
        EntryKind::Dir => if empty {
            "Remove empty directory"
        } else if visited {
            "Remove directory"
        } else {
            "Descend into directory"
        },
        EntryKind::File => "Remove regular file",
        EntryKind::Symlink => "Remove symbolic link",
    };
    let mut m = String::from_str(q);
    m.append(" ");
    m.append(entry.path_str());
    m.append("? [Y/n] ");
    m
}

/// A removal policy: one stage of the pipeline that every visited object runs through.
#[derive(Clone, Copy, Debug, PartialEq, Eq, Structural)]
pub enum Transformer {
    /// Leaves every item untouched.
    Identity,
    /// Refuses the current and the parent directory.
    DisallowCurrentAndParentDir,
    /// Refuses a file system root.
    DisallowRoot,
    /// Skips missing paths.
    SkipNotFound,
    /// Attaches a tip to missing paths.
    TipNotFound,
    /// Refuses every directory.
    DisallowAllDirs,
    /// Refuses directories that are not empty.
    DisallowFilledDirs,
    /// Asks the user about each entry that is neither an error nor skipped.
    Interactive,
}

/// Whether a stage must ask the user about an item before it can go on.
pub open spec fn asks(t: Transformer, item: ItemView) -> bool {
    t == Transformer::Interactive && item.inner is Ok && item.skip_reason is None
}

/// What a stage makes of an item that it need not ask the user about; `empty` tells whether the
/// item's directory was found empty.
pub open spec fn stage_spec(t: Transformer, item: ItemView, empty: bool) -> ItemView {
    match t {
        Transformer::Identity => item,
        Transformer::DisallowCurrentAndParentDir => refuse_entry_if(item,
            |e: EntryView| is_dot_path(e.path), ErrorKind::Refused, None),
        Transformer::DisallowRoot => refuse_entry_if(item,
            |e: EntryView| !path_has_parent(e.path), ErrorKind::Refused, None),
        Transformer::SkipNotFound => if has_error_kind(item, ErrorKind::NotFound) {
            ItemView { skip_reason: Some(reason_not_found()), ..item }
        } else {
            item
        },
        Transformer::TipNotFound => match item.inner {
            Err(e) => if e.kind == ErrorKind::NotFound {
                ItemView { inner: Err(ErrorView { tip: Some(tip_not_found_text()), ..e }), ..item }
            } else {
                item
            },
            Ok(_) => item,
        },
        Transformer::DisallowAllDirs => refuse_entry_if(item,
            |e: EntryView| e.kind == EntryKind::Dir, ErrorKind::IsADirectory, Some(tip_is_dir())),
        Transformer::DisallowFilledDirs => refuse_entry_if(item,
            |e: EntryView| e.kind == EntryKind::Dir && !empty, ErrorKind::DirectoryNotEmpty,
            Some(tip_dir_not_empty())),
        Transformer::Interactive => item,
    }
}

impl Transformer {
    /// Applies the stage to an item that it need not ask the user about.
    pub fn apply(&self, item: Item, empty: bool) -> (r: Item)
        requires
            !asks(*self, item@),
        ensures
            r@ == stage_spec(*self, item@, empty),
    {
        match self {
            Transformer::Identity => identity(item),
            Transformer::DisallowCurrentAndParentDir => disallow_current_and_parent_dir(item),
            Transformer::DisallowRoot => disallow_root(item),
            Transformer::SkipNotFound => skip_not_found(item),
            Transformer::TipNotFound => tip_not_found(item),
            Transformer::DisallowAllDirs => disallow_all_dirs(item),
            Transformer::DisallowFilledDirs => disallow_filled_dirs(item, empty),
            Transformer::Interactive => item,
        }
    }
}

/// Runs an item through the stages from index `from` on: the item that comes out and the index
/// of the stage that must ask the user about it (the number of stages if none must).
pub open spec fn run_spec(ts: Seq<Transformer>, item: ItemView, from: int, empty: bool) -> (
    ItemView,
    int,
)
    decreases ts.len() - from,
{
    if from >= ts.len() {
        (item, ts.len() as int)
    } else if asks(ts[from], item) {
        (item, from)
    } else {
        run_spec(ts, stage_spec(ts[from], item, empty), from + 1, empty)
    }
}

/// Runs an item through the stages from index `from` on, up to the first stage that must ask
/// the user about it. Returns the item and the index of that stage, or the number of stages.
pub fn run_stages(ts: &Vec<Transformer>, item: Item, from: usize, empty: bool) -> (r: (Item, usize))
    requires
        from <= ts@.len(),
    ensures
        (r.0@, r.1 as int) == run_spec(ts@, item@, from as int, empty),
{
    let mut cur = item;
    let mut i = from;
    while i < ts.len()
        invariant
            from <= i <= ts@.len(),
            run_spec(ts@, cur@, i as int, empty) == run_spec(ts@, item@, from as int, empty),
        decreases ts@.len() - i,
    {
        let t = ts[i];
        if t == Transformer::Interactive && cur.outcome().is_ok() && !cur.is_skipped() {
            return (cur, i);
        }
        cur = t.apply(cur, empty);
        i = i + 1;
    }
    (cur, i)
}

/// Running the stages ends at the end or at a stage that must ask, and keeps the visited mark.
pub proof fn lemma_run_spec(ts: Seq<Transformer>, item: ItemView, from: int, empty: bool)
    requires
        0 <= from <= ts.len(),
    ensures
        from <= run_spec(ts, item, from, empty).1 <= ts.len(),
        run_spec(ts, item, from, empty).1 < ts.len() ==> asks(
            ts[run_spec(ts, item, from, empty).1],
            run_spec(ts, item, from, empty).0,
        ),
        run_spec(ts, item, from, empty).0.visited == item.visited,
    decreases ts.len() - from,
{
    if from < ts.len() && !asks(ts[from], item) {
        lemma_run_spec(ts, stage_spec(ts[from], item, empty), from + 1, empty);
    }
}

/// Whether every stage is the identity.
pub open spec fn all_identity(ts: Seq<Transformer>) -> bool {
    forall|i: int| 0 <= i < ts.len() ==> ts[i] == Transformer::Identity
}

/// Stages that are all the identity never change an item, and never ask about it.
pub proof fn lemma_identity_stages(ts: Seq<Transformer>, item: ItemView, from: int, empty: bool)
    requires
        all_identity(ts),
        0 <= from <= ts.len(),
    ensures
        run_spec(ts, item, from, empty) == (item, ts.len() as int),
    decreases ts.len() - from,
{
    if from < ts.len() {
        lemma_identity_stages(ts, item, from + 1, empty);
    }
}

/// A stage that does nothing never changes an outcome, whatever it is run on.
pub proof fn identity_stage_changes_nothing(item: ItemView, empty: bool)
    ensures
        stage_spec(Transformer::Identity, item, empty) == item,
        !asks(Transformer::Identity, item),
{
}

/// The root guard turns every entry at a file system root into a `Refused` error for the same
/// path, without a tip; without the guard (the identity in its place) the item is untouched.
pub proof fn root_is_refused(item: ItemView, empty: bool)
    requires
        item.inner is Ok,
        !path_has_parent(item.inner->Ok_0.path),
    ensures
        stage_spec(Transformer::DisallowRoot, item, empty).inner == Err::<EntryView, ErrorView>(
            ErrorView { kind: ErrorKind::Refused, path: item.inner->Ok_0.path, tip: None },
        ),
        stage_spec(Transformer::Identity, item, empty) == item,
{
}

} // verus!
