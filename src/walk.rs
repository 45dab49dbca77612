//! Walking the file system: the items that run through the policies, and the walker that visits
//! a single path or a whole tree in post-order.
use vstd::prelude::*;
use vstd::string::StringExecFns;
use crate::fs::{
    copy_outcome, open, opt_view, outcome_path, outcome_view, Entry, EntryKind, EntryView, Error,
    ErrorKind, ErrorView,
};
use crate::transform::{
    all_identity, answer_from_line, asks, interact_spec, interact_transform, lemma_identity_stages,
    lemma_run_spec, new_prompt_for, prompt_text, run_spec, run_stages, trim_of,
    Transformer,
};

verus! {

/// What an [`Item`] stands for.
pub ghost struct ItemView {
    pub inner: Result<EntryView, ErrorView>,
    pub skip_reason: Option<Seq<char>>,
    pub visited: bool,
}

/// An outcome on its way through the policies: the entry or error, why (if at all) it must be
/// skipped, and whether it is the final (post-descent) occurrence of its object.
#[derive(Debug)]
pub struct Item {
    /// The entry or error that this item carries.
    pub inner: Result<Entry, Error>,
    pub(crate) skip_reason: Option<String>,
    pub(crate) visited: bool,
}

impl View for Item {
    type V = ItemView;

    closed spec fn view(&self) -> ItemView {
        ItemView {
            inner: outcome_view(self.inner),
            skip_reason: opt_view(self.skip_reason),
            visited: self.visited,
        }
    }
}

impl Item {
    /// A fresh item for an outcome: not skipped, not visited.
    pub fn new(inner: Result<Entry, Error>) -> (r: Item)
        ensures
            r@ == (ItemView { inner: outcome_view(inner), skip_reason: None, visited: false }),
    {
        Item { inner, skip_reason: None, visited: false }
    }

    /// The same item, marked to be skipped for the given reason.
    pub fn into_skipped(self, reason: &str) -> (r: Item)
        ensures
            r@ == (ItemView { skip_reason: Some(reason@), ..self@ }),
    {
        Item { inner: self.inner, skip_reason: Some(reason.to_owned()), visited: self.visited }
    }

    /// The same item, marked as visited.
    pub fn into_visited(self) -> (r: Item)
        ensures
            r@ == (ItemView { visited: true, ..self@ }),
    {
        Item { inner: self.inner, skip_reason: self.skip_reason, visited: true }
    }

    /// Whether the item is the final occurrence of its object.
    pub fn is_visited(&self) -> (r: bool)
        ensures
            r == self@.visited,
    {
        self.visited
    }

    /// Whether the item is marked to be skipped.
    pub fn is_skipped(&self) -> (r: bool)
        ensures
            r == self@.skip_reason.is_some(),
    {
        self.skip_reason.is_some()
    }

    /// Why the item must be skipped, if it must.
    pub fn skip_reason(&self) -> (r: Option<String>)
        ensures
            opt_view(r) == self@.skip_reason,
    {
        match &self.skip_reason {
            Some(s) => Some(s.clone()),
            None => None,
        }
    }

    /// The path the item concerns.
    pub fn path(&self) -> (r: String)
        ensures
            r@ == outcome_path(self@.inner),
    {
        match &self.inner {
            Ok(e) => e.path(),
            Err(e) => e.path(),
        }
    }

    /// A copy of the item.
    pub fn duplicate(&self) -> (r: Item)
        ensures
            r@ == self@,
    {
        Item { inner: copy_outcome(&self.inner), skip_reason: self.skip_reason(), visited: self.visited }
    }

    /// The outcome the item carries.
    pub fn outcome(&self) -> (r: &Result<Entry, Error>)
        ensures
            outcome_view(*r) == self@.inner,
    {
        &self.inner
    }

    /// The item with its outcome replaced, keeping its skip reason and visited mark.
    pub fn with_inner(self, inner: Result<Entry, Error>) -> (r: Item)
        ensures
            r@ == (ItemView { inner: outcome_view(inner), ..self@ }),
    {
        Item { inner, skip_reason: self.skip_reason, visited: self.visited }
    }
}

impl PartialEq for Item {
    fn eq(&self, other: &Item) -> (r: bool)
        ensures
            r == (self@ == other@),
    {
        let same_inner = match (&self.inner, &other.inner) {
            (Ok(a), Ok(b)) => *a == *b,
            (Err(a), Err(b)) => *a == *b,
            _ => false,
        };
        let same_reason = match (&self.skip_reason, &other.skip_reason) {
            (Some(a), Some(b)) => *a == *b,
            (None, None) => true,
            _ => false,
        };
        same_inner && same_reason && self.visited == other.visited
    }
}

impl vstd::std_specs::cmp::PartialEqSpecImpl for Item {
    open spec fn obeys_eq_spec() -> bool {
        true
    }

    open spec fn eq_spec(&self, other: &Item) -> bool {
        self@ == other@
    }
}

/// What a walker needs from the outside world next, or what it hands out.
#[derive(Debug)]
pub enum Request {
    /// Probe the metadata of this path without following a symbolic link; reply with
    /// [`Reply::Metadata`].
    Metadata(String),
    /// Tell whether the directory at this path is empty; reply with [`Reply::Emptiness`].
    Emptiness(String),
    /// Show this question to the user and read one line; reply with [`Reply::Answer`].
    Answer(String),
    /// List the paths of the children of the directory at this path; reply with
    /// [`Reply::Listing`].
    Listing(String),
    /// The outcome for a visited object; reply with [`Reply::Next`] for the next request.
    Outcome(Result<Entry, Error>),
    /// The walk is over.
    Finished,
}

/// What the outside world found out, in reply to a [`Request`].
#[derive(Debug)]
pub enum Reply {
    /// The kind of the object at the path, or the kind of the failure to probe it.
    Metadata(Result<EntryKind, ErrorKind>),
    /// Whether the directory is empty (a failure to tell counts as empty).
    Emptiness(bool),
    /// The line that the user typed, or `Err` where writing the question or reading failed.
    Answer(Result<String, ()>),
    /// The children's paths, or the kind of the failure to list them.
    Listing(Result<Vec<String>, ErrorKind>),
    /// The outcome was taken.
    Next,
}

/// The note on a skipped item: `skipped {path}: {reason}`.
pub open spec fn skip_note_text(item: ItemView) -> Seq<char> {
    "skipped "@ + outcome_path(item.inner) + ": "@ + item.skip_reason->Some_0
}

/// The note on a skipped item.
pub fn skip_message(item: &Item) -> (r: String)
    requires
        item@.skip_reason is Some,
    ensures
        r@ == skip_note_text(item@),
{
    let mut m = String::from_str("skipped ");
    let path = item.path();
    m.append(path.as_str());
    m.append(": ");
    match &item.skip_reason {
        Some(reason) => m.append(reason.as_str()),
        None => {},
    }
    m
}

/// Whether a walker in the given phase waits for a reply of this kind.
pub open spec fn phase_accepts(phase: PhaseView, reply: &Reply) -> bool {
    match phase {
        PhaseView::Resolve(_) => reply is Metadata,
        PhaseView::Empty(_) => reply is Emptiness,
        PhaseView::Ask(..) => reply is Answer,
        PhaseView::List(_) => reply is Listing,
        PhaseView::Emitted => reply is Next,
        PhaseView::Finished => true,
    }
}

/// Whether `reply` is the kind of reply that `request` asks for.
pub open spec fn replies_to(request: &Request, reply: &Reply) -> bool {
    match request {
        Request::Metadata(_) => reply is Metadata,
        Request::Emptiness(_) => reply is Emptiness,
        Request::Answer(_) => reply is Answer,
        Request::Listing(_) => reply is Listing,
        Request::Outcome(_) => reply is Next,
        Request::Finished => true,
    }
}

/// A directory whose content is being walked.
struct Frame {
    dir: Entry,
    children: Vec<String>,
    next: usize,
    id: Ghost<Seq<nat>>,
}

/// Where a walker stands.
enum Phase {
    /// Waiting for the metadata of a path.
    Resolve { path: String },
    /// Waiting to learn whether the item's directory is empty.
    Empty { item: Item },
    /// Waiting for the user's answer for the stage at index `stage`.
    Ask { item: Item, stage: usize, empty: bool },
    /// Waiting for the listing of a directory.
    List { dir: Entry },
    /// An outcome was handed out.
    Emitted,
    /// Nothing is left.
    Finished,
}

/// Whether `u` is a prefix of `v`, or equal to it.
pub open spec fn is_prefix(u: Seq<nat>, v: Seq<nat>) -> bool {
    u.len() <= v.len() && v.subrange(0, u.len() as int) == u
}

/// Whether `v` lies strictly below `u`: `u` is a shorter prefix of `v`.
pub open spec fn is_below(v: Seq<nat>, u: Seq<nat>) -> bool {
    u.len() < v.len() && v.subrange(0, u.len() as int) == u
}

/// The position of the object whose outcome a walker hands out, from the directories being
/// walked: the index in each listing of the child that was last started.
pub open spec fn stack_position(stack: Seq<FrameView>) -> Seq<nat> {
    stack.map_values(|f: FrameView| (f.next - 1) as nat)
}

/// Whether, in a sequence of node positions, no position comes after one of the positions
/// below it: every object comes after everything in its subtree.
pub open spec fn post_ordered(ids: Seq<Seq<nat>>) -> bool {
    forall|i: int, j: int| 0 <= i < j < ids.len() ==> !is_below(ids[j], ids[i])
}

/// A walker over the objects at and below one path.
///
/// A walker is driven by its caller: each call of [`Walker::step`] takes the reply to the
/// previous request and returns the next request. The walk visits each object once, runs it
/// through the stages, and hands out its outcome unless a stage skipped it. In recursive mode a
/// directory that is admitted and not empty is descended into: its children are walked first,
/// then the directory is run through the stages a second time, marked visited, and its outcome
/// comes last. Symbolic links are never descended into.
///
/// Each visited object has a position: the empty sequence for the starting path, and the
/// position of its directory followed by its index in the directory's listing for a child.
pub struct Walker {
    transformers: Vec<Transformer>,
    recursive: bool,
    phase: Phase,
    stack: Vec<Frame>,
    current: Ghost<Seq<nat>>,
    emitted: Ghost<Seq<Seq<nat>>>,
    outcomes: Ghost<Seq<Result<EntryView, ErrorView>>>,
    resolved: Ghost<Seq<Result<EntryView, ErrorView>>>,
    root: Ghost<Seq<char>>,
    skip_note: Option<String>,
}

impl Walker {
    /// The positions of the objects whose outcome was handed out, in order.
    pub closed spec fn emitted(&self) -> Seq<Seq<nat>> {
        self.emitted@
    }

    /// The outcomes handed out, in order.
    pub closed spec fn outcomes(&self) -> Seq<Result<EntryView, ErrorView>> {
        self.outcomes@
    }

    /// What the metadata probes resolved, in order.
    pub closed spec fn resolved(&self) -> Seq<Result<EntryView, ErrorView>> {
        self.resolved@
    }

    /// The path the walk started at.
    pub closed spec fn root(&self) -> Seq<char> {
        self.root@
    }

    /// The stages every object runs through.
    pub closed spec fn stages(&self) -> Seq<Transformer> {
        self.transformers@
    }

    /// Whether the walker descends into directories.
    pub closed spec fn is_recursive(&self) -> bool {
        self.recursive
    }

    /// Whether the walk is over.
    pub closed spec fn is_finished(&self) -> bool {
        self.phase is Finished
    }

    /// Which reply the walker waits for.
    pub open spec fn accepts_spec(&self, reply: &Reply) -> bool {
        phase_accepts(self@.phase, reply)
    }

    spec fn ids(&self) -> Seq<Seq<nat>> {
        self.stack@.map_values(|f: Frame| f.id@)
    }

    spec fn nexts(&self) -> Seq<nat> {
        self.stack@.map_values(|f: Frame| f.next as nat)
    }

    spec fn frames_wf(&self) -> bool {
        &&& frames_ok(self.ids(), self.nexts())
        &&& forall|i: int|
            0 <= i < self.stack@.len() ==> (#[trigger] self.stack@[i]).next
                <= self.stack@[i].children@.len() && self.stack@[i].dir@.kind == EntryKind::Dir
    }

    spec fn sound(&self) -> bool {
        &&& self.frames_wf()
        &&& trace_ok(self.emitted@, self.ids(), self.nexts())
        &&& self.emitted@.len() == self.outcomes@.len()
        &&& no_repeats(self.emitted@)
        &&& contiguous(self.emitted@)
    }

    spec fn at_position(&self) -> bool {
        &&& self.current@ == pos_of(self.ids(), self.nexts())
        &&& (self.stack@.len() > 0 ==> self.nexts().last() > 0)
        &&& none_above(self.current@, self.emitted@)
        &&& left_closed(self.emitted@, self.ids(), self.current@)
    }

    spec fn phase_wf(&self) -> bool {
        let c = self.current@;
        let em = self.emitted@;
        match self.phase {
            Phase::Resolve { .. } => fresh_at(c, em),
            Phase::Empty { item } => {
                &&& item@.inner is Ok
                &&& item@.inner->Ok_0.kind == EntryKind::Dir
                &&& item@.skip_reason is None
                &&& unemitted_at(c, em)
                &&& (!item@.visited ==> fresh_at(c, em))
            },
            Phase::Ask { item, stage, empty } => {
                &&& stage < self.transformers@.len()
                &&& self.transformers@[stage as int] == Transformer::Interactive
                &&& item@.inner is Ok
                &&& unemitted_at(c, em)
                &&& (!item@.visited ==> fresh_at(c, em))
            },
            Phase::List { dir } => dir@.kind == EntryKind::Dir && fresh_at(c, em),
            Phase::Emitted => em.len() > 0 && em.last() == c,
            Phase::Finished => true,
        }
    }

    spec fn given_wf(&self) -> bool {
        !self.recursive ==> {
            &&& self.stack@.len() == 0
            &&& self.emitted@.len() <= 1
            &&& (self.phase is Resolve ==> self.resolved@.len() == 0 && self.emitted@.len() == 0
                && self.phase->Resolve_path@ == self.root@)
            &&& (self.phase is Empty || self.phase is Ask ==> self.emitted@.len() == 0
                && self.resolved@.len() == 1)
            &&& !(self.phase is List)
            &&& (self.phase is Emitted ==> self.emitted@.len() == 1)
            &&& (self.resolved@.len() > 0 ==> self.resolved@.len() == 1
                && outcome_path(self.resolved@[0]) == self.root@)
            &&& (self.phase is Empty ==> self.phase->Empty_item@ == (ItemView {
                inner: self.resolved@[0],
                skip_reason: None,
                visited: true,
            }))
            &&& (all_identity(self.transformers@) ==> {
                &&& !(self.phase is Ask)
                &&& (self.emitted@.len() == 1 ==> self.outcomes@ == self.resolved@)
                &&& (self.phase is Finished ==> self.emitted@.len() == 1)
            })
        }
    }

    /// The walker's invariant.
    pub closed spec fn wf(&self) -> bool {
        &&& self.sound()
        &&& (!(self.phase is Finished) ==> self.at_position())
        &&& self.phase_wf()
        &&& self.given_wf()
    }
}


/// The position of the object a walker is at, given the positions of the directories being
/// walked and how many children of each were started.
spec fn pos_of(ids: Seq<Seq<nat>>, nexts: Seq<nat>) -> Seq<nat> {
    if ids.len() == 0 {
        Seq::empty()
    } else {
        ids.last().push((nexts.last() - 1) as nat)
    }
}

spec fn frames_ok(ids: Seq<Seq<nat>>, nexts: Seq<nat>) -> bool {
    &&& ids.len() == nexts.len()
    &&& ids.len() > 0 ==> ids[0] == Seq::<nat>::empty()
    &&& forall|i: int| 0 <= i < ids.len() ==> (#[trigger] ids[i]).len() == i
    &&& forall|i: int| 0 < i < ids.len() ==> #[trigger] linked(ids, nexts, i)
}

/// The directory at depth `i` is the child last started in the one at depth `i - 1`.
spec fn linked(ids: Seq<Seq<nat>>, nexts: Seq<nat>, i: int) -> bool {
    nexts[i - 1] > 0 && ids[i] == ids[i - 1].push((nexts[i - 1] - 1) as nat)
}

spec fn trace_ok(em: Seq<Seq<nat>>, ids: Seq<Seq<nat>>, nexts: Seq<nat>) -> bool {
    &&& post_ordered(em)
    &&& forall|k: int, i: int|
        0 <= k < em.len() && 0 <= i < ids.len() ==> !is_prefix(#[trigger] em[k], #[trigger] ids[i])
    &&& forall|k: int, i: int|
        0 <= k < em.len() && 0 <= i < ids.len() && is_below(#[trigger] em[k], #[trigger] ids[i])
            ==> em[k][ids[i].len() as int] < nexts[i]
}

/// Whether no position occurs twice.
pub open spec fn no_repeats(ids: Seq<Seq<nat>>) -> bool {
    forall|i: int, j: int| 0 <= i < j < ids.len() ==> ids[i] != ids[j]
}

/// Whether the positions below each position form one block that ends right before it: between
/// a position below `em[k]` and `em[k]` itself, every position is below `em[k]` or equal to it.
pub open spec fn contiguous(ids: Seq<Seq<nat>>) -> bool {
    forall|a: int, b: int, k: int|
        0 <= a < b < k < ids.len() && #[trigger] is_below(ids[a], ids[k]) ==> is_prefix(
            ids[k],
            #[trigger] ids[b],
        )
}

/// A position that can never be handed out again: it is not at or above the current position,
/// nor at or above a directory being walked.
spec fn closed_at(u: Seq<nat>, ids: Seq<Seq<nat>>, c: Seq<nat>) -> bool {
    !is_prefix(u, c) && forall|i: int| 0 <= i < ids.len() ==> !is_prefix(u, #[trigger] ids[i])
}

/// Every directory that was left (something below it was handed out, then something not at or
/// below it) is closed.
spec fn left_closed(em: Seq<Seq<nat>>, ids: Seq<Seq<nat>>, c: Seq<nat>) -> bool {
    forall|a: int, b: int, u: Seq<nat>|
        0 <= a < b < em.len() && #[trigger] is_below(em[a], u) && !is_prefix(u, #[trigger] em[b])
            ==> closed_at(u, ids, c)
}

proof fn lemma_prefix_trans(u: Seq<nat>, v: Seq<nat>, w: Seq<nat>)
    requires
        is_prefix(u, v),
        is_prefix(v, w) || is_below(w, v),
    ensures
        is_prefix(u, w),
{
    assert(w.subrange(0, u.len() as int) =~= w.subrange(0, v.len() as int).subrange(0, u.len() as int));
}

proof fn lemma_emit_closed(em: Seq<Seq<nat>>, ids: Seq<Seq<nat>>, nexts: Seq<nat>, c: Seq<nat>)
    requires
        frames_ok(ids, nexts),
        c == pos_of(ids, nexts),
        ids.len() > 0 ==> nexts.last() > 0,
        left_closed(em, ids, c),
        contiguous(em),
    ensures
        contiguous(em.push(c)),
        left_closed(em.push(c), ids, c),
{
    let em2 = em.push(c);
    assert(c.subrange(0, c.len() as int) =~= c);
    assert forall|a: int, b: int, k: int|
        0 <= a < b < k < em2.len() && #[trigger] is_below(em2[a], em2[k]) implies is_prefix(
            em2[k],
            #[trigger] em2[b],
        ) by {
        assert(em2[a] == em[a] && em2[b] == em[b]);
        if k < em.len() {
            assert(em2[k] == em[k]);
        } else {
            if !is_prefix(c, em[b]) {
                assert(closed_at(c, ids, c));
            }
        }
    }
    assert forall|a: int, b: int, u: Seq<nat>|
        0 <= a < b < em2.len() && #[trigger] is_below(em2[a], u) && !is_prefix(u, #[trigger] em2[b])
        implies closed_at(u, ids, c) by {
        assert(em2[a] == em[a]);
        if b < em.len() {
            assert(em2[b] == em[b]);
        } else {
            assert forall|i: int| 0 <= i < ids.len() implies !is_prefix(u, #[trigger] ids[i]) by {
                if is_prefix(u, ids[i]) {
                    lemma_pos_below(ids, nexts, i);
                    lemma_prefix_trans(u, ids[i], c);
                }
            }
        }
    }
}

proof fn lemma_child_closed(em: Seq<Seq<nat>>, ids: Seq<Seq<nat>>, nexts: Seq<nat>, c: Seq<nat>)
    requires
        frames_ok(ids, nexts),
        trace_ok(em, ids, nexts),
        ids.len() > 0,
        left_closed(em, ids, c),
    ensures
        left_closed(em, ids, ids.last().push(nexts.last())),
{
    let top = ids.len() - 1;
    let c2 = ids.last().push(nexts.last());
    assert(ids[top].len() == top);
    assert forall|a: int, b: int, u: Seq<nat>|
        0 <= a < b < em.len() && #[trigger] is_below(em[a], u) && !is_prefix(u, #[trigger] em[b])
        implies closed_at(u, ids, c2) by {
        assert(closed_at(u, ids, c));
        assert(!is_prefix(u, ids[top]));
        if is_prefix(u, c2) {
            if u.len() <= top {
                assert(ids[top].subrange(0, u.len() as int) =~= c2.subrange(0, u.len() as int));
            } else {
                assert(u =~= c2.subrange(0, u.len() as int));
                assert(u.len() == c2.len());
                assert(u =~= c2);
                assert(em[a].subrange(0, top) =~= u.subrange(0, top));
                assert(u.subrange(0, top) =~= ids[top]);
                assert(is_below(em[a], ids[top]));
                assert(em[a][top] == u[top]);
            }
        }
    }
}

proof fn lemma_pop_closed(em: Seq<Seq<nat>>, ids: Seq<Seq<nat>>, c: Seq<nat>)
    requires
        ids.len() > 0,
        left_closed(em, ids, c),
    ensures
        left_closed(em, ids.drop_last(), ids.last()),
{
    assert forall|a: int, b: int, u: Seq<nat>|
        0 <= a < b < em.len() && #[trigger] is_below(em[a], u) && !is_prefix(u, #[trigger] em[b])
        implies closed_at(u, ids.drop_last(), ids.last()) by {
        assert(closed_at(u, ids, c));
        assert(!is_prefix(u, ids[ids.len() - 1]));
        assert forall|i: int| 0 <= i < ids.len() - 1 implies !is_prefix(u, #[trigger] ids.drop_last()[i]) by {
            assert(!is_prefix(u, ids[i]));
        }
    }
}

proof fn lemma_push_closed(em: Seq<Seq<nat>>, ids: Seq<Seq<nat>>, c: Seq<nat>)
    requires
        left_closed(em, ids, c),
    ensures
        left_closed(em, ids.push(c), c),
{
    assert forall|a: int, b: int, u: Seq<nat>|
        0 <= a < b < em.len() && #[trigger] is_below(em[a], u) && !is_prefix(u, #[trigger] em[b])
        implies closed_at(u, ids.push(c), c) by {
        assert(closed_at(u, ids, c));
        assert forall|i: int| 0 <= i < ids.len() + 1 implies !is_prefix(u, #[trigger] ids.push(c)[i]) by {
            if i < ids.len() {
                assert(!is_prefix(u, ids[i]));
            }
        }
    }
}

spec fn none_above(c: Seq<nat>, em: Seq<Seq<nat>>) -> bool {
    forall|k: int| 0 <= k < em.len() ==> !is_below(c, #[trigger] em[k])
}

spec fn fresh_at(c: Seq<nat>, em: Seq<Seq<nat>>) -> bool {
    forall|k: int| 0 <= k < em.len() ==> !is_prefix(c, #[trigger] em[k])
}

spec fn unemitted_at(c: Seq<nat>, em: Seq<Seq<nat>>) -> bool {
    forall|k: int| 0 <= k < em.len() ==> #[trigger] em[k] != c
}

proof fn lemma_pos_is_stack(ids: Seq<Seq<nat>>, nexts: Seq<nat>)
    requires
        frames_ok(ids, nexts),
        ids.len() > 0 ==> nexts.last() > 0,
    ensures
        pos_of(ids, nexts) == nexts.map_values(|n: nat| (n - 1) as nat),
{
    let m = nexts.map_values(|n: nat| (n - 1) as nat);
    assert forall|i: int| 0 <= i < ids.len() implies #[trigger] ids[i] =~= m.subrange(0, i) by {
        lemma_ids_prefix(ids, nexts, i);
    }
    if ids.len() > 0 {
        assert(ids.last() =~= m.subrange(0, ids.len() - 1));
        assert(pos_of(ids, nexts) =~= m);
    } else {
        assert(pos_of(ids, nexts) =~= m);
    }
}

proof fn lemma_ids_prefix(ids: Seq<Seq<nat>>, nexts: Seq<nat>, i: int)
    requires
        frames_ok(ids, nexts),
        0 <= i < ids.len(),
    ensures
        ids[i] =~= nexts.map_values(|n: nat| (n - 1) as nat).subrange(0, i),
    decreases i,
{
    if i > 0 {
        lemma_ids_prefix(ids, nexts, i - 1);
        assert(linked(ids, nexts, i));
    }
}

proof fn lemma_fresh_unemitted(c: Seq<nat>, em: Seq<Seq<nat>>)
    requires
        fresh_at(c, em),
    ensures
        unemitted_at(c, em),
{
    assert forall|k: int| 0 <= k < em.len() implies #[trigger] em[k] != c by {
        if em[k] == c {
            assert(em[k].subrange(0, c.len() as int) =~= c);
        }
    }
}

proof fn lemma_chain(ids: Seq<Seq<nat>>, nexts: Seq<nat>, i: int, j: int)
    requires
        frames_ok(ids, nexts),
        0 <= i < j < ids.len(),
    ensures
        is_below(ids[j], ids[i]),
        ids[j][i] == nexts[i] - 1,
    decreases j - i,
{
    assert(linked(ids, nexts, j));
    assert(ids[i].len() == i);
    if i + 1 < j {
        lemma_chain(ids, nexts, i, j - 1);
        assert(ids[j].subrange(0, i) =~= ids[j - 1].subrange(0, i));
    } else {
        assert(ids[j].subrange(0, i) =~= ids[i]);
    }
}

proof fn lemma_pos_below(ids: Seq<Seq<nat>>, nexts: Seq<nat>, i: int)
    requires
        frames_ok(ids, nexts),
        ids.len() > 0,
        nexts.last() > 0,
        0 <= i < ids.len(),
    ensures
        is_below(pos_of(ids, nexts), ids[i]),
        pos_of(ids, nexts)[i] == nexts[i] - 1,
{
    let top = ids.len() - 1;
    let p = pos_of(ids, nexts);
    assert(ids[top].len() == top);
    assert(ids[i].len() == i);
    if i < top {
        lemma_chain(ids, nexts, i, top);
        assert(p.subrange(0, i) =~= ids[top].subrange(0, i));
    } else {
        assert(p.subrange(0, i) =~= ids[i]);
    }
}

proof fn lemma_emit(em: Seq<Seq<nat>>, ids: Seq<Seq<nat>>, nexts: Seq<nat>, c: Seq<nat>)
    requires
        frames_ok(ids, nexts),
        trace_ok(em, ids, nexts),
        c == pos_of(ids, nexts),
        ids.len() > 0 ==> nexts.last() > 0,
        none_above(c, em),
    ensures
        trace_ok(em.push(c), ids, nexts),
        none_above(c, em.push(c)),
{
    let em2 = em.push(c);
    assert forall|k: int, i: int|
        0 <= k < em2.len() && 0 <= i < ids.len() implies !is_prefix(#[trigger] em2[k], #[trigger] ids[i])
    by {
        if k == em.len() {
            lemma_pos_below(ids, nexts, i);
        }
    }
    assert forall|k: int, i: int|
        0 <= k < em2.len() && 0 <= i < ids.len() && is_below(#[trigger] em2[k], #[trigger] ids[i])
        implies em2[k][ids[i].len() as int] < nexts[i]
    by {
        if k == em.len() {
            lemma_pos_below(ids, nexts, i);
        }
    }
    assert forall|i: int, j: int| 0 <= i < j < em2.len() implies !is_below(em2[j], em2[i]) by {
        if j == em.len() {
            assert(em2[i] == em[i]);
        }
    }
    assert forall|k: int| 0 <= k < em2.len() implies !is_below(c, #[trigger] em2[k]) by {
        if k < em.len() {
            assert(em2[k] == em[k]);
        }
    }
}

proof fn lemma_child(em: Seq<Seq<nat>>, ids: Seq<Seq<nat>>, nexts: Seq<nat>)
    requires
        frames_ok(ids, nexts),
        trace_ok(em, ids, nexts),
        ids.len() > 0,
    ensures
        ({
            let nexts2 = nexts.update(nexts.len() - 1, nexts.last() + 1);
            let c = ids.last().push(nexts.last());
            &&& frames_ok(ids, nexts2)
            &&& trace_ok(em, ids, nexts2)
            &&& c == pos_of(ids, nexts2)
            &&& nexts2.last() > 0
            &&& fresh_at(c, em)
            &&& none_above(c, em)
        }),
{
    let top = ids.len() - 1;
    let nexts2 = nexts.update(top, nexts.last() + 1);
    let c = ids.last().push(nexts.last());
    assert(ids[top].len() == top);
    assert forall|i: int| 0 < i < ids.len() implies #[trigger] linked(ids, nexts2, i) by {
        assert(linked(ids, nexts, i));
        assert(nexts2[i - 1] == nexts[i - 1]);
    }
    assert forall|k: int, i: int|
        0 <= k < em.len() && 0 <= i < ids.len() && is_below(#[trigger] em[k], #[trigger] ids[i])
        implies em[k][ids[i].len() as int] < nexts2[i]
    by {
    }
    assert forall|k: int| 0 <= k < em.len() implies !is_prefix(c, #[trigger] em[k]) by {
        if is_prefix(c, em[k]) {
            assert(em[k].subrange(0, top) =~= c.subrange(0, top));
            assert(c.subrange(0, top) =~= ids[top]);
            assert(is_below(em[k], ids[top]));
            assert(em[k][top] == c[top]);
        }
    }
    assert forall|k: int| 0 <= k < em.len() implies !is_below(c, #[trigger] em[k]) by {
        if is_below(c, em[k]) {
            assert(c.subrange(0, em[k].len() as int) =~= ids[top].subrange(0, em[k].len() as int));
            assert(is_prefix(em[k], ids[top]));
        }
    }
}

proof fn lemma_pop(em: Seq<Seq<nat>>, ids: Seq<Seq<nat>>, nexts: Seq<nat>)
    requires
        frames_ok(ids, nexts),
        trace_ok(em, ids, nexts),
        ids.len() > 0,
    ensures
        ({
            let ids2 = ids.drop_last();
            let nexts2 = nexts.drop_last();
            let c = ids.last();
            &&& frames_ok(ids2, nexts2)
            &&& trace_ok(em, ids2, nexts2)
            &&& c == pos_of(ids2, nexts2)
            &&& (ids2.len() > 0 ==> nexts2.last() > 0)
            &&& none_above(c, em)
            &&& unemitted_at(c, em)
        }),
{
    let top = ids.len() - 1;
    let c = ids.last();
    if top > 0 {
        assert(linked(ids, nexts, top));
    }
    assert forall|i: int| 0 < i < ids.len() - 1 implies #[trigger] linked(ids.drop_last(), nexts.drop_last(), i) by {
        assert(linked(ids, nexts, i));
    }
    assert forall|k: int| 0 <= k < em.len() implies !is_below(c, #[trigger] em[k]) by {
        if is_below(c, em[k]) {
            assert(is_prefix(em[k], ids[top]));
        }
    }
    assert forall|k: int| 0 <= k < em.len() implies #[trigger] em[k] != c by {
        if em[k] == c {
            assert(em[k].subrange(0, c.len() as int) =~= c);
            assert(is_prefix(em[k], ids[top]));
        }
    }
}

proof fn lemma_push(em: Seq<Seq<nat>>, ids: Seq<Seq<nat>>, nexts: Seq<nat>, c: Seq<nat>)
    requires
        frames_ok(ids, nexts),
        trace_ok(em, ids, nexts),
        c == pos_of(ids, nexts),
        ids.len() > 0 ==> nexts.last() > 0,
        fresh_at(c, em),
        none_above(c, em),
    ensures
        frames_ok(ids.push(c), nexts.push(0)),
        trace_ok(em, ids.push(c), nexts.push(0)),
{
    let ids2 = ids.push(c);
    let nexts2 = nexts.push(0);
    if ids.len() > 0 {
        assert(ids[ids.len() - 1].len() == ids.len() - 1);
    }
    assert forall|i: int| 0 <= i < ids2.len() implies (#[trigger] ids2[i]).len() == i by {
        if i < ids.len() {
            assert(ids2[i] == ids[i]);
        }
    }
    assert forall|i: int| 0 < i < ids2.len() implies #[trigger] linked(ids2, nexts2, i) by {
        if i < ids.len() {
            assert(linked(ids, nexts, i));
        }
    }
    assert forall|k: int, i: int|
        0 <= k < em.len() && 0 <= i < ids2.len() implies !is_prefix(#[trigger] em[k], #[trigger] ids2[i])
    by {
        if i == ids.len() {
            if is_prefix(em[k], c) {
                if em[k].len() == c.len() {
                    assert(c.subrange(0, c.len() as int) =~= c);
                    assert(is_prefix(c, em[k]));
                } else {
                    assert(is_below(c, em[k]));
                }
            }
        }
    }
    assert forall|k: int, i: int|
        0 <= k < em.len() && 0 <= i < ids2.len() && is_below(#[trigger] em[k], #[trigger] ids2[i])
        implies em[k][ids2[i].len() as int] < nexts2[i]
    by {
        if i == ids.len() {
            assert(is_prefix(c, em[k]));
        }
    }
}

impl Walker {
    spec fn same_setup(&self, other: &Walker) -> bool {
        &&& self.transformers@ == other.transformers@
        &&& self.recursive == other.recursive
        &&& self.root@ == other.root@
        &&& self.resolved@ == other.resolved@
    }

    /// Hands out an outcome for the object at the current position.
    fn emit(&mut self, outcome: Result<Entry, Error>) -> (r: Request)
        requires
            old(self).sound(),
            old(self).at_position(),
            unemitted_at(old(self).current@, old(self).emitted@),
            !old(self).recursive ==> old(self).emitted@.len() == 0 && old(self).stack@.len() == 0
                && old(self).resolved@.len() == 1 && outcome_path(old(self).resolved@[0])
                == old(self).root@,
            !old(self).recursive && all_identity(old(self).transformers@) ==> outcome_view(outcome)
                == old(self).resolved@[0],
        ensures
            final(self).wf(),
            final(self).same_setup(old(self)),
            final(self).emitted@ == old(self).emitted@.push(old(self).current@),
            old(self).current@ == stack_position(old(self)@.stack),
            final(self)@.stack == old(self)@.stack,
            final(self).outcomes@ == old(self).outcomes@.push(outcome_view(outcome)),
            r is Outcome && outcome_view(r->Outcome_0) == outcome_view(outcome),
            !final(self).is_finished(),
            forall|reply: Reply| #[trigger] final(self).accepts_spec(&reply) == replies_to(&r, &reply),
            (final(self)@, request_view(r)) == (with_phase(old(self)@, PhaseView::Emitted), RequestView::Outcome(outcome_view(outcome))),
    {
        proof {
            lemma_pos_is_stack(self.ids(), self.nexts());
            assert(self.nexts() =~= self@.stack.map_values(|f: FrameView| f.next));
            assert(stack_position(self@.stack) =~= self.nexts().map_values(|n: nat| (n - 1) as nat));
        }
        proof {
            lemma_emit(self.emitted@, self.ids(), self.nexts(), self.current@);
            lemma_emit_closed(self.emitted@, self.ids(), self.nexts(), self.current@);
        }
        proof {
            let em2 = self.emitted@.push(self.current@);
            assert forall|a: int, b: int| 0 <= a < b < em2.len() implies em2[a] != em2[b] by {
                if b == self.emitted@.len() {
                    assert(em2[a] == self.emitted@[a]);
                }
            }
        }
        self.emitted = Ghost(self.emitted@.push(self.current@));
        self.outcomes = Ghost(self.outcomes@.push(outcome_view(outcome)));
        self.phase = Phase::Emitted;
        proof {
            if !self.recursive && all_identity(self.transformers@) {
                assert(self.outcomes@ =~= self.resolved@);
            }
        }
        Request::Outcome(outcome)
    }

    /// Moves on after the object at the current position was handed out or skipped: to the
    /// next child of the innermost directory, to that directory's final visit, or to the end.
    fn next_node(&mut self) -> (r: Request)
        requires
            old(self).sound(),
            left_closed(old(self).emitted@, old(self).ids(), old(self).current@),
            !old(self).recursive ==> old(self).stack@.len() == 0 && old(self).emitted@.len() <= 1
                && (all_identity(old(self).transformers@) ==> old(self).emitted@.len() == 1
                && old(self).outcomes@ == old(self).resolved@)
                && (old(self).resolved@.len() > 0 ==> old(self).resolved@.len() == 1
                && outcome_path(old(self).resolved@[0]) == old(self).root@),
        ensures
            final(self).wf(),
            final(self).same_setup(old(self)),
            final(self).emitted@ == old(self).emitted@,
            final(self).outcomes@ == old(self).outcomes@,
            !(r is Outcome),
            r is Finished <==> final(self).is_finished(),
            forall|reply: Reply| #[trigger] final(self).accepts_spec(&reply) == replies_to(&r, &reply),
            (final(self)@, request_view(r)) == next_node_spec(old(self)@),
    {
        if self.stack.len() == 0 {
            self.phase = Phase::Finished;
            return Request::Finished;
        }
        let ghost em = self.emitted@;
        let ghost st = self.stack@;
        let ghost ids = self.ids();
        let ghost nexts = self.nexts();
        let mut frame = self.stack.pop().unwrap();
        proof {
            assert(frame == st.last());
            assert(self.stack@ == st.drop_last());
        }
        if frame.next < frame.children.len() {
            let path = frame.children[frame.next].clone();
            proof {
                lemma_child(em, ids, nexts);
                lemma_child_closed(em, ids, nexts, self.current@);
            }
            let ghost c = frame.id@.push(frame.next as nat);
            frame.next = frame.next + 1;
            self.stack.push(frame);
            self.current = Ghost(c);
            proof {
                assert(self.stack@ == st.update(st.len() - 1, self.stack@.last()));
                let sv = st.map_values(|f: Frame| f@);
                assert(self.stack@.map_values(|f: Frame| f@) =~= sv.update(sv.len() - 1, FrameView { next: sv.last().next + 1, ..sv.last() }));
                assert(self.ids() =~= ids);
                assert(self.nexts() =~= nexts.update(nexts.len() - 1, nexts.last() + 1));
            }
            self.phase = Phase::Resolve { path: path.clone() };
            return Request::Metadata(path);
        }
        proof {
            lemma_pop(em, ids, nexts);
            lemma_pop_closed(em, ids, self.current@);
            assert(self.ids() =~= ids.drop_last());
            assert(self.nexts() =~= nexts.drop_last());
            assert(self.stack@.map_values(|f: Frame| f@) =~= st.map_values(|f: Frame| f@).drop_last());
        }
        self.current = Ghost(frame.id@);
        let item = Item { inner: Ok(frame.dir), skip_reason: None, visited: true };
        let path = item.path();
        self.phase = Phase::Empty { item };
        Request::Emptiness(path)
    }

    /// Where a visit ends: a skipped item is dropped, a directory to descend into is listed,
    /// anything else is handed out.
    fn finish_visit(&mut self, item: Item, empty: bool) -> (r: Request)
        requires
            old(self).sound(),
            old(self).at_position(),
            unemitted_at(old(self).current@, old(self).emitted@),
            !item@.visited ==> fresh_at(old(self).current@, old(self).emitted@),
            !old(self).recursive ==> old(self).emitted@.len() == 0 && old(self).stack@.len() == 0
                && old(self).resolved@.len() == 1 && outcome_path(old(self).resolved@[0])
                == old(self).root@,
            !old(self).recursive && all_identity(old(self).transformers@) ==> item@ == (ItemView {
                inner: old(self).resolved@[0],
                skip_reason: None,
                visited: true,
            }),
        ensures
            final(self).wf(),
            final(self).same_setup(old(self)),
            r is Outcome ==> final(self).outcomes@ == old(self).outcomes@.push(
                outcome_view(r->Outcome_0),
            ) && final(self).emitted@ == old(self).emitted@.push(stack_position(final(self)@.stack)),
            !(r is Outcome) ==> final(self).outcomes@ == old(self).outcomes@
                && final(self).emitted@ == old(self).emitted@,
            r is Finished <==> final(self).is_finished(),
            forall|reply: Reply| #[trigger] final(self).accepts_spec(&reply) == replies_to(&r, &reply),
            (final(self)@, request_view(r)) == finish_spec(old(self)@, item@, empty),
    {
        if item.is_skipped() {
            self.skip_note = Some(skip_message(&item));
            return self.next_node();
        }
        let descend = match item.outcome() {
            Ok(e) => self.recursive && !item.is_visited() && e.is_dir() && !empty,
            Err(_) => false,
        };
        if descend {
            match item.inner {
                Ok(dir) => {
                    let path = dir.path();
                    self.phase = Phase::List { dir };
                    return Request::Listing(path);
                },
                Err(_) => {
                    proof {
                        assert(false);
                    }
                    return Request::Finished;
                },
            }
        }
        self.emit(item.inner)
    }

    /// Runs an item through the stages from index `from` on, and asks the user where a stage
    /// must.
    fn continue_stages(&mut self, item: Item, from: usize, empty: bool) -> (r: Request)
        requires
            old(self).sound(),
            old(self).at_position(),
            from <= old(self).transformers@.len(),
            unemitted_at(old(self).current@, old(self).emitted@),
            !item@.visited ==> fresh_at(old(self).current@, old(self).emitted@),
            !old(self).recursive ==> old(self).emitted@.len() == 0 && old(self).stack@.len() == 0
                && old(self).resolved@.len() == 1 && outcome_path(old(self).resolved@[0])
                == old(self).root@,
            !old(self).recursive && all_identity(old(self).transformers@) ==> item@ == (ItemView {
                inner: old(self).resolved@[0],
                skip_reason: None,
                visited: true,
            }),
        ensures
            final(self).wf(),
            final(self).same_setup(old(self)),
            r is Outcome ==> final(self).outcomes@ == old(self).outcomes@.push(
                outcome_view(r->Outcome_0),
            ) && final(self).emitted@ == old(self).emitted@.push(stack_position(final(self)@.stack)),
            !(r is Outcome) ==> final(self).outcomes@ == old(self).outcomes@
                && final(self).emitted@ == old(self).emitted@,
            r is Finished <==> final(self).is_finished(),
            forall|reply: Reply| #[trigger] final(self).accepts_spec(&reply) == replies_to(&r, &reply),
            (final(self)@, request_view(r)) == stages_spec(old(self)@, item@, from as int, empty),
    {
        proof {
            lemma_run_spec(self.transformers@, item@, from as int, empty);
            if all_identity(self.transformers@) {
                lemma_identity_stages(self.transformers@, item@, from as int, empty);
            }
        }
        let (item, stop) = run_stages(&self.transformers, item, from, empty);
        if stop < self.transformers.len() {
            match item.outcome() {
                Ok(e) => {
                    let prompt = new_prompt_for(e, item.is_visited(), empty);
                    self.phase = Phase::Ask { item, stage: stop, empty };
                    return Request::Answer(prompt);
                },
                Err(_) => {
                    proof {
                        assert(false);
                    }
                    return Request::Finished;
                },
            }
        }
        self.finish_visit(item, empty)
    }

    /// Starts the visit of a resolved item: a directory waits to learn whether it is empty,
    /// anything else goes through the stages at once.
    fn visit(&mut self, item: Item) -> (r: Request)
        requires
            old(self).sound(),
            old(self).at_position(),
            item@.skip_reason is None,
            unemitted_at(old(self).current@, old(self).emitted@),
            !item@.visited ==> fresh_at(old(self).current@, old(self).emitted@),
            !old(self).recursive ==> old(self).emitted@.len() == 0 && old(self).stack@.len() == 0
                && old(self).resolved@.len() == 1 && outcome_path(old(self).resolved@[0])
                == old(self).root@ && item@ == (ItemView {
                inner: old(self).resolved@[0],
                skip_reason: None,
                visited: true,
            }),
        ensures
            final(self).wf(),
            final(self).same_setup(old(self)),
            r is Outcome ==> final(self).outcomes@ == old(self).outcomes@.push(
                outcome_view(r->Outcome_0),
            ) && final(self).emitted@ == old(self).emitted@.push(stack_position(final(self)@.stack)),
            !(r is Outcome) ==> final(self).outcomes@ == old(self).outcomes@
                && final(self).emitted@ == old(self).emitted@,
            r is Finished <==> final(self).is_finished(),
            forall|reply: Reply| #[trigger] final(self).accepts_spec(&reply) == replies_to(&r, &reply),
            (final(self)@, request_view(r)) == visit_spec(old(self)@, item@),
    {
        let is_dir = match item.outcome() {
            Ok(e) => e.is_dir(),
            Err(_) => false,
        };
        if is_dir {
            let path = item.path();
            self.phase = Phase::Empty { item };
            return Request::Emptiness(path);
        }
        self.continue_stages(item, 0, true)
    }
}

impl Walker {
    fn start(transformers: Vec<Transformer>, recursive: bool, path: &str) -> (r: (Walker, Request))
        ensures
            r.0.wf(),
            r.0.stages() == transformers@,
            r.0.is_recursive() == recursive,
            r.0.root() == path@,
            r.0.emitted() == Seq::<Seq<nat>>::empty(),
            r.0.outcomes() == Seq::<Result<EntryView, ErrorView>>::empty(),
            r.0.resolved() == Seq::<Result<EntryView, ErrorView>>::empty(),
            r.1 is Metadata && r.1->Metadata_0@ == path@,
            forall|reply: Reply| #[trigger] r.0.accepts_spec(&reply) == replies_to(&r.1, &reply),
            r.0@ == (WalkerView { stages: transformers@, recursive: recursive, stack: Seq::empty(), phase: PhaseView::Resolve(path@), note: None }),
    {
        let w = Walker {
            transformers,
            recursive,
            phase: Phase::Resolve { path: path.to_owned() },
            stack: Vec::new(),
            current: Ghost(Seq::empty()),
            emitted: Ghost(Seq::empty()),
            outcomes: Ghost(Seq::empty()),
            resolved: Ghost(Seq::empty()),
            root: Ghost(path@),
            skip_note: None,
        };
        proof {
            assert(w.stack@.map_values(|f: Frame| f@) =~= Seq::<FrameView>::empty());
            assert(w.ids() =~= Seq::<Seq<nat>>::empty());
            assert(w.nexts() =~= Seq::<nat>::empty());
        }
        (w, Request::Metadata(path.to_owned()))
    }

    /// Takes the note on the last item that a stage skipped since the note was last taken.
    pub fn take_skip_note(&mut self) -> (r: Option<String>)
        requires
            old(self).wf(),
        ensures
            final(self).wf(),
            final(self).stages() == old(self).stages(),
            final(self).is_recursive() == old(self).is_recursive(),
            final(self).root() == old(self).root(),
            final(self).emitted() == old(self).emitted(),
            final(self).outcomes() == old(self).outcomes(),
            final(self).resolved() == old(self).resolved(),
            final(self).is_finished() == old(self).is_finished(),
            forall|reply: Reply| #[trigger] final(self).accepts_spec(&reply) == old(self).accepts_spec(&reply),
            opt_view(r) == old(self)@.note,
            final(self)@ == (WalkerView { note: None, ..old(self)@ }),
    {
        let mut note = None;
        core::mem::swap(&mut self.skip_note, &mut note);
        note
    }

    /// Whether `reply` is the kind of reply the walker waits for.
    pub fn accepts(&self, reply: &Reply) -> (r: bool)
        ensures
            r == self.accepts_spec(reply),
    {
        match self.phase {
            Phase::Resolve { .. } => matches!(reply, Reply::Metadata(_)),
            Phase::Empty { .. } => matches!(reply, Reply::Emptiness(_)),
            Phase::Ask { .. } => matches!(reply, Reply::Answer(_)),
            Phase::List { .. } => matches!(reply, Reply::Listing(_)),
            Phase::Emitted => matches!(reply, Reply::Next),
            Phase::Finished => true,
        }
    }

    /// Takes the reply to the previous request and returns the next request. Once the walk is
    /// over, every reply is answered with [`Request::Finished`].
    pub fn step(&mut self, reply: Reply) -> (r: Request)
        requires
            old(self).wf(),
            old(self).accepts_spec(&reply),
        ensures
            final(self).wf(),
            final(self).stages() == old(self).stages(),
            final(self).is_recursive() == old(self).is_recursive(),
            final(self).root() == old(self).root(),
            r is Outcome ==> final(self).outcomes() == old(self).outcomes().push(
                outcome_view(r->Outcome_0),
            ) && final(self).emitted() == old(self).emitted().push(stack_position(final(self)@.stack)),
            !(r is Outcome) ==> final(self).outcomes() == old(self).outcomes()
                && final(self).emitted() == old(self).emitted(),
            r is Finished <==> final(self).is_finished(),
            old(self).is_finished() ==> r is Finished,
            forall|reply: Reply| #[trigger] final(self).accepts_spec(&reply) == replies_to(&r, &reply),
            (final(self)@, request_view(r)) == step_spec(old(self)@, reply_view(reply)),
            final(self).resolved() == match (old(self)@.phase, reply) {
                (PhaseView::Resolve(p), Reply::Metadata(found)) => old(self).resolved().push(
                    resolve_spec(p, found),
                ),
                _ => old(self).resolved(),
            },
    {
        let ghost w0 = self@;
        let mut phase = Phase::Finished;
        core::mem::swap(&mut self.phase, &mut phase);
        proof {
            assert(self@ == with_phase(w0, PhaseView::Finished));
        }
        match phase {
            Phase::Resolve { path } => {
                match reply {
                    Reply::Metadata(found) => {
                        let mut item = Item::new(open(path.as_str(), found));
                        if !self.recursive {
                            item = item.into_visited();
                        }
                        self.resolved = Ghost(self.resolved@.push(item@.inner));
                        assert(item@ == (ItemView { inner: resolve_spec(path@, found), skip_reason: None, visited: !self.recursive }));
                        proof {
                            lemma_phase_free(w0, PhaseView::Finished, item@, 0, true);
                        }
                        proof {
                            lemma_fresh_unemitted(self.current@, self.emitted@);
                        }
                        self.visit(item)
                    },
                    _ => {
                        proof {
                            assert(false);
                        }
                        Request::Finished
                    },
                }
            },
            Phase::Empty { item } => {
                match reply {
                    Reply::Emptiness(empty) => {
                        proof {
                            lemma_phase_free(w0, PhaseView::Finished, item@, 0, empty);
                        }
                        self.continue_stages(item, 0, empty)
                    },
                    _ => {
                        proof {
                            assert(false);
                        }
                        Request::Finished
                    },
                }
            },
            Phase::Ask { item, stage, empty } => {
                match reply {
                    Reply::Answer(line) => {
                        let response = match line {
                            Ok(l) => Ok(answer_from_line(l.as_str())),
                            Err(()) => Err(()),
                        };
                        let item = interact_transform(response, item);
                        let count = self.transformers.len();
                        assert(stage < count);
                        proof {
                            lemma_phase_free(w0, PhaseView::Finished, item@, (stage + 1) as int, empty);
                        }
                        self.continue_stages(item, stage + 1, empty)
                    },
                    _ => {
                        proof {
                            assert(false);
                        }
                        Request::Finished
                    },
                }
            },
            Phase::List { dir } => {
                match reply {
                    Reply::Listing(Ok(children)) => {
                        let ghost em = self.emitted@;
                        let ghost ids = self.ids();
                        let ghost nexts = self.nexts();
                        let ghost st = self.stack@;
                        proof {
                            lemma_push(em, ids, nexts, self.current@);
                            lemma_push_closed(em, ids, self.current@);
                        }
                        let ghost dir_view = dir@;
                        let ghost children_copy = children;
                        let frame = Frame { dir, children, next: 0, id: Ghost(self.current@) };
                        self.stack.push(frame);
                        proof {
                            let w1 = WalkerView { stack: w0.stack.push(FrameView { dir: dir_view, children: paths_view(children_copy), next: 0 }), ..w0 };
                            assert(self@.stack =~= w1.stack);
                            lemma_phase_free(w1, PhaseView::Finished, arbitrary(), 0, true);
                            assert(self.ids() =~= ids.push(self.current@));
                            assert(self.nexts() =~= nexts.push(0));
                            assert forall|i: int| 0 <= i < self.stack@.len() implies (#[trigger] self.stack@[i]).next
                                <= self.stack@[i].children@.len() && self.stack@[i].dir@.kind == EntryKind::Dir by {
                                if i < st.len() {
                                    assert(self.stack@[i] == st[i]);
                                }
                            }
                        }
                        self.next_node()
                    },
                    Reply::Listing(Err(kind)) => {
                        proof {
                            lemma_fresh_unemitted(self.current@, self.emitted@);
                        }
                        self.emit(Err(dir.into_err(kind)))
                    },
                    _ => {
                        proof {
                            assert(false);
                        }
                        Request::Finished
                    },
                }
            },
            Phase::Emitted => {
                proof {
                    lemma_phase_free(w0, PhaseView::Finished, arbitrary(), 0, true);
                }
                self.next_node()
            },
            Phase::Finished => Request::Finished,
        }
    }
}

/// The walk hands out every object after everything below it: no outcome ever follows the
/// outcome of a directory above it. Each outcome comes with its object's position, the index
/// in each enclosing listing of the child that leads to it ([`Walker::step`] appends
/// [`stack_position`] for every outcome); one position is below another where the other is a
/// shorter prefix of it.
pub proof fn walk_is_post_order(w: &Walker)
    requires
        w.wf(),
    ensures
        post_ordered(w.emitted()),
        w.emitted().len() == w.outcomes().len(),
{
}

/// A walker of a single path hands out at most one outcome, whatever its stages.
pub proof fn given_yields_at_most_one(w: &Walker)
    requires
        w.wf(),
        !w.is_recursive(),
    ensures
        w.outcomes().len() <= 1,
{
}

/// A walker of a single path whose stages are all the identity hands out exactly one outcome,
/// the one the metadata probe resolved for that path (marked visited, which does not show in
/// the outcome).
pub proof fn given_yields_resolved(w: &Walker)
    requires
        w.wf(),
        !w.is_recursive(),
        all_identity(w.stages()),
        w.is_finished(),
    ensures
        w.outcomes().len() == 1,
        w.outcomes() == w.resolved(),
        outcome_path(w.outcomes()[0]) == w.root(),
{
}

/// What a directory being walked stands for: the directory, its children's paths, and how
/// many of them were started.
pub ghost struct FrameView {
    pub dir: EntryView,
    pub children: Seq<Seq<char>>,
    pub next: nat,
}

/// What a walker waits for.
pub ghost enum PhaseView {
    /// The metadata of this path.
    Resolve(Seq<char>),
    /// Whether this item's directory is empty.
    Empty(ItemView),
    /// The user's answer about this item, for the stage at this index, with what was found of
    /// the directory's emptiness.
    Ask(ItemView, nat, bool),
    /// The listing of this directory.
    List(EntryView),
    /// The go-ahead after an outcome was handed out.
    Emitted,
    /// Nothing.
    Finished,
}

/// What a [`Walker`] stands for.
pub ghost struct WalkerView {
    pub stages: Seq<Transformer>,
    pub recursive: bool,
    pub stack: Seq<FrameView>,
    pub phase: PhaseView,
    /// The note on the last item a stage skipped, until it is taken.
    pub note: Option<Seq<char>>,
}

/// What a [`Request`] stands for.
pub ghost enum RequestView {
    Metadata(Seq<char>),
    Emptiness(Seq<char>),
    Answer(Seq<char>),
    Listing(Seq<char>),
    Outcome(Result<EntryView, ErrorView>),
    Finished,
}

/// What a [`Reply`] stands for.
pub ghost enum ReplyView {
    Metadata(Result<EntryKind, ErrorKind>),
    Emptiness(bool),
    Answer(Option<Seq<char>>),
    Listing(Result<Seq<Seq<char>>, ErrorKind>),
    Next,
}

/// The view of a request.
pub open spec fn request_view(r: Request) -> RequestView {
    match r {
        Request::Metadata(p) => RequestView::Metadata(p@),
        Request::Emptiness(p) => RequestView::Emptiness(p@),
        Request::Answer(q) => RequestView::Answer(q@),
        Request::Listing(p) => RequestView::Listing(p@),
        Request::Outcome(o) => RequestView::Outcome(outcome_view(o)),
        Request::Finished => RequestView::Finished,
    }
}

/// The view of a list of paths.
pub open spec fn paths_view(v: Vec<String>) -> Seq<Seq<char>> {
    v@.map_values(|s: String| s@)
}

/// The view of a reply.
pub open spec fn reply_view(r: Reply) -> ReplyView {
    match r {
        Reply::Metadata(f) => ReplyView::Metadata(f),
        Reply::Emptiness(e) => ReplyView::Emptiness(e),
        Reply::Answer(Ok(line)) => ReplyView::Answer(Some(line@)),
        Reply::Answer(Err(())) => ReplyView::Answer(None),
        Reply::Listing(Ok(children)) => ReplyView::Listing(Ok(paths_view(children))),
        Reply::Listing(Err(k)) => ReplyView::Listing(Err(k)),
        Reply::Next => ReplyView::Next,
    }
}

/// What resolving a path gives, from what its metadata probe found.
pub open spec fn resolve_spec(path: Seq<char>, found: Result<EntryKind, ErrorKind>) -> Result<
    EntryView,
    ErrorView,
> {
    match found {
        Ok(kind) => Ok(EntryView { kind, path }),
        Err(kind) => Err(ErrorView { kind, path, tip: None }),
    }
}

/// The walker in the given phase.
pub open spec fn with_phase(w: WalkerView, phase: PhaseView) -> WalkerView {
    WalkerView { phase, ..w }
}

/// Moving on to the next object: the next child of the innermost directory, else that
/// directory's final visit (which first asks whether it is empty), else the end.
pub open spec fn next_node_spec(w: WalkerView) -> (WalkerView, RequestView) {
    if w.stack.len() == 0 {
        (with_phase(w, PhaseView::Finished), RequestView::Finished)
    } else {
        let top = w.stack.last();
        if top.next < top.children.len() {
            let child = top.children[top.next as int];
            (
                WalkerView {
                    stack: w.stack.update(w.stack.len() - 1, FrameView { next: top.next + 1, ..top }),
                    phase: PhaseView::Resolve(child),
                    ..w
                },
                RequestView::Metadata(child),
            )
        } else {
            let item = ItemView { inner: Ok(top.dir), skip_reason: None, visited: true };
            (
                WalkerView { stack: w.stack.drop_last(), phase: PhaseView::Empty(item), ..w },
                RequestView::Emptiness(top.dir.path),
            )
        }
    }
}

/// The end of a visit, once the item went through every stage: a skipped item is dropped, an
/// admitted directory that is not empty is listed on its first visit in recursive mode, and
/// anything else is handed out.
pub open spec fn finish_spec(w: WalkerView, item: ItemView, empty: bool) -> (WalkerView, RequestView) {
    if item.skip_reason is Some {
        next_node_spec(WalkerView { note: Some(skip_note_text(item)), ..w })
    } else if w.recursive && !item.visited && item.inner is Ok && item.inner->Ok_0.kind
        == EntryKind::Dir && !empty {
        (with_phase(w, PhaseView::List(item.inner->Ok_0)), RequestView::Listing(
            item.inner->Ok_0.path,
        ))
    } else {
        (with_phase(w, PhaseView::Emitted), RequestView::Outcome(item.inner))
    }
}

/// Running an item through the stages from index `from` on: up to a stage that must ask the
/// user, which is then asked, or to the end of the visit.
pub open spec fn stages_spec(w: WalkerView, item: ItemView, from: int, empty: bool) -> (
    WalkerView,
    RequestView,
) {
    let (it, stop) = run_spec(w.stages, item, from, empty);
    if stop < w.stages.len() {
        (
            with_phase(w, PhaseView::Ask(it, stop as nat, empty)),
            RequestView::Answer(prompt_text(it.inner->Ok_0, it.visited, empty)),
        )
    } else {
        finish_spec(w, it, empty)
    }
}

/// The start of a visit: a directory first asks whether it is empty.
pub open spec fn visit_spec(w: WalkerView, item: ItemView) -> (WalkerView, RequestView) {
    if item.inner is Ok && item.inner->Ok_0.kind == EntryKind::Dir {
        (with_phase(w, PhaseView::Empty(item)), RequestView::Emptiness(item.inner->Ok_0.path))
    } else {
        stages_spec(w, item, 0, true)
    }
}

/// What a walker does with a reply: its next state and request. A reply that the walker does
/// not wait for leaves it as it is, and asks for nothing.
pub open spec fn step_spec(w: WalkerView, reply: ReplyView) -> (WalkerView, RequestView) {
    match w.phase {
        PhaseView::Resolve(path) => match reply {
            ReplyView::Metadata(found) => visit_spec(
                w,
                ItemView { inner: resolve_spec(path, found), skip_reason: None, visited: !w.recursive },
            ),
            _ => (w, RequestView::Finished),
        },
        PhaseView::Empty(item) => match reply {
            ReplyView::Emptiness(empty) => stages_spec(w, item, 0, empty),
            _ => (w, RequestView::Finished),
        },
        PhaseView::Ask(item, stage, empty) => match reply {
            ReplyView::Answer(line) => stages_spec(
                w,
                interact_spec(
                    match line {
                        Some(l) => Some(trim_of(l)),
                        None => None,
                    },
                    item,
                ),
                (stage + 1) as int,
                empty,
            ),
            _ => (w, RequestView::Finished),
        },
        PhaseView::List(dir) => match reply {
            ReplyView::Listing(Ok(children)) => next_node_spec(
                WalkerView { stack: w.stack.push(FrameView { dir, children, next: 0 }), ..w },
            ),
            ReplyView::Listing(Err(kind)) => (
                with_phase(w, PhaseView::Emitted),
                RequestView::Outcome(Err(ErrorView { kind, path: dir.path, tip: None })),
            ),
            _ => (w, RequestView::Finished),
        },
        PhaseView::Emitted => next_node_spec(w),
        PhaseView::Finished => (w, RequestView::Finished),
    }
}

proof fn lemma_phase_free(w: WalkerView, p: PhaseView, item: ItemView, from: int, empty: bool)
    ensures
        next_node_spec(with_phase(w, p)) == next_node_spec(w),
        finish_spec(with_phase(w, p), item, empty) == finish_spec(w, item, empty),
        stages_spec(with_phase(w, p), item, from, empty) == stages_spec(w, item, from, empty),
        visit_spec(with_phase(w, p), item) == visit_spec(w, item),
{
    let w2 = with_phase(w, p);
    assert forall|q: PhaseView| with_phase(w2, q) == with_phase(w, q) by {}
    if w.stack.len() > 0 {
        let top = w.stack.last();
        assert(WalkerView { stack: w.stack.update(w.stack.len() - 1, FrameView { next: top.next + 1, ..top }), phase: PhaseView::Finished, ..w2 }
            == WalkerView { stack: w.stack.update(w.stack.len() - 1, FrameView { next: top.next + 1, ..top }), phase: PhaseView::Finished, ..w });
    }
}

impl View for Frame {
    type V = FrameView;

    closed spec fn view(&self) -> FrameView {
        FrameView { dir: self.dir@, children: paths_view(self.children), next: self.next as nat }
    }
}

impl View for Walker {
    type V = WalkerView;

    closed spec fn view(&self) -> WalkerView {
        WalkerView {
            stages: self.transformers@,
            recursive: self.recursive,
            stack: self.stack@.map_values(|f: Frame| f@),
            phase: match self.phase {
                Phase::Resolve { path } => PhaseView::Resolve(path@),
                Phase::Empty { item } => PhaseView::Empty(item@),
                Phase::Ask { item, stage, empty } => PhaseView::Ask(item@, stage as nat, empty),
                Phase::List { dir } => PhaseView::List(dir@),
                Phase::Emitted => PhaseView::Emitted,
                Phase::Finished => PhaseView::Finished,
            },
            note: opt_view(self.skip_note),
        }
    }
}

/// A walker that visits only the object at `path`: it resolves the path once, marks the
/// item visited, runs it through the stages and hands out the result, unless a stage
/// skipped it. The first request is returned with the walker.
pub fn given(transformers: Vec<Transformer>, path: &str) -> (r: (Walker, Request))
    ensures
        r.0.wf(),
        r.0.stages() == transformers@,
        !r.0.is_recursive(),
        r.0.root() == path@,
        r.0.emitted() == Seq::<Seq<nat>>::empty(),
        r.0.outcomes() == Seq::<Result<EntryView, ErrorView>>::empty(),
        r.1 is Metadata && r.1->Metadata_0@ == path@,
        forall|reply: Reply| #[trigger] r.0.accepts_spec(&reply) == replies_to(&r.1, &reply),
        r.0@ == (WalkerView { stages: transformers@, recursive: false, stack: Seq::empty(), phase: PhaseView::Resolve(path@), note: None }),
{
    Walker::start(transformers, false, path)
}

/// A walker that visits the object at `path` and, for a directory that the stages admit
/// and that is not empty, everything below it, in post-order. The first request is
/// returned with the walker.
pub fn recurse(transformers: Vec<Transformer>, path: &str) -> (r: (Walker, Request))
    ensures
        r.0.wf(),
        r.0.stages() == transformers@,
        r.0.is_recursive(),
        r.0.root() == path@,
        r.0.emitted() == Seq::<Seq<nat>>::empty(),
        r.0.outcomes() == Seq::<Result<EntryView, ErrorView>>::empty(),
        r.1 is Metadata && r.1->Metadata_0@ == path@,
        forall|reply: Reply| #[trigger] r.0.accepts_spec(&reply) == replies_to(&r.1, &reply),
        r.0@ == (WalkerView { stages: transformers@, recursive: true, stack: Seq::empty(), phase: PhaseView::Resolve(path@), note: None }),
{
    Walker::start(transformers, true, path)
}

/// A walker of a single path, whatever its stages: it resolves the path once, marks the item
/// visited, runs it once through every stage in order (a directory first tells whether it is
/// empty), never descends, and then hands out the item's outcome, unless a stage skipped it or
/// a stage must ask the user first. After the outcome, the walk is over.
pub proof fn given_visits_once(
    ts: Seq<Transformer>,
    path: Seq<char>,
    found: Result<EntryKind, ErrorKind>,
    empty: bool,
)
    ensures
        ({
            let w = WalkerView {
                stages: ts,
                recursive: false,
                stack: Seq::empty(),
                phase: PhaseView::Resolve(path),
                note: None,
            };
            let item = ItemView { inner: resolve_spec(path, found), skip_reason: None, visited: true };
            let is_dir = found == Ok::<EntryKind, ErrorKind>(EntryKind::Dir);
            let e = if is_dir { empty } else { true };
            let (first, r0) = step_spec(w, ReplyView::Metadata(found));
            let (after, r1) = if is_dir { step_spec(first, ReplyView::Emptiness(empty)) } else { (first, r0) };
            let (it, stop) = run_spec(ts, item, 0, e);
            &&& is_dir ==> r0 == RequestView::Emptiness(path)
            &&& stop < ts.len() ==> r1 is Answer
            &&& stop >= ts.len() && it.skip_reason is Some ==> r1 == RequestView::Finished
            &&& stop >= ts.len() && it.skip_reason is None ==> r1 == RequestView::Outcome(it.inner)
                && step_spec(after, ReplyView::Next).1 == RequestView::Finished
        }),
{
    let item = ItemView { inner: resolve_spec(path, found), skip_reason: None, visited: true };
    let is_dir = found == Ok::<EntryKind, ErrorKind>(EntryKind::Dir);
    let e = if is_dir { empty } else { true };
    lemma_run_spec(ts, item, 0, e);
}

/// The walk hands out each object's outcome at most once, and the outcome of the starting
/// path (the empty position), once handed out, is the last one.
pub proof fn walk_ends_with_its_root(w: &Walker)
    requires
        w.wf(),
    ensures
        no_repeats(w.emitted()),
        forall|i: int| 0 <= i < w.emitted().len() && w.emitted()[i] == Seq::<nat>::empty() ==> i
            == w.emitted().len() - 1,
{
    let em = w.emitted();
    assert forall|i: int| 0 <= i < em.len() && em[i] == Seq::<nat>::empty() implies i == em.len() - 1 by {
        if i < em.len() - 1 {
            let j = em.len() - 1;
            assert(!is_below(em[j], em[i]));
            assert(em[j].subrange(0, 0) =~= Seq::<nat>::empty());
            assert(em[j] =~= Seq::<nat>::empty());
        }
    }
}

/// The outcomes below a directory form one block that ends with the directory's own outcome:
/// between any outcome below it and its own, every outcome is below it too.
pub proof fn walk_keeps_subtrees_together(w: &Walker)
    requires
        w.wf(),
    ensures
        contiguous(w.emitted()),
{
}

} // verus!
