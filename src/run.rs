//! A run of the command over all its paths: each path is walked, each outcome goes to the
//! remover, each result is reported and counted, and a summary closes the run.
use vstd::prelude::*;
use vstd::string::StringExecFns;
use crate::cli::{
    check_conflicts, conflict_of, is_dry_run, remover_for, transformers_for, walks_recursively, Args,
    UsageError,
};
use crate::fs::{Entry, EntryKind, EntryView, Error, ErrorKind, ErrorView};
use crate::lang::{decimal, pluralized, pluralize, push_decimal};
use crate::rm::{
    disposed, moved_message, removal_for, removed, removed_message, result_view, show_dispose,
    show_remove, trash_failure_kind, would_move_message, would_remove_message, Removal, Remover,
    TrashFailure,
};
use crate::transform::Transformer;
use crate::walk::{
    phase_accepts, reply_view, request_view, step_spec, PhaseView, Reply, ReplyView, Request,
    RequestView, Walker, WalkerView,
};

verus! {

/// What a run needs done next.
#[derive(Debug)]
pub enum Action {
    /// Do what the walker asks and reply with [`Event::Walk`]; the request is never an outcome
    /// nor the end of a walk.
    Walk(Request),
    /// Perform the operation and reply with [`Event::Removed`], or with [`Event::Disposed`]
    /// for a move to the trash.
    Perform(Removal),
    /// Report the result (a success message or an error) and reply with [`Event::Reported`].
    Report(Result<String, Error>),
    /// Every path is done: report the summary and exit with the code.
    Done(String, u8),
}

/// What came of an [`Action`].
#[derive(Debug)]
pub enum Event {
    /// The reply to the walker's request.
    Walk(Reply),
    /// What removing returned.
    Removed(Result<(), ErrorKind>),
    /// What moving to the trash returned.
    Disposed(Result<(), TrashFailure>),
    /// The result was reported.
    Reported,
}

enum Await {
    Walker,
    Removal(Entry),
    Disposal(Entry),
    Report,
    Done,
}

/// How many results in a sequence of reported results are successes.
pub open spec fn count_ok(s: Seq<Result<Seq<char>, ErrorView>>) -> nat
    decreases s.len(),
{
    if s.len() == 0 {
        0
    } else {
        count_ok(s.drop_last()) + if s.last() is Ok { 1nat } else { 0nat }
    }
}

/// How many results in a sequence of reported results are errors.
pub open spec fn count_err(s: Seq<Result<Seq<char>, ErrorView>>) -> nat
    decreases s.len(),
{
    if s.len() == 0 {
        0
    } else {
        count_err(s.drop_last()) + if s.last() is Err { 1nat } else { 0nat }
    }
}

/// A count as kept in a `usize`: it stops growing at the largest value.
pub open spec fn capped(n: nat) -> nat {
    if n > usize::MAX { usize::MAX as nat } else { n }
}

/// The summary of a run: `{removed} removed, {errors} occurred`, or `would be removed` with a
/// hint to use `--force` in a dry run that found something; a blank line comes first where
/// anything was reported or verbose output was asked for.
pub open spec fn summary_text(removed: nat, errored: nat, dry_run: bool, verbose: bool) -> Seq<char> {
    (if removed > 0 || errored > 0 || verbose { "\n"@ } else { ""@ }) + decimal(removed) + " "@
        + (if dry_run { "would be removed"@ } else { "removed"@ }) + (if dry_run && removed > 0 {
        " (use '--force' to remove)"@
    } else {
        ""@
    }) + ", "@ + pluralized("error"@, errored) + " occurred"@
}

/// The exit code of a run: failure where any error occurred.
pub open spec fn exit_code_for(errored: nat) -> u8 {
    if errored > 0 { 1 } else { 0 }
}

/// Whether an operation is the one that removes the entry: a directory is removed as a
/// directory, anything else is unlinked.
pub open spec fn removes(op: Removal, e: EntryView) -> bool {
    match op {
        Removal::RemoveDir(p) => e.kind == EntryKind::Dir && p@ == e.path,
        Removal::RemoveFile(p) => e.kind != EntryKind::Dir && p@ == e.path,
        Removal::Dispose(_) => false,
    }
}

/// Whether `action` is what a run does with the walker's request `req`: an error is reported, an
/// entry goes to the remover (a dry run reports what would be done, else the operation is asked
/// for), and any other request but the end of the walk is passed on.
pub open spec fn routes(remover: Remover, req: RequestView, action: Action) -> bool {
    match req {
        RequestView::Outcome(Err(e)) => action is Report && result_view(action->Report_0) == Err::<
            Seq<char>,
            ErrorView,
        >(e),
        RequestView::Outcome(Ok(e)) => match remover {
            Remover::ShowRemove => action is Report && result_view(action->Report_0) == Ok::<
                Seq<char>,
                ErrorView,
            >(would_remove_message(e)),
            Remover::ShowDispose => action is Report && result_view(action->Report_0) == Ok::<
                Seq<char>,
                ErrorView,
            >(would_move_message(e)),
            Remover::Remove => action is Perform && removes(action->Perform_0, e),
            Remover::Dispose => action is Perform && action->Perform_0 is Dispose
                && action->Perform_0->Dispose_0@ == e.path,
        },
        RequestView::Finished => true,
        _ => action is Walk && request_view(action->Walk_0) == req,
    }
}

/// Whether `action` starts the walk of the first of the paths left, or ends the run where
/// none is left.
pub open spec fn moves_on(left: Seq<Seq<char>>, action: Action) -> bool {
    if left.len() > 0 {
        action is Walk && action->Walk_0 is Metadata && action->Walk_0->Metadata_0@ == left[0]
    } else {
        action is Done
    }
}

/// What an [`Await`] stands for: what the run waits for.
pub ghost enum AwaitView {
    /// The reply to the walker's request.
    Walker,
    /// What removing this entry returned.
    Removal(EntryView),
    /// What moving this entry to the trash returned.
    Disposal(EntryView),
    /// The go-ahead after a result was reported.
    Report,
    /// Nothing: the run is over.
    Done,
}

/// What a [`Run`] stands for.
pub ghost struct RunView {
    pub stages: Seq<Transformer>,
    pub recursive: bool,
    pub remover: Remover,
    pub dry_run: bool,
    pub verbose: bool,
    /// The walker of the current path.
    pub walker: WalkerView,
    pub awaiting: AwaitView,
    /// The paths not yet walked.
    pub left: Seq<Seq<char>>,
    /// The results reported so far.
    pub reports: Seq<Result<Seq<char>, ErrorView>>,
    /// The notes on skipped items not yet taken.
    pub notes: Seq<Seq<char>>,
}

/// What a [`Removal`] stands for.
pub ghost enum RemovalView {
    RemoveDir(Seq<char>),
    RemoveFile(Seq<char>),
    Dispose(Seq<char>),
}

/// What an [`Action`] stands for.
pub ghost enum ActionView {
    Walk(RequestView),
    Perform(RemovalView),
    Report(Result<Seq<char>, ErrorView>),
    Done(Seq<char>, u8),
}

/// What an [`Event`] stands for.
pub ghost enum EventView {
    Walk(ReplyView),
    Removed(Result<(), ErrorKind>),
    Disposed(Result<(), TrashFailure>),
    Reported,
}

/// The view of an operation.
pub open spec fn removal_view(r: Removal) -> RemovalView {
    match r {
        Removal::RemoveDir(p) => RemovalView::RemoveDir(p@),
        Removal::RemoveFile(p) => RemovalView::RemoveFile(p@),
        Removal::Dispose(p) => RemovalView::Dispose(p@),
    }
}

/// The view of an action.
pub open spec fn action_view(a: Action) -> ActionView {
    match a {
        Action::Walk(r) => ActionView::Walk(request_view(r)),
        Action::Perform(op) => ActionView::Perform(removal_view(op)),
        Action::Report(res) => ActionView::Report(result_view(res)),
        Action::Done(m, c) => ActionView::Done(m@, c),
    }
}

/// The view of an event.
pub open spec fn event_view(e: Event) -> EventView {
    match e {
        Event::Walk(reply) => EventView::Walk(reply_view(reply)),
        Event::Removed(res) => EventView::Removed(res),
        Event::Disposed(res) => EventView::Disposed(res),
        Event::Reported => EventView::Reported,
    }
}

/// Whether a run waits for an event of this kind.
pub open spec fn run_accepts(v: RunView, event: &Event) -> bool {
    match v.awaiting {
        AwaitView::Walker => match event {
            Event::Walk(reply) => phase_accepts(v.walker.phase, reply),
            _ => false,
        },
        AwaitView::Removal(_) => event is Removed,
        AwaitView::Disposal(_) => event is Disposed,
        AwaitView::Report => event is Reported,
        AwaitView::Done => true,
    }
}

/// The operation that removes an entry: a directory is removed as a directory, anything else
/// is unlinked.
pub open spec fn removal_spec(e: EntryView) -> RemovalView {
    if e.kind == EntryKind::Dir {
        RemovalView::RemoveDir(e.path)
    } else {
        RemovalView::RemoveFile(e.path)
    }
}

/// Reporting a result: it is counted, and the run waits for the go-ahead.
pub open spec fn report_spec(v: RunView, res: Result<Seq<char>, ErrorView>) -> (RunView, ActionView) {
    (RunView { awaiting: AwaitView::Report, reports: v.reports.push(res), ..v }, ActionView::Report(res))
}

/// The end of a run: the summary and the exit code, from the results reported.
pub open spec fn finish_run_spec(v: RunView) -> (RunView, ActionView) {
    (
        RunView { awaiting: AwaitView::Done, ..v },
        ActionView::Done(
            summary_text(capped(count_ok(v.reports)), capped(count_err(v.reports)), v.dry_run, v.verbose),
            exit_code_for(capped(count_err(v.reports))),
        ),
    )
}

/// Moving on to the next path: a fresh walker starts on the first path left, or the run ends.
pub open spec fn begin_spec(v: RunView) -> (RunView, ActionView) {
    if v.left.len() > 0 {
        (
            RunView {
                walker: WalkerView {
                    stages: v.stages,
                    recursive: v.recursive,
                    stack: Seq::empty(),
                    phase: PhaseView::Resolve(v.left[0]),
                    note: None,
                },
                awaiting: AwaitView::Walker,
                left: v.left.drop_first(),
                ..v
            },
            ActionView::Walk(RequestView::Metadata(v.left[0])),
        )
    } else {
        finish_run_spec(v)
    }
}

/// Taking the walker's state after a step, and its note on a skipped item, if any.
pub open spec fn absorb(v: RunView, w: WalkerView) -> RunView {
    RunView {
        walker: WalkerView { note: None, ..w },
        notes: match w.note {
            Some(n) => v.notes.push(n),
            None => v.notes,
        },
        ..v
    }
}

/// What a run does with the walker's request: an error is reported, an entry goes to the
/// remover (a dry run reports what would be done, else the operation is asked for), the end of
/// the walk moves on to the next path, and any other request is passed on.
pub open spec fn route_spec(v: RunView, req: RequestView) -> (RunView, ActionView) {
    match req {
        RequestView::Outcome(Err(e)) => report_spec(v, Err(e)),
        RequestView::Outcome(Ok(e)) => match v.remover {
            Remover::ShowRemove => report_spec(v, Ok(would_remove_message(e))),
            Remover::ShowDispose => report_spec(v, Ok(would_move_message(e))),
            Remover::Remove => (
                RunView { awaiting: AwaitView::Removal(e), ..v },
                ActionView::Perform(removal_spec(e)),
            ),
            Remover::Dispose => (
                RunView { awaiting: AwaitView::Disposal(e), ..v },
                ActionView::Perform(RemovalView::Dispose(e.path)),
            ),
        },
        RequestView::Finished => begin_spec(v),
        _ => (RunView { awaiting: AwaitView::Walker, ..v }, ActionView::Walk(req)),
    }
}

/// What a run does with an event: its next state and action. An event the run does not wait
/// for ends it.
pub open spec fn run_step_spec(v: RunView, e: EventView) -> (RunView, ActionView) {
    match (v.awaiting, e) {
        (AwaitView::Walker, EventView::Walk(reply)) => {
            let (w, req) = step_spec(v.walker, reply);
            route_spec(absorb(v, w), req)
        },
        (AwaitView::Removal(entry), EventView::Removed(res)) => report_spec(
            v,
            match res {
                Ok(()) => Ok(removed_message(entry)),
                Err(kind) => Err(ErrorView { kind, path: entry.path, tip: None }),
            },
        ),
        (AwaitView::Disposal(entry), EventView::Disposed(res)) => report_spec(
            v,
            match res {
                Ok(()) => Ok(moved_message(entry)),
                Err(f) => Err(ErrorView { kind: trash_failure_kind(f), path: entry.path, tip: None }),
            },
        ),
        (AwaitView::Report, EventView::Reported) => {
            let (w, req) = step_spec(v.walker, ReplyView::Next);
            route_spec(absorb(v, w), req)
        },
        _ => finish_run_spec(v),
    }
}

proof fn lemma_await_free(v: RunView, a: AwaitView, req: RequestView)
    ensures
        route_spec(RunView { awaiting: a, ..v }, req) == route_spec(v, req),
{
    let v2 = RunView { awaiting: a, ..v };
    assert forall|b: AwaitView| RunView { awaiting: b, ..v2 } == RunView { awaiting: b, ..v } by {}
    assert(RunView { reports: v2.reports.push(Err(arbitrary())), awaiting: AwaitView::Report, ..v2 }
        == RunView { reports: v.reports.push(Err(arbitrary())), awaiting: AwaitView::Report, ..v });
}

/// The state of a run before its first path: the policies, walker mode and remover that the
/// flags select, all paths left, nothing reported.
pub open spec fn initial_run(a: &Args) -> RunView {
    RunView {
        stages: crate::cli::transformers_spec(a),
        recursive: a.recursive && !a.trash,
        remover: crate::cli::remover_spec(a),
        dry_run: crate::cli::dry_run_spec(a),
        verbose: a.verbose,
        walker: WalkerView {
            stages: crate::cli::transformers_spec(a),
            recursive: a.recursive && !a.trash,
            stack: Seq::empty(),
            phase: PhaseView::Finished,
            note: None,
        },
        awaiting: AwaitView::Done,
        left: a.paths@.map_values(|p: String| p@),
        reports: Seq::empty(),
        notes: Seq::empty(),
    }
}

/// A run of the command over its paths, driven by its caller: each call of [`Run::step`]
/// takes what came of the previous action and returns the next action.
pub struct Run {
    transformers: Vec<Transformer>,
    recursive: bool,
    remover: Remover,
    dry_run: bool,
    verbose: bool,
    paths: Vec<String>,
    next_path: usize,
    walker: Option<Walker>,
    awaiting: Await,
    removed: usize,
    errored: usize,
    reports: Ghost<Seq<Result<Seq<char>, ErrorView>>>,
    notes: Vec<String>,
}

impl View for Run {
    type V = RunView;

    closed spec fn view(&self) -> RunView {
        RunView {
            stages: self.transformers@,
            recursive: self.recursive,
            remover: self.remover,
            dry_run: self.dry_run,
            verbose: self.verbose,
            walker: match self.walker {
                Some(w) => w@,
                None => WalkerView {
                    stages: self.transformers@,
                    recursive: self.recursive,
                    stack: Seq::empty(),
                    phase: PhaseView::Finished,
                    note: None,
                },
            },
            awaiting: match self.awaiting {
                Await::Walker => AwaitView::Walker,
                Await::Removal(e) => AwaitView::Removal(e@),
                Await::Disposal(e) => AwaitView::Disposal(e@),
                Await::Report => AwaitView::Report,
                Await::Done => AwaitView::Done,
            },
            left: self.left(),
            reports: self.reports@,
            notes: self.notes@.map_values(|n: String| n@),
        }
    }
}

impl Run {
    /// The results reported so far, in order.
    pub closed spec fn reports(&self) -> Seq<Result<Seq<char>, ErrorView>> {
        self.reports@
    }

    /// The walker of the current path, if any.
    pub closed spec fn walker_view(&self) -> WalkerView {
        self.walker->Some_0@
    }

    /// The remover in use.
    pub closed spec fn remover(&self) -> Remover {
        self.remover
    }

    /// The paths not yet walked.
    pub closed spec fn left(&self) -> Seq<Seq<char>> {
        self.paths@.subrange(self.next_path as int, self.paths@.len() as int).map_values(|p: String| p@)
    }

    /// Whether the run waits for a result to be reported.
    pub closed spec fn awaits_report(&self) -> bool {
        self.awaiting is Report
    }

    /// Whether the run waits for the walker.
    pub closed spec fn awaits_walker(&self) -> bool {
        self.awaiting is Walker
    }

    /// The entry whose removal (or move to the trash) the run waits for, if any.
    pub closed spec fn awaited_entry(&self) -> Option<EntryView> {
        match self.awaiting {
            Await::Removal(e) => Some(e@),
            Await::Disposal(e) => Some(e@),
            _ => None,
        }
    }

    /// Whether the run is a dry run.
    pub closed spec fn dry(&self) -> bool {
        self.dry_run
    }

    /// Whether verbose output was asked for.
    pub closed spec fn verbose_output(&self) -> bool {
        self.verbose
    }

    /// Whether the run is over.
    pub closed spec fn is_done(&self) -> bool {
        self.awaiting is Done
    }

    /// The run's invariant.
    pub closed spec fn wf(&self) -> bool {
        &&& self.next_path <= self.paths@.len()
        &&& self.removed == capped(count_ok(self.reports@))
        &&& self.errored == capped(count_err(self.reports@))
        &&& (self.walker is Some ==> self.walker->Some_0.wf()
            && self.walker->Some_0.stages() == self.transformers@
            && self.walker->Some_0@.stages == self.transformers@
            && self.walker->Some_0@.recursive == self.recursive
            && self.walker->Some_0@.note is None)
        &&& match self.awaiting {
            Await::Walker => self.walker is Some,
            Await::Done => true,
            _ => self.walker is Some && self.walker->Some_0.accepts_spec(&Reply::Next),
        }
    }

    /// Which event the run waits for.
    pub open spec fn accepts_spec(&self, event: &Event) -> bool {
        run_accepts(self@, event)
    }

    /// Takes the notes on skipped items gathered since they were last taken, in order.
    pub fn take_notes(&mut self) -> (r: Vec<String>)
        requires
            old(self).wf(),
        ensures
            final(self).wf(),
            final(self).reports() == old(self).reports(),
            final(self).dry() == old(self).dry(),
            final(self).verbose_output() == old(self).verbose_output(),
            final(self).is_done() == old(self).is_done(),
            forall|e: Event| #[trigger] final(self).accepts_spec(&e) == old(self).accepts_spec(&e),
            r@.map_values(|n: String| n@) == old(self)@.notes,
            final(self)@ == (RunView { notes: Seq::empty(), ..old(self)@ }),
    {
        let mut notes = Vec::new();
        core::mem::swap(&mut self.notes, &mut notes);
        proof {
            assert(self@.notes =~= Seq::<Seq<char>>::empty());
        }
        notes
    }

    /// Whether `event` is the kind of event the run waits for.
    pub fn accepts(&self, event: &Event) -> (r: bool)
        requires
            self.wf(),
        ensures
            r == self.accepts_spec(event),
    {
        match &self.awaiting {
            Await::Walker => match event {
                Event::Walk(reply) => match &self.walker {
                    Some(w) => w.accepts(reply),
                    None => false,
                },
                _ => false,
            },
            Await::Removal(_) => matches!(event, Event::Removed(_)),
            Await::Disposal(_) => matches!(event, Event::Disposed(_)),
            Await::Report => matches!(event, Event::Reported),
            Await::Done => true,
        }
    }

    /// The summary and exit code of the run.
    fn finish(&mut self) -> (r: Action)
        requires
            old(self).wf(),
        ensures
            final(self).wf(),
            final(self).reports@ == old(self).reports@,
            final(self).dry_run == old(self).dry_run,
            final(self).verbose == old(self).verbose,
            final(self).is_done(),
            r is Done,
            r->Done_0@ == summary_text(capped(count_ok(old(self).reports@)), capped(count_err(
                old(self).reports@,
            )), old(self).dry_run, old(self).verbose),
            r->Done_1 == exit_code_for(capped(count_err(old(self).reports@))),
            final(self).remover == old(self).remover,
            final(self).left() == old(self).left(),
            (final(self)@, action_view(r)) == finish_run_spec(old(self)@),
    {
        let mut m = String::new();
        if self.removed > 0 || self.errored > 0 || self.verbose {
            m.append("\n");
        }
        push_decimal(&mut m, self.removed);
        m.append(" ");
        m.append(if self.dry_run { "would be removed" } else { "removed" });
        if self.dry_run && self.removed > 0 {
            m.append(" (use '--force' to remove)");
        }
        m.append(", ");
        let errors = pluralize("error", self.errored);
        m.append(errors.as_str());
        m.append(" occurred");
        self.awaiting = Await::Done;
        proof {
            reveal_strlit("\n");
            reveal_strlit("");
        }
        assert(m@ =~= summary_text(self.removed as nat, self.errored as nat, self.dry_run, self.verbose));
        Action::Done(m, if self.errored > 0 { 1 } else { 0 })
    }

    /// Counts a result and hands it out to be reported.
    fn report(&mut self, result: Result<String, Error>) -> (r: Action)
        requires
            old(self).wf(),
            old(self).walker is Some,
            old(self).walker->Some_0.accepts_spec(&Reply::Next),
        ensures
            final(self).wf(),
            final(self).reports@ == old(self).reports@.push(result_view(result)),
            final(self).dry_run == old(self).dry_run,
            final(self).verbose == old(self).verbose,
            !final(self).is_done(),
            r is Report && result_view(r->Report_0) == result_view(result),
            final(self).remover == old(self).remover,
            final(self).left() == old(self).left(),
            final(self).awaits_report(),
            (final(self)@, action_view(r)) == report_spec(old(self)@, result_view(result)),
    {
        let ghost s = self.reports@;
        let ghost s2 = s.push(result_view(result));
        proof {
            assert(s2.drop_last() =~= s);
        }
        match &result {
            Ok(_) => {
                if self.removed < usize::MAX {
                    self.removed = self.removed + 1;
                }
            },
            Err(_) => {
                if self.errored < usize::MAX {
                    self.errored = self.errored + 1;
                }
            },
        }
        self.reports = Ghost(s2);
        self.awaiting = Await::Report;
        Action::Report(result)
    }

    /// Starts the walk of the next path, or ends the run where none is left.
    fn begin_path(&mut self) -> (r: Action)
        requires
            old(self).wf(),
        ensures
            final(self).wf(),
            final(self).reports@ == old(self).reports@,
            final(self).dry_run == old(self).dry_run,
            final(self).verbose == old(self).verbose,
            r is Done ==> final(self).is_done() && r->Done_0@ == summary_text(
                capped(count_ok(old(self).reports@)),
                capped(count_err(old(self).reports@)),
                old(self).dry_run,
                old(self).verbose,
            ) && r->Done_1 == exit_code_for(capped(count_err(old(self).reports@))),
            !(r is Done) ==> !final(self).is_done(),
            !(r is Report),
            old(self).next_path < old(self).paths@.len() ==> r is Walk,
            old(self).next_path >= old(self).paths@.len() ==> r is Done,
            final(self).remover == old(self).remover,
            moves_on(old(self).left(), r),
            r is Walk ==> final(self).awaits_walker() && final(self).left() == old(self).left().drop_first()
                && final(self).walker_view().stages == old(self).transformers@
                && final(self).walker_view().recursive == old(self).recursive
                && final(self).walker_view().stack.len() == 0,
            (final(self)@, action_view(r)) == begin_spec(old(self)@),
    {
        if self.next_path >= self.paths.len() {
            return self.finish();
        }
        let path = self.paths[self.next_path].clone();
        let ghost old_left = self.left();
        self.next_path = self.next_path + 1;
        proof {
            assert(self.left() =~= old_left.drop_first());
            assert(old_left[0] == path@);
        }
        let ts = self.transformers.clone();
        let (walker, request) = if self.recursive {
            crate::walk::recurse(ts, path.as_str())
        } else {
            crate::walk::given(ts, path.as_str())
        };
        self.walker = Some(walker);
        self.awaiting = Await::Walker;
        Action::Walk(request)
    }

    /// Routes the walker's request: outcomes go to the remover, the end of a walk moves on to
    /// the next path, and anything else is for the caller to do.
    fn handle(&mut self, request: Request) -> (r: Action)
        requires
            old(self).wf(),
            old(self).walker is Some,
            forall|reply: Reply| #[trigger] old(self).walker->Some_0.accepts_spec(&reply)
                == crate::walk::replies_to(&request, &reply),
        ensures
            final(self).wf(),
            r is Report ==> final(self).reports@.len() == old(self).reports@.len() + 1
                && final(self).reports@ == old(self).reports@.push(result_view(r->Report_0)),
            !(r is Report) ==> final(self).reports@ == old(self).reports@,
            final(self).dry_run == old(self).dry_run,
            final(self).verbose == old(self).verbose,
            r is Done ==> final(self).is_done() && r->Done_0@ == summary_text(
                capped(count_ok(old(self).reports@)),
                capped(count_err(old(self).reports@)),
                old(self).dry_run,
                old(self).verbose,
            ) && r->Done_1 == exit_code_for(capped(count_err(old(self).reports@))),
            !(r is Done) ==> !final(self).is_done(),
            final(self).remover == old(self).remover,
            routes(old(self).remover, request_view(request), r),
            request is Finished ==> moves_on(old(self).left(), r),
            !(request is Finished) ==> final(self).left() == old(self).left(),
            (final(self)@, action_view(r)) == route_spec(old(self)@, request_view(request)),
    {
        proof {
            assert(crate::walk::replies_to(&request, &Reply::Next) ==> old(self).walker->Some_0.accepts_spec(&Reply::Next));
        }
        match request {
            Request::Outcome(Err(e)) => self.report(Err(e)),
            Request::Outcome(Ok(entry)) => {
                match self.remover {
                    Remover::ShowRemove => self.report(show_remove(entry)),
                    Remover::ShowDispose => self.report(show_dispose(entry)),
                    Remover::Remove => {
                        let removal = removal_for(&entry);
                        self.awaiting = Await::Removal(entry);
                        Action::Perform(removal)
                    },
                    Remover::Dispose => {
                        let path = entry.path();
                        self.awaiting = Await::Disposal(entry);
                        Action::Perform(Removal::Dispose(path))
                    },
                }
            },
            Request::Finished => self.begin_path(),
            other => {
                self.awaiting = Await::Walker;
                Action::Walk(other)
            },
        }
    }
}

impl Run {
    /// Starts a run with the given flags and paths, and returns it with its first action.
    /// Flags that exclude each other are refused before anything is walked: no run exists then.
    pub fn new(args: Args) -> (r: Result<(Run, Action), UsageError>)
        ensures
            match conflict_of(&args) {
                Some(e) => r == Err::<(Run, Action), UsageError>(e),
                None => r is Ok,
            },
            r matches Ok((run, action)) ==> {
                &&& run.wf()
                &&& (run@, action_view(action)) == begin_spec(initial_run(&args))
                &&& (run@.awaiting is Done ==> run@.left.len() == 0)
                &&& run.reports() == Seq::<Result<Seq<char>, ErrorView>>::empty()
                &&& run.dry() == crate::cli::dry_run_spec(&args)
                &&& run.verbose_output() == args.verbose
                &&& run.remover() == crate::cli::remover_spec(&args)
                &&& (args.paths@.len() > 0 ==> run.walker_view().stages == crate::cli::transformers_spec(&args)
                    && run.walker_view().recursive == (args.recursive && !args.trash)
                    && run.walker_view().stack.len() == 0)
                &&& moves_on(args.paths@.map_values(|p: String| p@), action)
                &&& (args.paths@.len() > 0 ==> run.left() == args.paths@.map_values(|p: String| p@).drop_first())
                &&& (args.paths@.len() == 0 ==> action is Done && action->Done_1 == 0)
            },
    {
        match check_conflicts(&args) {
            Err(e) => return Err(e),
            Ok(()) => {},
        }
        let mut run = Run {
            transformers: transformers_for(&args),
            recursive: walks_recursively(&args),
            remover: remover_for(&args),
            dry_run: is_dry_run(&args),
            verbose: args.verbose,
            paths: args.paths,
            next_path: 0,
            walker: None,
            awaiting: Await::Done,
            removed: 0,
            errored: 0,
            reports: Ghost(Seq::empty()),
            notes: Vec::new(),
        };
        proof {
            assert(run.left() =~= run.paths@.map_values(|p: String| p@));
            assert(run@.notes =~= Seq::<Seq<char>>::empty());
            assert(run@ == initial_run(&args));
        }
        let action = run.begin_path();
        Ok((run, action))
    }

    /// Takes what came of the previous action and returns the next action. Each reported
    /// result is counted: a success as removed, an error as errored. Once every path is done,
    /// the summary and exit code are returned, and returned again for any further event.
    pub fn step(&mut self, event: Event) -> (r: Action)
        requires
            old(self).wf(),
            old(self).accepts_spec(&event),
            old(self)@.awaiting is Done ==> old(self)@.left.len() == 0,
        ensures
            final(self)@.awaiting is Done ==> final(self)@.left.len() == 0,
            final(self).wf(),
            final(self).dry() == old(self).dry(),
            final(self).verbose_output() == old(self).verbose_output(),
            r is Report ==> final(self).reports() == old(self).reports().push(result_view(r->Report_0)),
            !(r is Report) ==> final(self).reports() == old(self).reports(),
            r is Done ==> final(self).is_done() && r->Done_0@ == summary_text(
                capped(count_ok(final(self).reports())),
                capped(count_err(final(self).reports())),
                final(self).dry(),
                final(self).verbose_output(),
            ) && r->Done_1 == exit_code_for(capped(count_err(final(self).reports()))),
            !(r is Done) ==> !final(self).is_done(),
            final(self).remover() == old(self).remover(),
            old(self).awaits_walker() && event is Walk ==> {
                let req = step_spec(old(self).walker_view(), reply_view(event->Walk_0)).1;
                &&& routes(old(self).remover(), req, r)
                &&& (req is Finished ==> moves_on(old(self).left(), r))
            },
            old(self).awaits_report() ==> {
                let req = step_spec(old(self).walker_view(), ReplyView::Next).1;
                &&& routes(old(self).remover(), req, r)
                &&& (req is Finished ==> moves_on(old(self).left(), r))
            },
            match (old(self).awaited_entry(), event) {
                (Some(e), Event::Removed(res)) => r is Report && result_view(r->Report_0) == match res {
                    Ok(()) => Ok(removed_message(e)),
                    Err(kind) => Err(ErrorView { kind, path: e.path, tip: None }),
                },
                (Some(e), Event::Disposed(res)) => r is Report && result_view(r->Report_0) == match res {
                    Ok(()) => Ok(moved_message(e)),
                    Err(f) => Err(ErrorView { kind: trash_failure_kind(f), path: e.path, tip: None }),
                },
                _ => true,
            },
            (final(self)@, action_view(r)) == run_step_spec(old(self)@, event_view(event)),
    {
        let ghost v0 = self@;
        proof {
            run_ends_after_every_path(v0, event_view(event));
        }
        let mut awaiting = Await::Done;
        core::mem::swap(&mut self.awaiting, &mut awaiting);
        let mut slot: Option<Walker> = None;
        core::mem::swap(&mut self.walker, &mut slot);
        match awaiting {
            Await::Walker => {
                match (slot, event) {
                    (Some(mut w), Event::Walk(reply)) => {
                        let request = w.step(reply);
                        let ghost w2 = w@;
                        let taken = w.take_skip_note();
                        match taken {
                            Some(note) => self.notes.push(note),
                            None => {},
                        }
                        self.walker = Some(w);
                        proof {
                            assert(self@.notes =~= absorb(v0, w2).notes);
                            assert(self@ == RunView { awaiting: AwaitView::Done, ..absorb(v0, w2) });
                            lemma_await_free(absorb(v0, w2), AwaitView::Done, request_view(request));
                        }
                        self.handle(request)
                    },
                    _ => {
                        proof {
                            assert(false);
                        }
                        self.finish()
                    },
                }
            },
            Await::Removal(entry) => {
                self.walker = slot;
                match event {
                    Event::Removed(result) => self.report(removed(entry, result)),
                    _ => {
                        proof {
                            assert(false);
                        }
                        self.finish()
                    },
                }
            },
            Await::Disposal(entry) => {
                self.walker = slot;
                match event {
                    Event::Disposed(result) => self.report(disposed(entry, result)),
                    _ => {
                        proof {
                            assert(false);
                        }
                        self.finish()
                    },
                }
            },
            Await::Report => {
                match slot {
                    Some(mut w) => {
                        let request = w.step(Reply::Next);
                        let ghost w2 = w@;
                        let taken = w.take_skip_note();
                        match taken {
                            Some(note) => self.notes.push(note),
                            None => {},
                        }
                        self.walker = Some(w);
                        proof {
                            assert(self@.notes =~= absorb(v0, w2).notes);
                            assert(self@ == RunView { awaiting: AwaitView::Done, ..absorb(v0, w2) });
                            lemma_await_free(absorb(v0, w2), AwaitView::Done, request_view(request));
                        }
                        self.handle(request)
                    },
                    None => {
                        proof {
                            assert(false);
                        }
                        self.finish()
                    },
                }
            },
            Await::Done => {
                self.walker = slot;
                self.finish()
            },
        }
    }
}

/// Whether an event is of the kind a run waiting for `a` takes.
pub open spec fn event_fits(a: AwaitView, e: EventView) -> bool {
    match (a, e) {
        (AwaitView::Walker, EventView::Walk(_)) => true,
        (AwaitView::Removal(_), EventView::Removed(_)) => true,
        (AwaitView::Disposal(_), EventView::Disposed(_)) => true,
        (AwaitView::Report, EventView::Reported) => true,
        (AwaitView::Done, _) => true,
        _ => false,
    }
}

/// A run ends only once every path was started: no path is left out, whatever went wrong
/// with the earlier ones.
pub proof fn run_ends_after_every_path(v: RunView, e: EventView)
    requires
        event_fits(v.awaiting, e),
        v.awaiting is Done ==> v.left.len() == 0,
    ensures
        run_step_spec(v, e).1 is Done ==> run_step_spec(v, e).0.left.len() == 0,
        run_step_spec(v, e).0.awaiting is Done ==> run_step_spec(v, e).0.left.len() == 0,
{
}

/// A run fails, with exit code 1, exactly when an error was reported; otherwise its exit code
/// is 0.
pub proof fn run_fails_iff_error(reports: Seq<Result<Seq<char>, ErrorView>>)
    ensures
        exit_code_for(capped(count_err(reports))) == 1 <==> exists|i: int|
            0 <= i < reports.len() && (#[trigger] reports[i]) is Err,
        exit_code_for(capped(count_err(reports))) == 0 <==> !exists|i: int|
            0 <= i < reports.len() && (#[trigger] reports[i]) is Err,
    decreases reports.len(),
{
    if reports.len() > 0 {
        let init = reports.drop_last();
        run_fails_iff_error(init);
        if exists|i: int| 0 <= i < reports.len() && (#[trigger] reports[i]) is Err {
            let i = choose|i: int| 0 <= i < reports.len() && (#[trigger] reports[i]) is Err;
            if i < init.len() {
                assert(init[i] is Err);
            }
        }
        if exists|i: int| 0 <= i < init.len() && (#[trigger] init[i]) is Err {
            let i = choose|i: int| 0 <= i < init.len() && (#[trigger] init[i]) is Err;
            assert(reports[i] is Err);
        }
    }
}

} // verus!
