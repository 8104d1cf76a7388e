//! The merge workflow as a state machine. It names the next repository or
//! resolution operation (`Action`); the caller performs it and hands back
//! what came of it (`Event`). Every conflicted file is attempted before the
//! machine decides, and the resolutions are applied all together or the
//! merge is rolled back.

use vstd::prelude::*;

use crate::model::ConflictFile;

verus! {

/// What the merge primitive reported.
#[derive(Debug)]
pub enum MergeResult {
    UpToDate,
    FastForwarded,
    /// Merged without conflicts; the merge commit exists.
    Completed,
    /// Merged with conflicts in these files, in enumeration order.
    Conflicted(Vec<ConflictFile>),
}

/// What became of one conflicted file.
#[derive(Debug)]
pub enum ResolutionOutcome {
    Resolved { path: String, text: String },
    Failed { path: String, reason: String },
}

/// How a successful run ended.
#[derive(Debug)]
pub enum MergeReport {
    /// The branches were already merged.
    NoOp,
    FastForwarded,
    /// Merged without conflicts.
    Merged,
    /// Every conflicted file was resolved and applied; these paths, in order.
    CompletedViaAi(Vec<String>),
}

/// How an unsuccessful run ended.
#[derive(Debug)]
pub enum OrchestratorError {
    /// This branch does not exist; nothing was changed.
    BranchNotFound(String),
    /// A repository operation failed before any resolution was attempted.
    Repository(String),
    /// No key is configured; the merge of these conflicted paths was aborted.
    MissingCredential(Vec<String>),
    /// Some file could not be resolved; the merge was aborted. Every outcome,
    /// in order.
    Aborted(Vec<ResolutionOutcome>),
    /// Applying a resolution to `path` failed; the merge was aborted.
    ApplyFailed { path: String, reason: String },
    /// Rolling the merge back failed: the repository is left mid-merge.
    AbortFailed(String),
}

/// The next operation for the caller.
#[derive(Debug)]
pub enum Action {
    /// Report whether this local branch exists.
    CheckBranch(String),
    /// Run the merge primitive, merging `source` into `target`.
    Merge { target: String, source: String },
    /// Resolve the conflicted file at this index.
    Resolve(usize),
    /// Write `text` to `path` and stage it.
    Apply { path: String, text: String },
    /// Roll the merge back.
    Abort,
    /// Nothing is left to do; the report is ready.
    Finish,
}

/// What came of the last `Action`.
#[derive(Debug)]
pub enum Event {
    BranchChecked(Result<bool, String>),
    MergeDone(Result<MergeResult, String>),
    Resolved(Result<String, String>),
    Applied(Result<(), String>),
    AbortDone(Result<(), String>),
}

/// Why the merge is being rolled back.
#[derive(Debug)]
pub enum AbortCause {
    MissingCredential,
    ResolutionFailed,
    ApplyFailed { path: String, reason: String },
}

/// How the run ended.
#[derive(Debug)]
pub enum Terminal {
    NoOp,
    FastForwarded,
    Merged,
    CompletedViaAi,
    BranchNotFound(String),
    RepositoryError(String),
    MissingCredential,
    Aborted,
    ApplyFailed { path: String, reason: String },
    AbortFailed(String),
}

/// Where the run stands.
#[derive(Debug)]
pub enum Stage {
    CheckingTarget,
    CheckingSource,
    Merging,
    /// Resolving the file whose index is the number of outcomes so far.
    Resolving,
    /// Applying the outcome at index `applied`.
    Applying,
    Aborting(AbortCause),
    Done(Terminal),
}

/// The state of a run, as the contracts see it.
pub struct OrchestratorState {
    pub target: String,
    pub source: String,
    pub has_credential: bool,
    pub stage: Stage,
    pub conflicts: Seq<ConflictFile>,
    pub outcomes: Seq<ResolutionOutcome>,
    pub applied: nat,
}

pub open spec fn outcome_path(o: ResolutionOutcome) -> String {
    match o {
        ResolutionOutcome::Resolved { path, .. } => path,
        ResolutionOutcome::Failed { path, .. } => path,
    }
}

pub open spec fn outcome_text(o: ResolutionOutcome) -> String {
    match o {
        ResolutionOutcome::Resolved { text, .. } => text,
        ResolutionOutcome::Failed { reason, .. } => reason,
    }
}

/// The outcome recorded for `c` when its resolution came to `r`.
pub open spec fn resolution_outcome(c: ConflictFile, r: Result<String, String>) -> ResolutionOutcome {
    match r {
        Ok(t) => ResolutionOutcome::Resolved { path: c.path, text: t },
        Err(m) => ResolutionOutcome::Failed { path: c.path, reason: m },
    }
}

pub open spec fn all_resolved(os: Seq<ResolutionOutcome>) -> bool {
    forall|i: int| 0 <= i < os.len() ==> (#[trigger] os[i]) is Resolved
}

/// The state in which a run starts.
pub open spec fn initial_state(target: String, source: String, has_credential: bool) -> OrchestratorState {
    OrchestratorState {
        target,
        source,
        has_credential,
        stage: Stage::CheckingTarget,
        conflicts: Seq::empty(),
        outcomes: Seq::empty(),
        applied: 0,
    }
}

/// Once every resolution is applied, the run is complete.
pub open spec fn settle_applying(s: OrchestratorState) -> OrchestratorState {
    if s.stage is Applying && s.applied >= s.outcomes.len() {
        OrchestratorState { stage: Stage::Done(Terminal::CompletedViaAi), ..s }
    } else {
        s
    }
}

/// Once every file has an outcome: apply them all if every one resolved,
/// else roll back.
pub open spec fn settle(s: OrchestratorState) -> OrchestratorState {
    if s.stage is Resolving && s.outcomes.len() >= s.conflicts.len() {
        if all_resolved(s.outcomes) {
            settle_applying(OrchestratorState { stage: Stage::Applying, applied: 0, ..s })
        } else {
            OrchestratorState { stage: Stage::Aborting(AbortCause::ResolutionFailed), ..s }
        }
    } else {
        s
    }
}

/// How the run ends once the rollback for `cause` succeeded.
pub open spec fn terminal_after_abort(cause: AbortCause) -> Terminal {
    match cause {
        AbortCause::MissingCredential => Terminal::MissingCredential,
        AbortCause::ResolutionFailed => Terminal::Aborted,
        AbortCause::ApplyFailed { path, reason } => Terminal::ApplyFailed { path, reason },
    }
}

/// The state after the caller reports `ev`. An event that does not answer the
/// pending action leaves the state as it is.
pub open spec fn next_state(s: OrchestratorState, ev: Event) -> OrchestratorState {
    match ev {
        Event::BranchChecked(r) => match s.stage {
            Stage::CheckingTarget => match r {
                Ok(found) => if found {
                    OrchestratorState { stage: Stage::CheckingSource, ..s }
                } else {
                    OrchestratorState {
                        stage: Stage::Done(Terminal::BranchNotFound(s.target)),
                        ..s
                    }
                },
                Err(m) => OrchestratorState { stage: Stage::Done(Terminal::RepositoryError(m)), ..s },
            },
            Stage::CheckingSource => match r {
                Ok(found) => if found {
                    OrchestratorState { stage: Stage::Merging, ..s }
                } else {
                    OrchestratorState {
                        stage: Stage::Done(Terminal::BranchNotFound(s.source)),
                        ..s
                    }
                },
                Err(m) => OrchestratorState { stage: Stage::Done(Terminal::RepositoryError(m)), ..s },
            },
            _ => s,
        },
        Event::MergeDone(r) => if s.stage is Merging {
            match r {
                Err(m) => OrchestratorState { stage: Stage::Done(Terminal::RepositoryError(m)), ..s },
                Ok(MergeResult::UpToDate) => OrchestratorState {
                    stage: Stage::Done(Terminal::NoOp),
                    ..s
                },
                Ok(MergeResult::FastForwarded) => OrchestratorState {
                    stage: Stage::Done(Terminal::FastForwarded),
                    ..s
                },
                Ok(MergeResult::Completed) => OrchestratorState {
                    stage: Stage::Done(Terminal::Merged),
                    ..s
                },
                Ok(MergeResult::Conflicted(files)) => if s.has_credential {
                    settle(
                        OrchestratorState {
                            stage: Stage::Resolving,
                            conflicts: files@,
                            outcomes: Seq::empty(),
                            applied: 0,
                            ..s
                        },
                    )
                } else {
                    OrchestratorState {
                        stage: Stage::Aborting(AbortCause::MissingCredential),
                        conflicts: files@,
                        ..s
                    }
                },
            }
        } else {
            s
        },
        Event::Resolved(r) => if s.stage is Resolving && s.outcomes.len() < s.conflicts.len() {
            settle(
                OrchestratorState {
                    outcomes: s.outcomes.push(
                        resolution_outcome(s.conflicts[s.outcomes.len() as int], r),
                    ),
                    ..s
                },
            )
        } else {
            s
        },
        Event::Applied(r) => if s.stage is Applying && s.applied < s.outcomes.len() {
            match r {
                Ok(_) => settle_applying(OrchestratorState { applied: s.applied + 1, ..s }),
                Err(m) => OrchestratorState {
                    stage: Stage::Aborting(
                        AbortCause::ApplyFailed {
                            path: outcome_path(s.outcomes[s.applied as int]),
                            reason: m,
                        },
                    ),
                    ..s
                },
            }
        } else {
            s
        },
        Event::AbortDone(r) => match s.stage {
            Stage::Aborting(cause) => match r {
                Ok(_) => OrchestratorState { stage: Stage::Done(terminal_after_abort(cause)), ..s },
                Err(m) => OrchestratorState { stage: Stage::Done(Terminal::AbortFailed(m)), ..s },
            },
            _ => s,
        },
    }
}

/// The operation that the run in state `s` asks for next.
pub open spec fn next_action(s: OrchestratorState) -> Action {
    match s.stage {
        Stage::CheckingTarget => Action::CheckBranch(s.target),
        Stage::CheckingSource => Action::CheckBranch(s.source),
        Stage::Merging => Action::Merge { target: s.target, source: s.source },
        Stage::Resolving => if s.outcomes.len() < s.conflicts.len() {
            Action::Resolve(s.outcomes.len() as usize)
        } else {
            Action::Finish
        },
        Stage::Applying => if s.applied < s.outcomes.len() {
            Action::Apply {
                path: outcome_path(s.outcomes[s.applied as int]),
                text: outcome_text(s.outcomes[s.applied as int]),
            }
        } else {
            Action::Finish
        },
        Stage::Aborting(_) => Action::Abort,
        Stage::Done(_) => Action::Finish,
    }
}

/// The paths of the conflicted files, in order.
pub open spec fn conflict_paths(cs: Seq<ConflictFile>) -> Seq<String> {
    cs.map_values(|c: ConflictFile| c.path)
}

/// The paths of the outcomes, in order.
pub open spec fn outcome_paths(os: Seq<ResolutionOutcome>) -> Seq<String> {
    os.map_values(|o: ResolutionOutcome| outcome_path(o))
}

/// `r` is the report of the finished run `s`.
pub open spec fn reports(s: OrchestratorState, r: Result<MergeReport, OrchestratorError>) -> bool {
    match s.stage {
        Stage::Done(t) => match t {
            Terminal::NoOp => r == Ok::<MergeReport, OrchestratorError>(MergeReport::NoOp),
            Terminal::FastForwarded => r == Ok::<MergeReport, OrchestratorError>(
                MergeReport::FastForwarded,
            ),
            Terminal::Merged => r == Ok::<MergeReport, OrchestratorError>(MergeReport::Merged),
            Terminal::CompletedViaAi => match r {
                Ok(MergeReport::CompletedViaAi(paths)) => paths@ == outcome_paths(s.outcomes),
                _ => false,
            },
            Terminal::BranchNotFound(b) => r == Err::<MergeReport, OrchestratorError>(
                OrchestratorError::BranchNotFound(b),
            ),
            Terminal::RepositoryError(m) => r == Err::<MergeReport, OrchestratorError>(
                OrchestratorError::Repository(m),
            ),
            Terminal::MissingCredential => match r {
                Err(OrchestratorError::MissingCredential(paths)) => paths@ == conflict_paths(
                    s.conflicts,
                ),
                _ => false,
            },
            Terminal::Aborted => match r {
                Err(OrchestratorError::Aborted(os)) => os@ == s.outcomes,
                _ => false,
            },
            Terminal::ApplyFailed { path, reason } => r == Err::<MergeReport, OrchestratorError>(
                OrchestratorError::ApplyFailed { path, reason },
            ),
            Terminal::AbortFailed(m) => r == Err::<MergeReport, OrchestratorError>(
                OrchestratorError::AbortFailed(m),
            ),
        },
        _ => false,
    }
}

/// The state after the caller reports `events` in turn, starting from `s`.
pub open spec fn run(s: OrchestratorState, events: Seq<Event>) -> OrchestratorState
    decreases events.len(),
{
    if events.len() == 0 {
        s
    } else {
        run(next_state(s, events[0]), events.drop_first())
    }
}

/// The actions asked for along the same run: before each event, and once more
/// after the last.
pub open spec fn actions(s: OrchestratorState, events: Seq<Event>) -> Seq<Action>
    decreases events.len(),
{
    if events.len() == 0 {
        seq![next_action(s)]
    } else {
        seq![next_action(s)] + actions(next_state(s, events[0]), events.drop_first())
    }
}

/// The events reporting resolutions `rs`, in order.
pub open spec fn resolution_events(rs: Seq<Result<String, String>>) -> Seq<Event> {
    rs.map_values(|r: Result<String, String>| Event::Resolved(r))
}

/// `n` events reporting a successful apply.
pub open spec fn applied_events(n: nat) -> Seq<Event> {
    Seq::new(n, |i: int| Event::Applied(Ok(())))
}

/// Requests to resolve the files at indices `from .. from + n`.
pub open spec fn resolve_actions(from: nat, n: nat) -> Seq<Action> {
    Seq::new(n, |i: int| Action::Resolve((from + i) as usize))
}

/// `n` times `Finish`.
pub open spec fn finish_actions(n: nat) -> Seq<Action> {
    Seq::new(n, |i: int| Action::Finish)
}

/// The outcomes of `files` whose resolutions came to `rs`.
pub open spec fn outcomes_of(files: Seq<ConflictFile>, rs: Seq<Result<String, String>>) -> Seq<
    ResolutionOutcome,
> {
    Seq::new(rs.len(), |i: int| resolution_outcome(files[i], rs[i]))
}

proof fn lemma_one_event(s: OrchestratorState, events: Seq<Event>)
    requires
        events.len() == 1,
    ensures
        run(s, events) == next_state(s, events[0]),
        actions(s, events) == seq![next_action(s), next_action(next_state(s, events[0]))],
{
    let t = next_state(s, events[0]);
    assert(events.drop_first() =~= Seq::<Event>::empty());
    assert(run(t, events.drop_first()) == t);
    assert(actions(t, events.drop_first()) == seq![next_action(t)]);
    assert(actions(s, events) =~= seq![next_action(s), next_action(t)]);
}

proof fn lemma_run_concat(s: OrchestratorState, a: Seq<Event>, b: Seq<Event>)
    ensures
        run(s, a + b) == run(run(s, a), b),
        actions(s, a + b) == actions(s, a).drop_last() + actions(run(s, a), b),
    decreases a.len(),
{
    if a.len() == 0 {
        assert(a + b =~= b);
        assert(actions(s, a).drop_last() =~= Seq::<Action>::empty());
        assert(actions(s, a + b) =~= actions(s, a).drop_last() + actions(run(s, a), b));
    } else {
        let t = next_state(s, a[0]);
        assert((a + b).drop_first() =~= a.drop_first() + b);
        assert((a + b)[0] == a[0]);
        lemma_run_concat(t, a.drop_first(), b);
        assert(actions(s, a + b) =~= actions(s, a).drop_last() + actions(run(s, a), b));
    }
}

proof fn lemma_done_absorbs(s: OrchestratorState, events: Seq<Event>)
    requires
        s.stage is Done,
    ensures
        run(s, events) == s,
        actions(s, events) == finish_actions(events.len() + 1),
    decreases events.len(),
{
    if events.len() > 0 {
        assert(next_state(s, events[0]) == s);
        lemma_done_absorbs(s, events.drop_first());
    }
    assert(actions(s, events) =~= finish_actions(events.len() + 1));
}

proof fn lemma_resolving(s: OrchestratorState, rs: Seq<Result<String, String>>)
    requires
        s.stage is Resolving,
        s.outcomes.len() + rs.len() == s.conflicts.len(),
        rs.len() >= 1,
    ensures
        ({
            let k = s.outcomes.len();
            let outs = s.outcomes + Seq::new(
                rs.len(),
                |i: int| resolution_outcome(s.conflicts[k + i], rs[i]),
            );
            let end = run(s, resolution_events(rs));
            &&& end == settle(OrchestratorState { outcomes: outs, ..s })
            &&& actions(s, resolution_events(rs)) == resolve_actions(k, rs.len()) + seq![
                next_action(end),
            ]
        }),
    decreases rs.len(),
{
    let k = s.outcomes.len();
    let evs = resolution_events(rs);
    let o0 = resolution_outcome(s.conflicts[k as int], rs[0]);
    let pushed = OrchestratorState { outcomes: s.outcomes.push(o0), ..s };
    assert(evs[0] == Event::Resolved(rs[0]));
    let outs = s.outcomes + Seq::new(rs.len(), |i: int| resolution_outcome(s.conflicts[k + i], rs[i]));
    if rs.len() == 1 {
        lemma_one_event(s, evs);
        assert(outs =~= s.outcomes.push(o0));
        assert(actions(s, evs) =~= resolve_actions(k, 1) + seq![next_action(run(s, evs))]);
    } else {
        let t = next_state(s, evs[0]);
        assert(t == pushed);
        let rest = rs.drop_first();
        assert(evs.drop_first() =~= resolution_events(rest));
        lemma_resolving(t, rest);
        let outs2 = t.outcomes + Seq::new(
            rest.len(),
            |i: int| resolution_outcome(t.conflicts[k + 1 + i], rest[i]),
        );
        assert(outs2 =~= outs);
        assert(actions(s, evs) =~= resolve_actions(k, rs.len()) + seq![next_action(run(s, evs))]);
    }
}

proof fn lemma_applying(s: OrchestratorState, m: nat)
    requires
        s.stage is Applying,
        s.applied + m == s.outcomes.len(),
        m >= 1,
    ensures
        run(s, applied_events(m)) == (OrchestratorState {
            stage: Stage::Done(Terminal::CompletedViaAi),
            applied: s.outcomes.len(),
            ..s
        }),
        actions(s, applied_events(m)) == Seq::new(
            m,
            |i: int|
                Action::Apply {
                    path: outcome_path(s.outcomes[s.applied + i]),
                    text: outcome_text(s.outcomes[s.applied + i]),
                },
        ) + seq![Action::Finish],
    decreases m,
{
    let evs = applied_events(m);
    assert(evs[0] == Event::Applied(Ok(())));
    let t = next_state(s, evs[0]);
    assert(evs.drop_first() =~= applied_events((m - 1) as nat));
    if m == 1 {
        lemma_one_event(s, evs);
        assert(actions(s, evs) =~= Seq::new(
            m,
            |i: int|
                Action::Apply {
                    path: outcome_path(s.outcomes[s.applied + i]),
                    text: outcome_text(s.outcomes[s.applied + i]),
                },
        ) + seq![Action::Finish]);
    } else {
        lemma_applying(t, (m - 1) as nat);
        assert(actions(s, evs) =~= Seq::new(
            m,
            |i: int|
                Action::Apply {
                    path: outcome_path(s.outcomes[s.applied + i]),
                    text: outcome_text(s.outcomes[s.applied + i]),
                },
        ) + seq![Action::Finish]);
    }
}

/// The events that answer both branch checks with "exists" and the merge with
/// conflicts in `files`.
pub open spec fn conflicted_merge_events(files: Vec<ConflictFile>) -> Seq<Event> {
    seq![
        Event::BranchChecked(Ok(true)),
        Event::BranchChecked(Ok(true)),
        Event::MergeDone(Ok(MergeResult::Conflicted(files))),
    ]
}

proof fn lemma_conflicted_prefix(target: String, source: String, has_credential: bool, files: Vec<ConflictFile>)
    ensures
        ({
            let s = initial_state(target, source, has_credential);
            let pre = conflicted_merge_events(files);
            let merging = OrchestratorState { stage: Stage::Merging, ..s };
            &&& run(s, pre) == next_state(merging, pre[2])
            &&& actions(s, pre).drop_last() == seq![
                Action::CheckBranch(target),
                Action::CheckBranch(source),
                Action::Merge { target, source },
            ]
        }),
{
    let s = initial_state(target, source, has_credential);
    let pre = conflicted_merge_events(files);
    let s1 = next_state(s, pre[0]);
    let p1 = pre.drop_first();
    assert(p1[0] == pre[1]);
    let s2 = next_state(s1, p1[0]);
    let p2 = p1.drop_first();
    assert(p2[0] == pre[2]);
    assert(p2.len() == 1);
    lemma_one_event(s2, p2);
    assert(run(s, pre) == run(s1, p1));
    assert(run(s1, p1) == run(s2, p2));
    assert(actions(s, pre) == seq![next_action(s)] + actions(s1, p1));
    assert(actions(s1, p1) == seq![next_action(s1)] + actions(s2, p2));
    assert(actions(s, pre).drop_last() =~= seq![
        Action::CheckBranch(target),
        Action::CheckBranch(source),
        Action::Merge { target, source },
    ]);
}

/// A run in which the target branch, or then the source branch, is reported
/// missing ends with `BranchNotFound` naming that branch, and never asks for
/// the merge primitive, whatever events follow.
pub proof fn lemma_missing_branch_stops_before_merge(
    target: String,
    source: String,
    has_credential: bool,
    events: Seq<Event>,
)
    requires
        events.len() >= 2,
        events[0] == Event::BranchChecked(Ok(false)) || (events[0] == Event::BranchChecked(Ok(true))
            && events[1] == Event::BranchChecked(Ok(false))),
    ensures
        ({
            let s = initial_state(target, source, has_credential);
            let acts = actions(s, events);
            &&& events[0] == Event::BranchChecked(Ok(false)) ==> run(s, events).stage == Stage::Done(
                Terminal::BranchNotFound(target),
            )
            &&& events[0] == Event::BranchChecked(Ok(true)) ==> run(s, events).stage == Stage::Done(
                Terminal::BranchNotFound(source),
            )
            &&& forall|k: int| 0 <= k < acts.len() ==> !(#[trigger] acts[k] is Merge)
        }),
{
    let s = initial_state(target, source, has_credential);
    let s1 = next_state(s, events[0]);
    let rest = events.drop_first();
    assert(rest[0] == events[1]);
    if events[0] == Event::BranchChecked(Ok(false)) {
        lemma_done_absorbs(s1, rest);
        assert(run(s, events) == run(s1, rest));
        assert(actions(s, events) =~= seq![next_action(s)] + finish_actions(rest.len() + 1));
        let acts = actions(s, events);
        assert forall|k: int| 0 <= k < acts.len() implies !(#[trigger] acts[k] is Merge) by {
            if k > 0 {
                assert(acts[k] == finish_actions(rest.len() + 1)[k - 1]);
            }
        }
    } else {
        let s2 = next_state(s1, rest[0]);
        let rest2 = rest.drop_first();
        lemma_done_absorbs(s2, rest2);
        assert(actions(s, events) == seq![next_action(s)] + actions(s1, rest));
        assert(actions(s1, rest) == seq![next_action(s1)] + actions(s2, rest2));
        assert(run(s, events) == run(s1, rest));
        assert(run(s1, rest) == run(s2, rest2));
        assert(actions(s, events) =~= seq![next_action(s), next_action(s1)] + finish_actions(
            rest2.len() + 1,
        ));
        let acts = actions(s, events);
        assert forall|k: int| 0 <= k < acts.len() implies !(#[trigger] acts[k] is Merge) by {
            if k > 1 {
                assert(acts[k] == finish_actions(rest2.len() + 1)[k - 2]);
            }
        }
    }
}

/// When every conflicted file resolves and every apply succeeds, the run ends
/// in `CompletedViaAi` with one resolved outcome per file, and asks, in order,
/// to resolve each file and then to write each file's resolution to its path;
/// it never asks for a rollback.
pub proof fn lemma_all_resolved_are_applied(
    target: String,
    source: String,
    files: Vec<ConflictFile>,
    texts: Seq<String>,
    rest: Seq<Event>,
)
    requires
        texts.len() == files@.len(),
    ensures
        ({
            let n = texts.len();
            let rs = texts.map_values(|t: String| Ok::<String, String>(t));
            let events = conflicted_merge_events(files) + resolution_events(rs) + applied_events(n)
                + rest;
            let s = initial_state(target, source, true);
            let end = run(s, events);
            &&& end.stage == Stage::Done(Terminal::CompletedViaAi)
            &&& end.outcomes == Seq::new(
                n,
                |i: int| ResolutionOutcome::Resolved { path: files@[i].path, text: texts[i] },
            )
            &&& actions(s, events) == seq![
                Action::CheckBranch(target),
                Action::CheckBranch(source),
                Action::Merge { target, source },
            ] + resolve_actions(0, n) + Seq::new(
                n,
                |i: int| Action::Apply { path: files@[i].path, text: texts[i] },
            ) + finish_actions(rest.len() + 1)
        }),
{
    let n = texts.len();
    let rs = texts.map_values(|t: String| Ok::<String, String>(t));
    let pre = conflicted_merge_events(files);
    let res = resolution_events(rs);
    let app = applied_events(n);
    let s = initial_state(target, source, true);
    let expected_outcomes = Seq::new(
        n,
        |i: int| ResolutionOutcome::Resolved { path: files@[i].path, text: texts[i] },
    );
    lemma_conflicted_prefix(target, source, true, files);
    lemma_run_concat(s, pre, res + app + rest);
    assert(pre + res + app + rest =~= pre + (res + app + rest));
    let s3 = run(s, pre);
    lemma_run_concat(s3, res, app + rest);
    assert(res + app + rest =~= res + (app + rest));
    let s4 = run(s3, res);
    lemma_run_concat(s4, app, rest);
    let s5 = run(s4, app);
    let apply_acts = Seq::new(
        n,
        |i: int| Action::Apply { path: files@[i].path, text: texts[i] },
    );
    if n == 0 {
        assert(res =~= Seq::<Event>::empty());
        assert(app =~= Seq::<Event>::empty());
        assert(s4 == s3);
        assert(s5 == s3);
        assert(all_resolved(Seq::<ResolutionOutcome>::empty()));
        assert(s3.stage == Stage::Done(Terminal::CompletedViaAi));
        assert(s3.outcomes =~= expected_outcomes);
        lemma_done_absorbs(s5, rest);
        assert(actions(s3, res).drop_last() =~= Seq::<Action>::empty());
        assert(actions(s4, app).drop_last() =~= Seq::<Action>::empty());
        assert(resolve_actions(0, n) =~= Seq::<Action>::empty());
        assert(apply_acts =~= Seq::<Action>::empty());
    } else {
        assert(s3.stage is Resolving);
        assert(s3.outcomes =~= Seq::<ResolutionOutcome>::empty());
        lemma_resolving(s3, rs);
        let outs = s3.outcomes + Seq::new(
            rs.len(),
            |i: int| resolution_outcome(s3.conflicts[0 + i], rs[i]),
        );
        assert(outs =~= expected_outcomes);
        assert(all_resolved(outs));
        assert(s4.stage is Applying && s4.applied == 0 && s4.outcomes == expected_outcomes);
        lemma_applying(s4, n);
        lemma_done_absorbs(s5, rest);
        assert(actions(s4, app).drop_last() =~= apply_acts);
        assert(actions(s3, res).drop_last() =~= resolve_actions(0, n));
    }
    assert(actions(s, pre + res + app + rest) =~= seq![
        Action::CheckBranch(target),
        Action::CheckBranch(source),
        Action::Merge { target, source },
    ] + resolve_actions(0, n) + apply_acts + finish_actions(rest.len() + 1));
}

/// When at least one conflicted file fails to resolve, every file is still
/// attempted, the run asks for the rollback exactly once, right after the
/// last resolution, and never asks to apply anything; it ends reporting the
/// outcome of every file, in order (`Aborted`), or the rollback's failure.
pub proof fn lemma_failure_aborts_once(
    target: String,
    source: String,
    files: Vec<ConflictFile>,
    rs: Seq<Result<String, String>>,
    abort_result: Result<(), String>,
    rest: Seq<Event>,
)
    requires
        rs.len() == files@.len(),
        exists|i: int| 0 <= i < rs.len() && (#[trigger] rs[i]) is Err,
    ensures
        ({
            let n = rs.len();
            let events = conflicted_merge_events(files) + resolution_events(rs) + seq![
                Event::AbortDone(abort_result),
            ] + rest;
            let s = initial_state(target, source, true);
            let end = run(s, events);
            &&& end.outcomes == outcomes_of(files@, rs)
            &&& abort_result is Ok ==> end.stage == Stage::Done(Terminal::Aborted)
            &&& abort_result is Err ==> end.stage == Stage::Done(
                Terminal::AbortFailed(abort_result->Err_0),
            )
            &&& actions(s, events) == seq![
                Action::CheckBranch(target),
                Action::CheckBranch(source),
                Action::Merge { target, source },
            ] + resolve_actions(0, n) + seq![Action::Abort] + finish_actions(rest.len() + 1)
        }),
{
    let n = rs.len();
    let pre = conflicted_merge_events(files);
    let res = resolution_events(rs);
    let ab = seq![Event::AbortDone(abort_result)];
    let s = initial_state(target, source, true);
    lemma_conflicted_prefix(target, source, true, files);
    lemma_run_concat(s, pre, res + ab + rest);
    assert(pre + res + ab + rest =~= pre + (res + ab + rest));
    let s3 = run(s, pre);
    lemma_run_concat(s3, res, ab + rest);
    assert(res + ab + rest =~= res + (ab + rest));
    let s4 = run(s3, res);
    lemma_run_concat(s4, ab, rest);
    let s5 = run(s4, ab);
    assert(s3.stage is Resolving);
    assert(s3.outcomes =~= Seq::<ResolutionOutcome>::empty());
    lemma_resolving(s3, rs);
    let outs = s3.outcomes + Seq::new(
        rs.len(),
        |i: int| resolution_outcome(s3.conflicts[0 + i], rs[i]),
    );
    assert(outs =~= outcomes_of(files@, rs));
    let i = choose|i: int| 0 <= i < rs.len() && (#[trigger] rs[i]) is Err;
    assert(outs[i] is Failed);
    assert(!all_resolved(outs));
    assert(s4.stage == Stage::Aborting(AbortCause::ResolutionFailed));
    assert(s4.outcomes == outs);
    lemma_one_event(s4, ab);
    lemma_done_absorbs(s5, rest);
    assert(actions(s4, ab).drop_last() =~= seq![Action::Abort]);
    assert(actions(s3, res).drop_last() =~= resolve_actions(0, n));
    assert(actions(s, pre + res + ab + rest) =~= seq![
        Action::CheckBranch(target),
        Action::CheckBranch(source),
        Action::Merge { target, source },
    ] + resolve_actions(0, n) + seq![Action::Abort] + finish_actions(rest.len() + 1));
}

/// Drives one merge of `source` into `target`.
pub struct MergeOrchestrator {
    target: String,
    source: String,
    has_credential: bool,
    stage: Stage,
    conflicts: Vec<ConflictFile>,
    outcomes: Vec<ResolutionOutcome>,
    applied: usize,
}

impl View for MergeOrchestrator {
    type V = OrchestratorState;

    closed spec fn view(&self) -> OrchestratorState {
        OrchestratorState {
            target: self.target,
            source: self.source,
            has_credential: self.has_credential,
            stage: self.stage,
            conflicts: self.conflicts@,
            outcomes: self.outcomes@,
            applied: self.applied as nat,
        }
    }
}

fn path_of(o: &ResolutionOutcome) -> (r: String)
    ensures
        r == outcome_path(*o),
{
    match o {
        ResolutionOutcome::Resolved { path, .. } => path.clone(),
        ResolutionOutcome::Failed { path, .. } => path.clone(),
    }
}

fn text_of(o: &ResolutionOutcome) -> (r: String)
    ensures
        r == outcome_text(*o),
{
    match o {
        ResolutionOutcome::Resolved { text, .. } => text.clone(),
        ResolutionOutcome::Failed { reason, .. } => reason.clone(),
    }
}

fn every_resolved(os: &Vec<ResolutionOutcome>) -> (r: bool)
    ensures
        r == all_resolved(os@),
{
    let mut i: usize = 0;
    while i < os.len()
        invariant
            i <= os.len(),
            forall|j: int| 0 <= j < i ==> (#[trigger] os@[j]) is Resolved,
        decreases os.len() - i,
    {
        match &os[i] {
            ResolutionOutcome::Resolved { .. } => {},
            ResolutionOutcome::Failed { .. } => {
                return false;
            },
        }
        i = i + 1;
    }
    true
}

fn paths_of_outcomes(os: &Vec<ResolutionOutcome>) -> (r: Vec<String>)
    ensures
        r@ == outcome_paths(os@),
{
    let mut r: Vec<String> = Vec::new();
    let mut i: usize = 0;
    while i < os.len()
        invariant
            i <= os.len(),
            r.len() == i,
            forall|j: int| 0 <= j < i ==> r@[j] == outcome_path(#[trigger] os@[j]),
        decreases os.len() - i,
    {
        r.push(path_of(&os[i]));
        i = i + 1;
    }
    proof {
        assert(r@ =~= outcome_paths(os@));
    }
    r
}

fn paths_of_conflicts(cs: &Vec<ConflictFile>) -> (r: Vec<String>)
    ensures
        r@ == conflict_paths(cs@),
{
    let mut r: Vec<String> = Vec::new();
    let mut i: usize = 0;
    while i < cs.len()
        invariant
            i <= cs.len(),
            r.len() == i,
            forall|j: int| 0 <= j < i ==> r@[j] == (#[trigger] cs@[j]).path,
        decreases cs.len() - i,
    {
        r.push(cs[i].path.clone());
        i = i + 1;
    }
    proof {
        assert(r@ =~= conflict_paths(cs@));
    }
    r
}

impl MergeOrchestrator {
    /// A run that will merge `source` into `target`; `has_credential` says
    /// whether a resolution key is configured.
    pub fn new(target: String, source: String, has_credential: bool) -> (r: Self)
        ensures
            r@ == initial_state(target, source, has_credential),
    {
        let r = MergeOrchestrator {
            target,
            source,
            has_credential,
            stage: Stage::CheckingTarget,
            conflicts: Vec::new(),
            outcomes: Vec::new(),
            applied: 0,
        };
        proof {
            assert(r@.conflicts =~= Seq::<ConflictFile>::empty());
            assert(r@.outcomes =~= Seq::<ResolutionOutcome>::empty());
        }
        r
    }

    /// The operation the caller performs next.
    pub fn next_action(&self) -> (a: Action)
        ensures
            a == next_action(self@),
    {
        match &self.stage {
            Stage::CheckingTarget => Action::CheckBranch(self.target.clone()),
            Stage::CheckingSource => Action::CheckBranch(self.source.clone()),
            Stage::Merging => Action::Merge {
                target: self.target.clone(),
                source: self.source.clone(),
            },
            Stage::Resolving => if self.outcomes.len() < self.conflicts.len() {
                Action::Resolve(self.outcomes.len())
            } else {
                Action::Finish
            },
            Stage::Applying => if self.applied < self.outcomes.len() {
                Action::Apply {
                    path: path_of(&self.outcomes[self.applied]),
                    text: text_of(&self.outcomes[self.applied]),
                }
            } else {
                Action::Finish
            },
            Stage::Aborting(_) => Action::Abort,
            Stage::Done(_) => Action::Finish,
        }
    }

    /// The conflicted files, in the order they are resolved.
    pub fn conflicts(&self) -> (r: &Vec<ConflictFile>)
        ensures
            r@ == self@.conflicts,
    {
        &self.conflicts
    }

    /// Whether the run has ended.
    pub fn is_finished(&self) -> (r: bool)
        ensures
            r == self@.stage is Done,
    {
        match &self.stage {
            Stage::Done(_) => true,
            _ => false,
        }
    }

    fn settle_applying(&mut self)
        ensures
            final(self)@ == settle_applying(old(self)@),
    {
        let done = match &self.stage {
            Stage::Applying => self.applied >= self.outcomes.len(),
            _ => false,
        };
        if done {
            self.stage = Stage::Done(Terminal::CompletedViaAi);
        }
    }

    fn settle(&mut self)
        ensures
            final(self)@ == settle(old(self)@),
    {
        let done = match &self.stage {
            Stage::Resolving => self.outcomes.len() >= self.conflicts.len(),
            _ => false,
        };
        if done {
            if every_resolved(&self.outcomes) {
                self.stage = Stage::Applying;
                self.applied = 0;
                self.settle_applying();
            } else {
                self.stage = Stage::Aborting(AbortCause::ResolutionFailed);
            }
        }
    }

    /// Takes back what came of the pending action.
    pub fn handle(&mut self, ev: Event)
        ensures
            final(self)@ == next_state(old(self)@, ev),
    {
        let mut stage = Stage::Merging;
        std::mem::swap(&mut stage, &mut self.stage);
        match ev {
            Event::BranchChecked(r) => match stage {
                Stage::CheckingTarget => {
                    self.stage = match r {
                        Ok(found) => if found {
                            Stage::CheckingSource
                        } else {
                            Stage::Done(Terminal::BranchNotFound(self.target.clone()))
                        },
                        Err(m) => Stage::Done(Terminal::RepositoryError(m)),
                    };
                },
                Stage::CheckingSource => {
                    self.stage = match r {
                        Ok(found) => if found {
                            Stage::Merging
                        } else {
                            Stage::Done(Terminal::BranchNotFound(self.source.clone()))
                        },
                        Err(m) => Stage::Done(Terminal::RepositoryError(m)),
                    };
                },
                other => {
                    self.stage = other;
                },
            },
            Event::MergeDone(r) => match stage {
                Stage::Merging => match r {
                    Err(m) => {
                        self.stage = Stage::Done(Terminal::RepositoryError(m));
                    },
                    Ok(MergeResult::UpToDate) => {
                        self.stage = Stage::Done(Terminal::NoOp);
                    },
                    Ok(MergeResult::FastForwarded) => {
                        self.stage = Stage::Done(Terminal::FastForwarded);
                    },
                    Ok(MergeResult::Completed) => {
                        self.stage = Stage::Done(Terminal::Merged);
                    },
                    Ok(MergeResult::Conflicted(files)) => {
                        self.conflicts = files;
                        if self.has_credential {
                            self.stage = Stage::Resolving;
                            self.outcomes = Vec::new();
                            self.applied = 0;
                            proof {
                                assert(self@.outcomes =~= Seq::<ResolutionOutcome>::empty());
                            }
                            self.settle();
                        } else {
                            self.stage = Stage::Aborting(AbortCause::MissingCredential);
                        }
                    },
                },
                other => {
                    self.stage = other;
                },
            },
            Event::Resolved(r) => match stage {
                Stage::Resolving => {
                    self.stage = Stage::Resolving;
                    if self.outcomes.len() < self.conflicts.len() {
                        let path = self.conflicts[self.outcomes.len()].path.clone();
                        let o = match r {
                            Ok(t) => ResolutionOutcome::Resolved { path, text: t },
                            Err(m) => ResolutionOutcome::Failed { path, reason: m },
                        };
                        self.outcomes.push(o);
                        self.settle();
                    }
                },
                other => {
                    self.stage = other;
                },
            },
            Event::Applied(r) => match stage {
                Stage::Applying => {
                    self.stage = Stage::Applying;
                    if self.applied < self.outcomes.len() {
                        match r {
                            Ok(_) => {
                                self.applied = self.applied + 1;
                                self.settle_applying();
                            },
                            Err(m) => {
                                let path = path_of(&self.outcomes[self.applied]);
                                self.stage = Stage::Aborting(
                                    AbortCause::ApplyFailed { path, reason: m },
                                );
                            },
                        }
                    }
                },
                other => {
                    self.stage = other;
                },
            },
            Event::AbortDone(r) => match stage {
                Stage::Aborting(cause) => {
                    self.stage = match r {
                        Ok(_) => Stage::Done(
                            match cause {
                                AbortCause::MissingCredential => Terminal::MissingCredential,
                                AbortCause::ResolutionFailed => Terminal::Aborted,
                                AbortCause::ApplyFailed { path, reason } => Terminal::ApplyFailed {
                                    path,
                                    reason,
                                },
                            },
                        ),
                        Err(m) => Stage::Done(Terminal::AbortFailed(m)),
                    };
                },
                other => {
                    self.stage = other;
                },
            },
        }
    }

    /// The report of a finished run.
    pub fn finish(self) -> (r: Result<MergeReport, OrchestratorError>)
        requires
            self@.stage is Done,
        ensures
            reports(self@, r),
    {
        let ghost s = self@;
        let MergeOrchestrator { stage, conflicts, outcomes, .. } = self;
        match stage {
            Stage::Done(t) => match t {
                Terminal::NoOp => Ok(MergeReport::NoOp),
                Terminal::FastForwarded => Ok(MergeReport::FastForwarded),
                Terminal::Merged => Ok(MergeReport::Merged),
                Terminal::CompletedViaAi => Ok(
                    MergeReport::CompletedViaAi(paths_of_outcomes(&outcomes)),
                ),
                Terminal::BranchNotFound(b) => Err(OrchestratorError::BranchNotFound(b)),
                Terminal::RepositoryError(m) => Err(OrchestratorError::Repository(m)),
                Terminal::MissingCredential => Err(
                    OrchestratorError::MissingCredential(paths_of_conflicts(&conflicts)),
                ),
                Terminal::Aborted => Err(OrchestratorError::Aborted(outcomes)),
                Terminal::ApplyFailed { path, reason } => Err(
                    OrchestratorError::ApplyFailed { path, reason },
                ),
                Terminal::AbortFailed(m) => Err(OrchestratorError::AbortFailed(m)),
            },
            _ => Err(OrchestratorError::Repository(String::new())),
        }
    }
}

} // verus!
