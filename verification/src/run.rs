//! One sync run of one mapping: the phases it goes through, the plan it follows,
//! the base it leaves behind and the line it adds to the sync log.

use vstd::prelude::*;
use vstd::string::StringExecFns;
use crate::clock::Timestamp;
use crate::diff::build_sync_plan;
use crate::diff::change_pairs;
use crate::diff::compute_changes;
use crate::diff::index_changes;
use crate::diff::FileChange;
use crate::diff::SyncPlan;
use crate::laws::agree;
use crate::laws::lemma_agreeing_sides_need_no_sync;
use crate::laws::lemma_empty_map_has_no_pairs;
use crate::laws::sync_plan_of;
use crate::pathmap::ascending;
use crate::pathmap::lemma_pairs_insert;
use crate::pathmap::pairs_to_map;
use crate::snapshot::shared_base;
use crate::snapshot::Snapshot;
use crate::text::push_char;

verus! {

/// Where a sync run stands.
#[derive(Debug, Clone, Copy, PartialEq, Eq, Structural)]
pub enum RunPhase {
    Idle,
    Scanning,
    Diffing,
    Planning,
    Executing,
    Persisting,
    Failed,
}

/// A sync run: its phase, and whether it only reports what it would do.
#[derive(Debug, Clone, Copy, PartialEq, Eq, Structural)]
pub struct RunState {
    pub phase: RunPhase,
    pub dry_run: bool,
}

/// What happened since the last step of a run.
#[derive(Debug, Clone, Copy, PartialEq, Eq, Structural)]
pub enum RunEvent {
    /// The run was asked to start. `local_is_dir` tells whether the local root is a
    /// directory, `target_exists` whether the folder on the secondary side exists.
    Start { local_is_dir: bool, target_exists: bool },
    /// The folder on the secondary side was created.
    TargetCreated,
    /// Both trees were scanned.
    Scanned,
    /// Both changesets were computed.
    Diffed,
    /// The plan was built; it has `entries` entries.
    Planned { entries: usize },
    /// One entry of the plan was carried out.
    EntryDone,
    /// One entry of the plan failed; its error was recorded.
    EntryFailed,
    /// Every entry of the plan was handled.
    Executed,
    /// Both trees were scanned again after the execution.
    Rescanned,
    /// The snapshots were written.
    Saved,
    /// Something failed that the run cannot recover from.
    Fatal,
}

/// What the driver of a run does next.
#[derive(Debug, Clone, Copy, PartialEq, Eq, Structural)]
pub enum RunAction {
    /// Create the folder on the secondary side.
    CreateTarget,
    /// Scan both trees, with the base snapshot and the secondary cache as caches.
    ScanBoth,
    /// Scan the local tree only and take the secondary side, whose folder does not
    /// exist, as empty.
    ScanLocal,
    /// Compute the changes of both scans against the base.
    ComputeChanges,
    /// Merge the two changesets into a plan.
    BuildPlan,
    /// Hand the next entry of the plan to the engine, or report the execution done.
    ExecuteEntry,
    /// Write the two scans as they are: the local one as the new base, the
    /// secondary one as the new cache.
    SaveScans,
    /// Scan both trees again, with the scans of this run as caches.
    Rescan,
    /// Write the shared part of the fresh local scan as the new base, and the fresh
    /// secondary scan as the new cache.
    SaveShared,
    /// Report the plan and the result.
    Finish,
    /// Give up and report the failure.
    Abort,
}

/// The state after `event`, and what to do next. A run goes from idle through
/// scanning, diffing, planning, executing and persisting back to idle. A run whose
/// local root is no directory fails before anything is changed. A missing folder on
/// the secondary side is created first, except in a dry run, which takes that side
/// as empty. An empty plan skips the execution, a dry run writes nothing, a failed
/// entry leaves the run executing, and a fatal failure or an event out of turn ends
/// the run as failed.
pub open spec fn run_step(state: RunState, event: RunEvent) -> (RunState, RunAction) {
    let to = |phase: RunPhase| RunState { phase, dry_run: state.dry_run };
    match (state.phase, event) {
        (RunPhase::Idle, RunEvent::Start { local_is_dir, target_exists }) => if !local_is_dir {
            (to(RunPhase::Failed), RunAction::Abort)
        } else if target_exists {
            (to(RunPhase::Scanning), RunAction::ScanBoth)
        } else if state.dry_run {
            (to(RunPhase::Scanning), RunAction::ScanLocal)
        } else {
            (to(RunPhase::Scanning), RunAction::CreateTarget)
        },
        (RunPhase::Scanning, RunEvent::TargetCreated) => (to(RunPhase::Scanning), RunAction::ScanBoth),
        (RunPhase::Scanning, RunEvent::Scanned) => (to(RunPhase::Diffing), RunAction::ComputeChanges),
        (RunPhase::Diffing, RunEvent::Diffed) => (to(RunPhase::Planning), RunAction::BuildPlan),
        (RunPhase::Planning, RunEvent::Planned { entries }) => if entries > 0 {
            (to(RunPhase::Executing), RunAction::ExecuteEntry)
        } else if state.dry_run {
            (to(RunPhase::Idle), RunAction::Finish)
        } else {
            (to(RunPhase::Persisting), RunAction::SaveScans)
        },
        (RunPhase::Executing, RunEvent::EntryDone) => (to(RunPhase::Executing), RunAction::ExecuteEntry),
        (RunPhase::Executing, RunEvent::EntryFailed) => (to(RunPhase::Executing), RunAction::ExecuteEntry),
        (RunPhase::Executing, RunEvent::Executed) => if state.dry_run {
            (to(RunPhase::Idle), RunAction::Finish)
        } else {
            (to(RunPhase::Persisting), RunAction::Rescan)
        },
        (RunPhase::Persisting, RunEvent::Rescanned) => (to(RunPhase::Persisting), RunAction::SaveShared),
        (RunPhase::Persisting, RunEvent::Saved) => (to(RunPhase::Idle), RunAction::Finish),
        _ => (to(RunPhase::Failed), RunAction::Abort),
    }
}

/// A run that has not started.
pub fn new_run(dry_run: bool) -> (state: RunState)
    ensures
        state == (RunState { phase: RunPhase::Idle, dry_run }),
{
    RunState { phase: RunPhase::Idle, dry_run }
}

/// One step of the sync of one mapping: the state after `event`, and what the
/// driver does next.
pub fn sync_one_mapping(state: RunState, event: RunEvent) -> (next: (RunState, RunAction))
    ensures
        next == run_step(state, event),
{
    let dry_run = state.dry_run;
    let (phase, action) = match state.phase {
        RunPhase::Idle => match event {
            RunEvent::Start { local_is_dir, target_exists } => {
                if !local_is_dir {
                    (RunPhase::Failed, RunAction::Abort)
                } else if target_exists {
                    (RunPhase::Scanning, RunAction::ScanBoth)
                } else if dry_run {
                    (RunPhase::Scanning, RunAction::ScanLocal)
                } else {
                    (RunPhase::Scanning, RunAction::CreateTarget)
                }
            },
            _ => (RunPhase::Failed, RunAction::Abort),
        },
        RunPhase::Scanning => match event {
            RunEvent::TargetCreated => (RunPhase::Scanning, RunAction::ScanBoth),
            RunEvent::Scanned => (RunPhase::Diffing, RunAction::ComputeChanges),
            _ => (RunPhase::Failed, RunAction::Abort),
        },
        RunPhase::Diffing => match event {
            RunEvent::Diffed => (RunPhase::Planning, RunAction::BuildPlan),
            _ => (RunPhase::Failed, RunAction::Abort),
        },
        RunPhase::Planning => match event {
            RunEvent::Planned { entries } => {
                if entries > 0 {
                    (RunPhase::Executing, RunAction::ExecuteEntry)
                } else if dry_run {
                    (RunPhase::Idle, RunAction::Finish)
                } else {
                    (RunPhase::Persisting, RunAction::SaveScans)
                }
            },
            _ => (RunPhase::Failed, RunAction::Abort),
        },
        RunPhase::Executing => match event {
            RunEvent::EntryDone => (RunPhase::Executing, RunAction::ExecuteEntry),
            RunEvent::EntryFailed => (RunPhase::Executing, RunAction::ExecuteEntry),
            RunEvent::Executed => {
                if dry_run {
                    (RunPhase::Idle, RunAction::Finish)
                } else {
                    (RunPhase::Persisting, RunAction::Rescan)
                }
            },
            _ => (RunPhase::Failed, RunAction::Abort),
        },
        RunPhase::Persisting => match event {
            RunEvent::Rescanned => (RunPhase::Persisting, RunAction::SaveShared),
            RunEvent::Saved => (RunPhase::Idle, RunAction::Finish),
            _ => (RunPhase::Failed, RunAction::Abort),
        },
        RunPhase::Failed => (RunPhase::Failed, RunAction::Abort),
    };
    (RunState { phase, dry_run }, action)
}

/// A failed run stays failed, whatever happens.
pub proof fn lemma_failed_is_final(state: RunState, event: RunEvent)
    requires
        state.phase == RunPhase::Failed,
    ensures
        run_step(state, event).0.phase == RunPhase::Failed,
        run_step(state, event).1 == RunAction::Abort,
{
}

/// A fatal failure ends a run in any phase.
pub proof fn lemma_fatal_fails_from_anywhere(state: RunState)
    ensures
        run_step(state, RunEvent::Fatal).0.phase == RunPhase::Failed,
{
}

/// The failure of one entry leaves the run executing: it goes on with the next entry.
pub proof fn lemma_entry_failure_is_not_fatal(state: RunState)
    requires
        state.phase == RunPhase::Executing,
    ensures
        run_step(state, RunEvent::EntryFailed) == (state, RunAction::ExecuteEntry),
{
}

/// A run whose local root is no directory fails at its start, before it asks for
/// anything to be created, scanned or written.
pub proof fn lemma_bad_root_fails_first(state: RunState, target_exists: bool)
    ensures
        run_step(state, RunEvent::Start { local_is_dir: false, target_exists }) == (
            RunState { phase: RunPhase::Failed, dry_run: state.dry_run },
            RunAction::Abort,
        ),
{
}

/// A dry run never writes: no step takes it into persisting, and no step asks for
/// a folder to be created or for snapshots to be saved.
pub proof fn lemma_dry_run_writes_nothing(state: RunState, event: RunEvent)
    requires
        state.dry_run,
        state.phase != RunPhase::Persisting,
    ensures
        run_step(state, event).0.dry_run,
        run_step(state, event).0.phase != RunPhase::Persisting,
        run_step(state, event).1 != RunAction::CreateTarget,
        run_step(state, event).1 != RunAction::SaveScans,
        run_step(state, event).1 != RunAction::SaveShared,
        run_step(state, event).1 != RunAction::Rescan,
{
}

/// A changeset in the path order binds each of its paths once, so indexing it by
/// path loses nothing.
pub proof fn lemma_index_of_ascending(changes: Seq<FileChange>)
    requires
        ascending(change_pairs(changes)),
    ensures
        index_changes(changes) == pairs_to_map(change_pairs(changes)),
    decreases changes.len(),
{
    let pairs = change_pairs(changes);
    if changes.len() == 0 {
        assert(pairs_to_map(pairs) =~= Map::empty());
    } else {
        let front = changes.drop_last();
        let front_pairs = change_pairs(front);
        assert(front_pairs =~= pairs.drop_last());
        assert forall|i: int, j: int| 0 <= i < j < front_pairs.len() implies crate::order::path_lt(
            #[trigger] front_pairs[i].0,
            #[trigger] front_pairs[j].0,
        ) by {
            assert(front_pairs[i] == pairs[i] && front_pairs[j] == pairs[j]);
        }
        lemma_index_of_ascending(front);
        let last = pairs.last();
        assert forall|i: int| 0 <= i < front_pairs.len() implies crate::order::path_lt(
            #[trigger] front_pairs[i].0,
            last.0,
        ) by {
            assert(front_pairs[i] == pairs[i]);
        }
        lemma_pairs_insert(front_pairs, front_pairs.len() as int, last.0, last.1);
        assert(front_pairs.insert(front_pairs.len() as int, last) =~= pairs);
    }
}

/// Plans the sync of one mapping from its base snapshot and a fresh scan of either
/// side: one entry for each path that needs an action, in the path order. Where
/// both sides hold the same content and the base is what a completed sync of them
/// leaves behind, the plan is empty.
pub fn plan_sync(base: &Snapshot, local: &Snapshot, ssd: &Snapshot) -> (plan: SyncPlan)
    ensures
        ascending(plan.pairs()),
        pairs_to_map(plan.pairs()) == sync_plan_of(base.entries(), local.entries(), ssd.entries()),
        agree(local.entries(), ssd.entries()) && base.entries() == shared_base(local.entries(), ssd.entries())
            ==> plan.actions@.len() == 0,
{
    let local_changes = compute_changes(base, local);
    let ssd_changes = compute_changes(base, ssd);
    proof {
        lemma_index_of_ascending(local_changes@);
        lemma_index_of_ascending(ssd_changes@);
    }
    let plan = build_sync_plan(local_changes.as_slice(), ssd_changes.as_slice());
    proof {
        if agree(local.entries(), ssd.entries()) && base.entries() == shared_base(
            local.entries(),
            ssd.entries(),
        ) {
            lemma_agreeing_sides_need_no_sync(local.entries(), ssd.entries());
            lemma_empty_map_has_no_pairs(plan.pairs());
        }
    }
    plan
}

/// The base of the next sync, from the scans taken after this one: the local
/// entries at the paths that the secondary side holds too, stamped with the instant
/// `at`. A path that only one side holds is left out, so that the next sync sees it
/// as added there and not as deleted on the other side.
pub fn next_base(local_after: Snapshot, ssd_after: &Snapshot, at: Timestamp) -> (base: Snapshot)
    ensures
        base.sync_folder == local_after.sync_folder,
        base.machine == local_after.machine,
        base.synced_at == at,
        base.entries() == shared_base(local_after.entries(), ssd_after.entries()),
{
    let mut base = local_after;
    base.retain_shared(ssd_after);
    base.touch(at);
    base
}

/// Whether a run is entered in the sync log: only a run that changed something.
pub fn is_logged(dry_run: bool, total_actions: usize) -> (logged: bool)
    ensures
        logged == (!dry_run && total_actions > 0),
{
    !dry_run && total_actions > 0
}

/// The decimal digit for `d`.
pub open spec fn digit_char(d: int) -> char {
    if d == 0 {
        '0'
    } else if d == 1 {
        '1'
    } else if d == 2 {
        '2'
    } else if d == 3 {
        '3'
    } else if d == 4 {
        '4'
    } else if d == 5 {
        '5'
    } else if d == 6 {
        '6'
    } else if d == 7 {
        '7'
    } else if d == 8 {
        '8'
    } else {
        '9'
    }
}

/// The decimal digits of `n`, without leading zeros.
pub open spec fn decimal(n: nat) -> Seq<char>
    decreases n,
{
    if n < 10 {
        seq![digit_char(n as int)]
    } else {
        decimal(n / 10).push(digit_char((n % 10) as int))
    }
}

/// The decimal digit for `d`.
fn digit(d: usize) -> (c: char)
    requires
        d < 10,
    ensures
        c == digit_char(d as int),
{
    if d == 0 {
        '0'
    } else if d == 1 {
        '1'
    } else if d == 2 {
        '2'
    } else if d == 3 {
        '3'
    } else if d == 4 {
        '4'
    } else if d == 5 {
        '5'
    } else if d == 6 {
        '6'
    } else if d == 7 {
        '7'
    } else if d == 8 {
        '8'
    } else {
        '9'
    }
}

/// Appends the decimal digits of `n` to `out`.
pub fn push_decimal(out: &mut String, n: usize)
    ensures
        final(out)@ == old(out)@ + decimal(n as nat),
    decreases n,
{
    if n >= 10 {
        push_decimal(out, n / 10);
    }
    push_char(out, digit(n % 10));
    assert(out@ =~= old(out)@ + decimal(n as nat));
}

/// The line of the sync log for a run: `[<stamp>] machine=<id> actions=<count>`.
pub open spec fn log_line(stamp: Seq<char>, machine: Seq<char>, actions: nat) -> Seq<char> {
    "["@ + stamp + "] machine="@ + machine + " actions="@ + decimal(actions) + "\n"@
}

/// The line of the sync log for a run that ended at `stamp`.
pub fn sync_log_line(stamp: &str, machine: &str, actions: usize) -> (line: String)
    ensures
        line@ == log_line(stamp@, machine@, actions as nat),
{
    let mut line = "[".to_string();
    line.append(stamp);
    line.append("] machine=");
    line.append(machine);
    line.append(" actions=");
    push_decimal(&mut line, actions);
    line.append("\n");
    line
}

/// The line of the sync log for a run that ended at the instant `at`.
pub fn sync_log_entry(at: Timestamp, machine: &str, actions: usize) -> (line: String)
    ensures
        line@ == log_line(at.log_text(), machine@, actions as nat),
{
    let stamp = at.log_stamp();
    sync_log_line(stamp.as_str(), machine, actions)
}

/// Where the last `limit` of `lines` lines begin.
pub fn tail_start(lines: usize, limit: usize) -> (start: usize)
    ensures
        start == (if lines > limit {
            lines - limit
        } else {
            0
        }),
{
    if lines > limit {
        lines - limit
    } else {
        0
    }
}

} // verus!
