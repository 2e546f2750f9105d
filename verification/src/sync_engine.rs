//! Executing a sync plan: which file operations each entry calls for, how conflicts
//! are resolved, and how the outcome of each entry is tallied.
//!
//! The engine decides and keeps the books. Whoever drives it performs the file
//! operations it hands out, one entry at a time and in the order of the plan, and
//! reports for each entry whether they succeeded.

use vstd::prelude::*;
use vstd::string::StringExecFns;
use crate::clock::Timestamp;
use crate::config::ConflictStrategy;
use crate::diff::ConflictInfo;
use crate::diff::PlannedView;
use crate::diff::SyncAction;
use crate::diff::SyncPlan;
use crate::diff::SyncPlanEntry;
use crate::pathmap::PathMap;
use crate::paths::conflict_name;
use crate::paths::conflict_path;
use crate::paths::parent;
use crate::paths::parent_of;

verus! {

/// One of the two trees that a sync brings together.
#[derive(Debug, Clone, Copy, PartialEq, Eq, Structural)]
pub enum Side {
    Local,
    Ssd,
}

impl Side {
    /// The other tree.
    pub open spec fn spec_other(self) -> Side {
        match self {
            Side::Local => Side::Ssd,
            Side::Ssd => Side::Local,
        }
    }

    /// The other tree.
    #[verifier::when_used_as_spec(spec_other)]
    pub fn other(self) -> (side: Side)
        ensures
            side == self.spec_other(),
    {
        match self {
            Side::Local => Side::Ssd,
            Side::Ssd => Side::Local,
        }
    }
}

/// One file operation, on paths relative to the root of a tree.
#[derive(Debug, PartialEq, Eq)]
pub enum FileOp {
    /// Create the directory `path` and its parents in the tree `side`.
    CreateDir { side: Side, path: String },
    /// Copy the file `source` of the tree `from` over `target` in the other tree,
    /// creating the parents of `target` first.
    CopyFile { from: Side, source: String, target: String },
    /// Remove the directory `path` from the tree `side` if it is still empty.
    DeleteDir { side: Side, path: String },
    /// Remove the file `path` from the tree `side`, and then each directory above it
    /// that this leaves empty, up to the root.
    DeleteFile { side: Side, path: String },
    /// Rename the file `source` to `target` within the tree `side`, creating the
    /// parents of `target` first.
    MoveFile { side: Side, source: String, target: String },
}

/// A file operation with its paths as plain characters.
pub enum FileOpView {
    CreateDir { side: Side, path: Seq<char> },
    CopyFile { from: Side, source: Seq<char>, target: Seq<char> },
    DeleteDir { side: Side, path: Seq<char> },
    DeleteFile { side: Side, path: Seq<char> },
    MoveFile { side: Side, source: Seq<char>, target: Seq<char> },
}

impl View for FileOp {
    type V = FileOpView;

    open spec fn view(&self) -> FileOpView {
        match *self {
            FileOp::CreateDir { side, path } => FileOpView::CreateDir { side, path: path@ },
            FileOp::CopyFile { from, source, target } => FileOpView::CopyFile {
                from,
                source: source@,
                target: target@,
            },
            FileOp::DeleteDir { side, path } => FileOpView::DeleteDir { side, path: path@ },
            FileOp::DeleteFile { side, path } => FileOpView::DeleteFile { side, path: path@ },
            FileOp::MoveFile { side, source, target } => FileOpView::MoveFile {
                side,
                source: source@,
                target: target@,
            },
        }
    }
}

/// The operations of a list, each by its view.
pub open spec fn op_views(ops: Seq<FileOp>) -> Seq<FileOpView> {
    ops.map_values(|op: FileOp| op@)
}

/// What is on disk at a conflicting path when its turn comes, on either side:
/// whether the path exists, and its modification time in seconds since the epoch,
/// zero where it could not be read.
#[derive(Debug, Clone, Copy, PartialEq, Eq, Structural)]
pub struct PathFacts {
    pub local_exists: bool,
    pub ssd_exists: bool,
    pub local_mtime: u64,
    pub ssd_mtime: u64,
}

/// Copying `path` from the tree `from` to the same path in the other tree.
pub open spec fn copy_across(from: Side, path: Seq<char>) -> FileOpView {
    FileOpView::CopyFile { from, source: path, target: path }
}

/// The operations of an entry that is no conflict: a copy or a deletion on the side
/// that lags behind, of a directory or of a file.
pub open spec fn direct_ops(action: SyncAction, is_dir: bool, path: Seq<char>) -> Seq<FileOpView> {
    match action {
        SyncAction::CopyToSsd => if is_dir {
            seq![FileOpView::CreateDir { side: Side::Ssd, path }]
        } else {
            seq![copy_across(Side::Local, path)]
        },
        SyncAction::CopyToLocal => if is_dir {
            seq![FileOpView::CreateDir { side: Side::Local, path }]
        } else {
            seq![copy_across(Side::Ssd, path)]
        },
        SyncAction::DeleteFromSsd => if is_dir {
            seq![FileOpView::DeleteDir { side: Side::Ssd, path }]
        } else {
            seq![FileOpView::DeleteFile { side: Side::Ssd, path }]
        },
        SyncAction::DeleteFromLocal => if is_dir {
            seq![FileOpView::DeleteDir { side: Side::Local, path }]
        } else {
            seq![FileOpView::DeleteFile { side: Side::Local, path }]
        },
        SyncAction::Conflict(_) => Seq::empty(),
    }
}

/// Whether the path exists on `side`.
pub open spec fn exists_on(facts: PathFacts, side: Side) -> bool {
    match side {
        Side::Local => facts.local_exists,
        Side::Ssd => facts.ssd_exists,
    }
}

/// The operations that let `winner` prevail: its file is copied over the other
/// side's, or, where the winner has no such file any more, the other side's is deleted.
pub open spec fn winner_ops(winner: Side, path: Seq<char>, facts: PathFacts) -> Seq<FileOpView> {
    if exists_on(facts, winner) {
        seq![copy_across(winner, path)]
    } else {
        seq![FileOpView::DeleteFile { side: winner.spec_other(), path }]
    }
}

/// The side whose file was modified last; the local side where both were modified
/// in the same second.
pub open spec fn newer_side(facts: PathFacts) -> Side {
    if facts.local_mtime >= facts.ssd_mtime {
        Side::Local
    } else {
        Side::Ssd
    }
}

/// The operations that keep both versions. Where both sides hold the file, the local
/// version moves to its conflict name, the secondary version is copied to the
/// local path that this frees, and the conflict copy is copied to the secondary
/// side: both versions then exist on both sides. Where only one side still holds the file,
/// that version is copied to the other side. Where neither does, nothing is done.
pub open spec fn keep_both_ops(path: Seq<char>, machine: Seq<char>, stamp: Seq<char>, facts: PathFacts) -> Seq<
    FileOpView,
> {
    let kept = conflict_path(path, machine, stamp);
    if facts.local_exists && facts.ssd_exists {
        seq![
            FileOpView::MoveFile { side: Side::Local, source: path, target: kept },
            copy_across(Side::Ssd, path),
            FileOpView::CopyFile { from: Side::Local, source: kept, target: kept },
        ]
    } else if facts.local_exists {
        seq![copy_across(Side::Local, path)]
    } else if facts.ssd_exists {
        seq![copy_across(Side::Ssd, path)]
    } else {
        Seq::empty()
    }
}

/// The operations that resolve a conflict at `path` under `strategy`.
pub open spec fn conflict_ops(
    strategy: ConflictStrategy,
    path: Seq<char>,
    machine: Seq<char>,
    stamp: Seq<char>,
    facts: PathFacts,
) -> Seq<FileOpView> {
    match strategy {
        ConflictStrategy::Both => keep_both_ops(path, machine, stamp, facts),
        ConflictStrategy::Ask => keep_both_ops(path, machine, stamp, facts),
        ConflictStrategy::LocalWins => winner_ops(Side::Local, path, facts),
        ConflictStrategy::SsdWins => winner_ops(Side::Ssd, path, facts),
        ConflictStrategy::NewerWins => winner_ops(newer_side(facts), path, facts),
    }
}

/// The operations that one plan entry calls for.
pub open spec fn entry_ops(
    strategy: ConflictStrategy,
    machine: Seq<char>,
    stamp: Seq<char>,
    path: Seq<char>,
    planned: PlannedView,
    facts: PathFacts,
) -> Seq<FileOpView> {
    if planned.action is Conflict {
        conflict_ops(strategy, path, machine, stamp, facts)
    } else {
        direct_ops(planned.action, planned.is_dir, path)
    }
}

/// The settings of one sync run.
#[derive(Debug)]
pub struct SyncEngine {
    pub machine_name: String,
    pub conflict_strategy: ConflictStrategy,
    /// Whether the run only reports what it would do.
    pub dry_run: bool,
    /// Whether progress is reported line by line.
    pub verbose: bool,
}

impl SyncEngine {
    /// An engine with the given settings.
    pub fn new(machine_name: &str, conflict_strategy: ConflictStrategy, dry_run: bool, verbose: bool) -> (engine:
        Self)
        ensures
            engine.machine_name@ == machine_name@,
            engine.conflict_strategy == conflict_strategy,
            engine.dry_run == dry_run,
            engine.verbose == verbose,
    {
        SyncEngine { machine_name: machine_name.to_string(), conflict_strategy, dry_run, verbose }
    }

    /// Whether the engine must know what is on disk at the entry's path before it
    /// can say what to do: only for a conflict, and only where anything will be done.
    pub fn needs_facts(&self, entry: &SyncPlanEntry) -> (needed: bool)
        ensures
            needed == (entry.action is Conflict && !self.dry_run),
    {
        !self.dry_run && crate::diff::is_conflict(&entry.action)
    }

    /// The operations to perform for `entry` at the instant `at`, in order; a failure
    /// of one ends the entry. A dry run performs none. A conflict name carries the
    /// stamp of `at`.
    pub fn operations_for(&self, entry: &SyncPlanEntry, facts: &PathFacts, at: Timestamp) -> (ops: Vec<FileOp>)
        ensures
            self.dry_run ==> ops@.len() == 0,
            op_views(ops@) == (if self.dry_run {
                Seq::empty()
            } else {
                entry_ops(
                    self.conflict_strategy,
                    self.machine_name@,
                    at.compact_text(),
                    entry.path@,
                    entry.planned(),
                    *facts,
                )
            }),
    {
        if self.dry_run {
            let ops: Vec<FileOp> = Vec::new();
            assert(op_views(ops@) =~= Seq::<FileOpView>::empty());
            return ops;
        }
        match &entry.action {
            SyncAction::Conflict(info) => self.handle_conflict(entry.path.as_str(), info, facts, at),
            _ => Self::direct_operations(entry),
        }
    }

    /// The operations of an entry that is no conflict.
    pub fn direct_operations(entry: &SyncPlanEntry) -> (ops: Vec<FileOp>)
        ensures
            op_views(ops@) == direct_ops(entry.action, entry.is_dir, entry.path@),
    {
        let mut ops: Vec<FileOp> = Vec::new();
        match &entry.action {
            SyncAction::CopyToSsd => {
                if entry.is_dir {
                    ops.push(FileOp::CreateDir { side: Side::Ssd, path: entry.path.clone() });
                } else {
                    ops.push(copy_file_across(Side::Local, entry.path.as_str()));
                }
            },
            SyncAction::CopyToLocal => {
                if entry.is_dir {
                    ops.push(FileOp::CreateDir { side: Side::Local, path: entry.path.clone() });
                } else {
                    ops.push(copy_file_across(Side::Ssd, entry.path.as_str()));
                }
            },
            SyncAction::DeleteFromSsd => {
                if entry.is_dir {
                    ops.push(FileOp::DeleteDir { side: Side::Ssd, path: entry.path.clone() });
                } else {
                    ops.push(FileOp::DeleteFile { side: Side::Ssd, path: entry.path.clone() });
                }
            },
            SyncAction::DeleteFromLocal => {
                if entry.is_dir {
                    ops.push(FileOp::DeleteDir { side: Side::Local, path: entry.path.clone() });
                } else {
                    ops.push(FileOp::DeleteFile { side: Side::Local, path: entry.path.clone() });
                }
            },
            SyncAction::Conflict(_) => {},
        }
        assert(op_views(ops@) =~= direct_ops(entry.action, entry.is_dir, entry.path@));
        ops
    }

    /// The operations that resolve a conflict at `rel_path` under the engine's
    /// strategy, at the instant `at`. Asking the user degrades to keeping both
    /// versions. The conflict name carries the stamp of `at`.
    pub fn handle_conflict(&self, rel_path: &str, info: &ConflictInfo, facts: &PathFacts, at: Timestamp) -> (ops:
        Vec<FileOp>)
        ensures
            op_views(ops@) == conflict_ops(
                self.conflict_strategy,
                rel_path@,
                self.machine_name@,
                at.compact_text(),
                *facts,
            ),
    {
        match self.conflict_strategy {
            ConflictStrategy::Both | ConflictStrategy::Ask => {
                let stamp = at.conflict_stamp();
                self.resolve_both(rel_path, stamp.as_str(), facts)
            },
            ConflictStrategy::LocalWins => Self::resolve_winner(Side::Local, rel_path, facts),
            ConflictStrategy::SsdWins => Self::resolve_winner(Side::Ssd, rel_path, facts),
            ConflictStrategy::NewerWins => Self::resolve_newer(rel_path, facts),
        }
    }

    /// The operations that keep both versions of `rel_path`, the local one under a
    /// conflict name that carries this machine's name and `stamp`.
    pub fn resolve_both(&self, rel_path: &str, stamp: &str, facts: &PathFacts) -> (ops: Vec<FileOp>)
        ensures
            op_views(ops@) == keep_both_ops(rel_path@, self.machine_name@, stamp@, *facts),
    {
        let mut ops: Vec<FileOp> = Vec::new();
        if facts.local_exists && facts.ssd_exists {
            let kept = conflict_name(rel_path, self.machine_name.as_str(), stamp);
            ops.push(FileOp::MoveFile { side: Side::Local, source: rel_path.to_string(), target: kept.clone() });
            ops.push(copy_file_across(Side::Ssd, rel_path));
            ops.push(FileOp::CopyFile { from: Side::Local, source: kept.clone(), target: kept });
        } else if facts.local_exists {
            ops.push(copy_file_across(Side::Local, rel_path));
        } else if facts.ssd_exists {
            ops.push(copy_file_across(Side::Ssd, rel_path));
        }
        assert(op_views(ops@) =~= keep_both_ops(rel_path@, self.machine_name@, stamp@, *facts));
        ops
    }

    /// The operations that let the side that was modified last prevail.
    pub fn resolve_newer(rel_path: &str, facts: &PathFacts) -> (ops: Vec<FileOp>)
        ensures
            op_views(ops@) == winner_ops(newer_side(*facts), rel_path@, *facts),
    {
        if facts.local_mtime >= facts.ssd_mtime {
            Self::resolve_winner(Side::Local, rel_path, facts)
        } else {
            Self::resolve_winner(Side::Ssd, rel_path, facts)
        }
    }

    /// The operations that let `winner` prevail.
    pub fn resolve_winner(winner: Side, rel_path: &str, facts: &PathFacts) -> (ops: Vec<FileOp>)
        ensures
            op_views(ops@) == winner_ops(winner, rel_path@, *facts),
    {
        let present = match winner {
            Side::Local => facts.local_exists,
            Side::Ssd => facts.ssd_exists,
        };
        let mut ops: Vec<FileOp> = Vec::new();
        if present {
            ops.push(copy_file_across(winner, rel_path));
        } else {
            ops.push(FileOp::DeleteFile { side: winner.other(), path: rel_path.to_string() });
        }
        assert(op_views(ops@) =~= winner_ops(winner, rel_path@, *facts));
        ops
    }

    /// The result of a dry run of `plan`: every entry counts as done, none as failed.
    pub fn preview(plan: &SyncPlan) -> (result: SyncResult)
        ensures
            result@ == tally(plan.actions@),
    {
        let mut result = SyncResult::new();
        let mut i: usize = 0;
        while i < plan.actions.len()
            invariant
                i <= plan.actions@.len(),
                result@ == tally(plan.actions@.take(i as int)),
                result@.handled() == i,
            decreases plan.actions@.len() - i,
        {
            assert(plan.actions@.take(i + 1).drop_last() =~= plan.actions@.take(i as int));
            result.record(&plan.actions[i], None);
            i += 1;
        }
        assert(plan.actions@.take(i as int) =~= plan.actions@);
        result
    }
}

/// Whether `dir` holds a path of the plan: it is the parent of one, and not the root.
pub open spec fn is_affected(entries: Seq<SyncPlanEntry>, dir: Seq<char>) -> bool {
    dir.len() > 0 && exists|i: int| 0 <= i < entries.len() && parent_of(#[trigger] entries[i].path@) == dir
}

/// The directories below the root that hold a path of `plan`, each once and in the
/// path order: those whose listing a file manager should refresh after the run.
pub fn affected_dirs(plan: &SyncPlan) -> (dirs: PathMap<()>)
    ensures
        dirs.wf(),
        forall|dir: Seq<char>| dirs@.contains_key(dir) <==> is_affected(plan.actions@, dir),
{
    let mut dirs: PathMap<()> = PathMap::new();
    let mut i: usize = 0;
    while i < plan.actions.len()
        invariant
            i <= plan.actions@.len(),
            dirs.wf(),
            forall|dir: Seq<char>| dirs@.contains_key(dir) <==> is_affected(plan.actions@.take(i as int), dir),
        decreases plan.actions@.len() - i,
    {
        let ghost before = dirs@;
        let ghost seen = plan.actions@.take(i as int);
        let ghost next = plan.actions@.take(i + 1);
        let dir = parent(plan.actions[i].path.as_str());
        assert(next[i as int] == plan.actions@[i as int]);
        if dir.as_str().unicode_len() > 0 {
            dirs.insert(dir, ());
        }
        assert forall|q: Seq<char>| dirs@.contains_key(q) <==> is_affected(next, q) by {
            if is_affected(seen, q) {
                let j = choose|j: int| 0 <= j < seen.len() && parent_of(#[trigger] seen[j].path@) == q;
                assert(parent_of(next[j].path@) == q);
            }
            if is_affected(next, q) {
                let j = choose|j: int| 0 <= j < next.len() && parent_of(#[trigger] next[j].path@) == q;
                if j < i {
                    assert(parent_of(seen[j].path@) == q);
                }
            }
        }
        i += 1;
    }
    assert(plan.actions@.take(i as int) =~= plan.actions@);
    dirs
}

/// The operation that copies `path` from the tree `from` to the same path in the other tree.
fn copy_file_across(from: Side, path: &str) -> (op: FileOp)
    ensures
        op@ == copy_across(from, path@),
{
    FileOp::CopyFile { from, source: path.to_string(), target: path.to_string() }
}

/// The counts of a sync, as plain numbers and texts.
pub struct SyncResultView {
    pub copied_to_ssd: nat,
    pub copied_to_local: nat,
    pub deleted_from_ssd: nat,
    pub deleted_from_local: nat,
    pub conflicts: nat,
    pub errors: Seq<Seq<char>>,
    pub total_files: nat,
}

impl SyncResultView {
    /// The number of entries that were carried out.
    pub open spec fn total_actions(self) -> nat {
        self.copied_to_ssd + self.copied_to_local + self.deleted_from_ssd + self.deleted_from_local
            + self.conflicts
    }

    /// The number of entries that were handled, with or without success.
    pub open spec fn handled(self) -> nat {
        self.total_actions() + self.errors.len()
    }
}

/// The result before any entry was handled.
pub open spec fn nothing_done() -> SyncResultView {
    SyncResultView {
        copied_to_ssd: 0,
        copied_to_local: 0,
        deleted_from_ssd: 0,
        deleted_from_local: 0,
        conflicts: 0,
        errors: Seq::empty(),
        total_files: 0,
    }
}

/// The name under which a failure of the entry is reported.
pub open spec fn failure_label(planned: PlannedView) -> Seq<char> {
    match planned.action {
        SyncAction::CopyToSsd => if planned.is_dir {
            "CreateDirSsd"@
        } else {
            "CopyToSsd"@
        },
        SyncAction::CopyToLocal => if planned.is_dir {
            "CreateDirLocal"@
        } else {
            "CopyToLocal"@
        },
        SyncAction::DeleteFromSsd => if planned.is_dir {
            "DeleteDirSsd"@
        } else {
            "DeleteFromSsd"@
        },
        SyncAction::DeleteFromLocal => if planned.is_dir {
            "DeleteDirLocal"@
        } else {
            "DeleteFromLocal"@
        },
        SyncAction::Conflict(_) => "Conflict"@,
    }
}

/// The line that reports a failed entry: `<label> <path>: <cause>`.
pub open spec fn failure_text(planned: PlannedView, path: Seq<char>, cause: Seq<char>) -> Seq<char> {
    failure_label(planned) + " "@ + path + ": "@ + cause
}

/// The result once one more entry was handled: a success adds one to the count of
/// its kind of action, a failure adds one line to the errors and counts nowhere else.
pub open spec fn recorded(
    result: SyncResultView,
    path: Seq<char>,
    planned: PlannedView,
    failure: Option<Seq<char>>,
) -> SyncResultView {
    match failure {
        Some(cause) => SyncResultView { errors: result.errors.push(failure_text(planned, path, cause)), ..result },
        None => match planned.action {
            SyncAction::CopyToSsd => SyncResultView { copied_to_ssd: result.copied_to_ssd + 1, ..result },
            SyncAction::CopyToLocal => SyncResultView { copied_to_local: result.copied_to_local + 1, ..result },
            SyncAction::DeleteFromSsd => SyncResultView {
                deleted_from_ssd: result.deleted_from_ssd + 1,
                ..result
            },
            SyncAction::DeleteFromLocal => SyncResultView {
                deleted_from_local: result.deleted_from_local + 1,
                ..result
            },
            SyncAction::Conflict(_) => SyncResultView { conflicts: result.conflicts + 1, ..result },
        },
    }
}

/// The result of a run in which every entry of `entries` succeeded.
pub open spec fn tally(entries: Seq<SyncPlanEntry>) -> SyncResultView
    decreases entries.len(),
{
    if entries.len() == 0 {
        nothing_done()
    } else {
        recorded(tally(entries.drop_last()), entries.last().path@, entries.last().planned(), None)
    }
}

/// Every handled entry is counted once: as done or as failed.
pub proof fn lemma_recorded_counts_once(
    result: SyncResultView,
    path: Seq<char>,
    planned: PlannedView,
    failure: Option<Seq<char>>,
)
    ensures
        recorded(result, path, planned, failure).handled() == result.handled() + 1,
        failure is Some ==> recorded(result, path, planned, failure).total_actions() == result.total_actions(),
        failure is None ==> recorded(result, path, planned, failure).errors == result.errors,
        recorded(result, path, planned, failure).total_files == result.total_files,
{
}

/// The counts of a sync and the errors of the entries that failed.
#[derive(Debug)]
pub struct SyncResult {
    pub(crate) copied_to_ssd: usize,
    pub(crate) copied_to_local: usize,
    pub(crate) deleted_from_ssd: usize,
    pub(crate) deleted_from_local: usize,
    pub(crate) conflicts: usize,
    pub(crate) errors: Vec<String>,
    pub(crate) total_files: usize,
}

impl View for SyncResult {
    type V = SyncResultView;

    closed spec fn view(&self) -> SyncResultView {
        SyncResultView {
            copied_to_ssd: self.copied_to_ssd as nat,
            copied_to_local: self.copied_to_local as nat,
            deleted_from_ssd: self.deleted_from_ssd as nat,
            deleted_from_local: self.deleted_from_local as nat,
            conflicts: self.conflicts as nat,
            errors: self.errors@.map_values(|e: String| e@),
            total_files: self.total_files as nat,
        }
    }
}

impl SyncResult {
    #[verifier::type_invariant]
    spec fn fits(self) -> bool {
        self@.handled() <= usize::MAX
    }

    /// The result before any entry was handled.
    pub fn new() -> (result: Self)
        ensures
            result@ == nothing_done(),
    {
        let result = SyncResult {
            copied_to_ssd: 0,
            copied_to_local: 0,
            deleted_from_ssd: 0,
            deleted_from_local: 0,
            conflicts: 0,
            errors: Vec::new(),
            total_files: 0,
        };
        assert(result@.errors =~= Seq::<Seq<char>>::empty());
        result
    }

    /// The number of entries that were carried out.
    pub fn total_actions(&self) -> (total: usize)
        ensures
            total == self@.total_actions(),
    {
        proof {
            use_type_invariant(self);
        }
        self.copied_to_ssd + self.copied_to_local + self.deleted_from_ssd + self.deleted_from_local
            + self.conflicts
    }

    /// The number of files copied to the secondary side.
    pub fn copied_to_ssd(&self) -> (n: usize)
        ensures
            n == self@.copied_to_ssd,
    {
        self.copied_to_ssd
    }

    /// The number of files copied to the local side.
    pub fn copied_to_local(&self) -> (n: usize)
        ensures
            n == self@.copied_to_local,
    {
        self.copied_to_local
    }

    /// The number of paths deleted from the secondary side.
    pub fn deleted_from_ssd(&self) -> (n: usize)
        ensures
            n == self@.deleted_from_ssd,
    {
        self.deleted_from_ssd
    }

    /// The number of paths deleted from the local side.
    pub fn deleted_from_local(&self) -> (n: usize)
        ensures
            n == self@.deleted_from_local,
    {
        self.deleted_from_local
    }

    /// The number of conflicts resolved.
    pub fn conflicts(&self) -> (n: usize)
        ensures
            n == self@.conflicts,
    {
        self.conflicts
    }

    /// The number of files in the sync folder after the run.
    pub fn total_files(&self) -> (n: usize)
        ensures
            n == self@.total_files,
    {
        self.total_files
    }

    /// The number of entries that failed.
    pub fn error_count(&self) -> (n: usize)
        ensures
            n == self@.errors.len(),
    {
        self.errors.len()
    }

    /// The report of the failed entry at position `i`.
    pub fn error(&self, i: usize) -> (line: &String)
        requires
            i < self@.errors.len(),
        ensures
            line@ == self@.errors[i as int],
    {
        &self.errors[i]
    }

    /// Sets the number of files in the sync folder after the run.
    pub fn set_total_files(&mut self, total_files: usize)
        ensures
            final(self)@ == (SyncResultView { total_files: total_files as nat, ..old(self)@ }),
    {
        proof {
            use_type_invariant(&*self);
        }
        self.total_files = total_files;
    }

    /// Records the outcome of one entry: `failure` is the cause where it failed.
    pub fn record(&mut self, entry: &SyncPlanEntry, failure: Option<&str>)
        requires
            old(self)@.handled() < usize::MAX,
        ensures
            final(self)@ == recorded(
                old(self)@,
                entry.path@,
                entry.planned(),
                match failure {
                    Some(cause) => Some(cause@),
                    None => None,
                },
            ),
    {
        proof {
            use_type_invariant(&*self);
        }
        match failure {
            Some(cause) => {
                let line = failure_line(entry, cause);
                let mut errors: Vec<String> = Vec::new();
                std::mem::swap(&mut self.errors, &mut errors);
                assert(self@.handled() <= old(self)@.handled());
                errors.push(line);
                let ghost grown = errors@;
                std::mem::swap(&mut self.errors, &mut errors);
                assert(self.errors@ == grown);
                assert(self@.errors =~= old(self)@.errors.push(
                    failure_text(entry.planned(), entry.path@, cause@),
                ));
            },
            None => {
                match &entry.action {
                    SyncAction::CopyToSsd => {
                        self.copied_to_ssd += 1;
                    },
                    SyncAction::CopyToLocal => {
                        self.copied_to_local += 1;
                    },
                    SyncAction::DeleteFromSsd => {
                        self.deleted_from_ssd += 1;
                    },
                    SyncAction::DeleteFromLocal => {
                        self.deleted_from_local += 1;
                    },
                    SyncAction::Conflict(_) => {
                        self.conflicts += 1;
                    },
                }
            },
        }
    }
}

/// The line that reports the failure of `entry`.
pub fn failure_line(entry: &SyncPlanEntry, cause: &str) -> (line: String)
    ensures
        line@ == failure_text(entry.planned(), entry.path@, cause@),
{
    let label: &str = match &entry.action {
        SyncAction::CopyToSsd => if entry.is_dir {
            "CreateDirSsd"
        } else {
            "CopyToSsd"
        },
        SyncAction::CopyToLocal => if entry.is_dir {
            "CreateDirLocal"
        } else {
            "CopyToLocal"
        },
        SyncAction::DeleteFromSsd => if entry.is_dir {
            "DeleteDirSsd"
        } else {
            "DeleteFromSsd"
        },
        SyncAction::DeleteFromLocal => if entry.is_dir {
            "DeleteDirLocal"
        } else {
            "DeleteFromLocal"
        },
        SyncAction::Conflict(_) => "Conflict",
    };
    let mut line = label.to_string();
    line.append(" ");
    line.append(entry.path.as_str());
    line.append(": ");
    line.append(cause);
    line
}

/// A plan in execution: which entry is next, and the tally of those before it.
pub struct PlanExecution {
    plan: SyncPlan,
    position: usize,
    result: SyncResult,
    outcomes: Ghost<Seq<Option<Seq<char>>>>,
}

/// The result after the first entries of `entries` were handled with `outcomes`,
/// one outcome for each: nothing for a success, the cause for a failure.
pub open spec fn result_after(entries: Seq<SyncPlanEntry>, outcomes: Seq<Option<Seq<char>>>) -> SyncResultView
    decreases outcomes.len(),
{
    if outcomes.len() == 0 || entries.len() < outcomes.len() {
        nothing_done()
    } else {
        let k = outcomes.len() - 1;
        recorded(result_after(entries, outcomes.drop_last()), entries[k].path@, entries[k].planned(), outcomes[k])
    }
}

/// After `outcomes`, as many entries are counted as outcomes were reported.
pub proof fn lemma_result_after_counts(entries: Seq<SyncPlanEntry>, outcomes: Seq<Option<Seq<char>>>)
    requires
        outcomes.len() <= entries.len(),
    ensures
        result_after(entries, outcomes).handled() == outcomes.len(),
        result_after(entries, outcomes).total_files == 0,
    decreases outcomes.len(),
{
    if outcomes.len() > 0 {
        lemma_result_after_counts(entries, outcomes.drop_last());
    }
}

/// A run in which no entry fails ends with the tally of its plan: this is what a dry
/// run reports.
pub proof fn lemma_all_done_is_tally(entries: Seq<SyncPlanEntry>, outcomes: Seq<Option<Seq<char>>>)
    requires
        outcomes.len() == entries.len(),
        forall|i: int| 0 <= i < outcomes.len() ==> outcomes[i] is None,
    ensures
        result_after(entries, outcomes) == tally(entries),
{
    lemma_done_prefix_is_tally(entries, outcomes, entries.len() as int);
    assert(outcomes.take(entries.len() as int) =~= outcomes);
    assert(entries.take(entries.len() as int) =~= entries);
}

/// The first `n` entries, all done, give the tally of those entries.
proof fn lemma_done_prefix_is_tally(entries: Seq<SyncPlanEntry>, outcomes: Seq<Option<Seq<char>>>, n: int)
    requires
        0 <= n <= outcomes.len() <= entries.len(),
        forall|i: int| 0 <= i < outcomes.len() ==> outcomes[i] is None,
    ensures
        result_after(entries, outcomes.take(n)) == tally(entries.take(n)),
    decreases n,
{
    if n > 0 {
        lemma_done_prefix_is_tally(entries, outcomes, n - 1);
        assert(outcomes.take(n).drop_last() =~= outcomes.take(n - 1));
        assert(entries.take(n).drop_last() =~= entries.take(n - 1));
        assert(entries.take(n).last() == entries[n - 1]);
        assert(outcomes.take(n)[n - 1] == outcomes[n - 1]);
    }
}

impl PlanExecution {
    /// The entries of the plan in execution.
    pub closed spec fn entries(self) -> Seq<SyncPlanEntry> {
        self.plan.actions@
    }

    /// The outcomes reported so far, in the order of the plan.
    pub closed spec fn outcomes(self) -> Seq<Option<Seq<char>>> {
        self.outcomes@
    }

    /// The tally of the entries handled so far.
    pub closed spec fn tally(self) -> SyncResultView {
        self.result@
    }

    /// The execution stands at an entry of the plan or at its end, and its tally is
    /// that of the outcomes reported so far.
    pub closed spec fn wf(self) -> bool {
        &&& self.position == self.outcomes@.len()
        &&& self.position <= self.plan.actions@.len()
        &&& self.result@ == result_after(self.plan.actions@, self.outcomes@)
    }

    /// The tally follows from the outcomes, and the entries before the current one
    /// are those with an outcome.
    pub proof fn lemma_wf(self)
        requires
            self.wf(),
        ensures
            self.outcomes().len() <= self.entries().len(),
            self.tally() == result_after(self.entries(), self.outcomes()),
            self.tally().handled() == self.outcomes().len(),
    {
        lemma_result_after_counts(self.plan.actions@, self.outcomes@);
    }

    /// Starts the execution of `plan` at its first entry.
    pub fn begin(plan: SyncPlan) -> (execution: Self)
        ensures
            execution.wf(),
            execution.entries() == plan.actions@,
            execution.outcomes().len() == 0,
    {
        PlanExecution { plan, position: 0, result: SyncResult::new(), outcomes: Ghost(Seq::empty()) }
    }

    /// The number of entries handled so far.
    pub fn position(&self) -> (n: usize)
        requires
            self.wf(),
        ensures
            n == self.outcomes().len(),
    {
        self.position
    }

    /// The number of entries of the plan.
    pub fn total(&self) -> (n: usize)
        ensures
            n == self.entries().len(),
    {
        self.plan.actions.len()
    }

    /// Whether every entry was handled.
    pub fn is_finished(&self) -> (done: bool)
        requires
            self.wf(),
        ensures
            done == (self.outcomes().len() == self.entries().len()),
    {
        self.position >= self.plan.actions.len()
    }

    /// The entry whose turn it is: the first one without an outcome.
    pub fn current(&self) -> (entry: Option<&SyncPlanEntry>)
        requires
            self.wf(),
        ensures
            match entry {
                Some(e) => self.outcomes().len() < self.entries().len() && *e == self.entries()[self.outcomes().len() as int],
                None => self.outcomes().len() == self.entries().len(),
            },
    {
        if self.position < self.plan.actions.len() {
            Some(&self.plan.actions[self.position])
        } else {
            None
        }
    }

    /// Reports the outcome of the current entry and moves on to the next. A failure
    /// is recorded and never ends the execution.
    pub fn complete_current(&mut self, failure: Option<&str>)
        requires
            old(self).wf(),
            old(self).outcomes().len() < old(self).entries().len(),
        ensures
            final(self).wf(),
            final(self).entries() == old(self).entries(),
            final(self).outcomes() == old(self).outcomes().push(
                match failure {
                    Some(cause) => Some(cause@),
                    None => None,
                },
            ),
            final(self).tally() == recorded(
                old(self).tally(),
                old(self).entries()[old(self).outcomes().len() as int].path@,
                old(self).entries()[old(self).outcomes().len() as int].planned(),
                match failure {
                    Some(cause) => Some(cause@),
                    None => None,
                },
            ),
    {
        let ghost outcome = match failure {
            Some(cause) => Some(cause@),
            None => None,
        };
        proof {
            lemma_result_after_counts(self.plan.actions@, self.outcomes@);
            assert(self.outcomes@.push(outcome).drop_last() =~= self.outcomes@);
        }
        let total = self.plan.actions.len();
        assert(self.position < total);
        self.result.record(&self.plan.actions[self.position], failure);
        self.position += 1;
        self.outcomes = Ghost(self.outcomes@.push(outcome));
    }

    /// Ends the execution and hands out the plan and the tally.
    pub fn finish(self) -> (done: (SyncPlan, SyncResult))
        requires
            self.wf(),
        ensures
            done.0.actions@ == self.entries(),
            done.1@ == self.tally(),
            done.1@ == result_after(self.entries(), self.outcomes()),
    {
        (self.plan, self.result)
    }
}

} // verus!
