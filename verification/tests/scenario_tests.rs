use std::collections::BTreeMap;

use ssd_syncer::clock::Timestamp;
use ssd_syncer::config::ConflictStrategy;
use ssd_syncer::diff::{build_sync_plan, compute_changes, SyncAction, SyncPlan};
use ssd_syncer::ignore::IgnoreMatcher;
use ssd_syncer::paths::ancestor_dirs;
use ssd_syncer::run::{
    is_logged, new_run, next_base, plan_sync, push_decimal, sync_log_entry, sync_log_line, sync_one_mapping,
    tail_start, RunAction, RunEvent, RunPhase, RunState,
};
use ssd_syncer::scanner::ScanBuilder;
use ssd_syncer::snapshot::Snapshot;
use ssd_syncer::sync_engine::{FileOp, PathFacts, PlanExecution, Side, SyncEngine, SyncResult};

const T0: Timestamp = Timestamp { secs: 0, nanos: 0 };
const NOON: Timestamp = Timestamp { secs: 1_704_164_645, nanos: 0 };

/// Two directory trees held in memory: path to content, and the set of directories.
struct Trees {
    local: BTreeMap<String, Vec<u8>>,
    ssd: BTreeMap<String, Vec<u8>>,
    local_dirs: Vec<String>,
    ssd_dirs: Vec<String>,
}

impl Trees {
    fn new() -> Self {
        Trees { local: BTreeMap::new(), ssd: BTreeMap::new(), local_dirs: vec![], ssd_dirs: vec![] }
    }

    fn files(&mut self, side: Side) -> &mut BTreeMap<String, Vec<u8>> {
        match side {
            Side::Local => &mut self.local,
            Side::Ssd => &mut self.ssd,
        }
    }

    fn dirs(&mut self, side: Side) -> &mut Vec<String> {
        match side {
            Side::Local => &mut self.local_dirs,
            Side::Ssd => &mut self.ssd_dirs,
        }
    }

    fn make_dirs(&mut self, side: Side, path: &str) {
        if path.is_empty() {
            return;
        }
        let mut all = ancestor_dirs(path);
        all.push(path.to_string());
        for d in all {
            if !self.dirs(side).contains(&d) {
                self.dirs(side).push(d);
            }
        }
    }

    fn is_empty_dir(&mut self, side: Side, dir: &str) -> bool {
        let prefix = format!("{}/", dir);
        !self.files(side).keys().any(|k| k.starts_with(&prefix))
            && !self.dirs(side).iter().any(|d| d.starts_with(&prefix))
    }

    fn apply(&mut self, op: &FileOp) -> Result<(), String> {
        match op {
            FileOp::CreateDir { side, path } => {
                self.make_dirs(*side, path);
                Ok(())
            }
            FileOp::CopyFile { from, source, target } => {
                let content = match self.files(*from).get(source) {
                    Some(c) => c.clone(),
                    None => return Err(format!("no such file: {}", source)),
                };
                let to = from.other();
                for d in ancestor_dirs(target) {
                    if !self.dirs(to).contains(&d) {
                        self.dirs(to).push(d);
                    }
                }
                self.files(to).insert(target.clone(), content);
                Ok(())
            }
            FileOp::DeleteDir { side, path } => {
                if self.dirs(*side).contains(path) && self.is_empty_dir(*side, path) {
                    self.dirs(*side).retain(|d| d != path);
                }
                Ok(())
            }
            FileOp::DeleteFile { side, path } => {
                if self.files(*side).remove(path).is_some() {
                    for d in ancestor_dirs(path) {
                        if self.is_empty_dir(*side, &d) {
                            self.dirs(*side).retain(|x| x != &d);
                        } else {
                            break;
                        }
                    }
                }
                Ok(())
            }
            FileOp::MoveFile { side, source, target } => {
                let content = match self.files(*side).remove(source) {
                    Some(c) => c,
                    None => return Err(format!("no such file: {}", source)),
                };
                self.files(*side).insert(target.clone(), content);
                Ok(())
            }
        }
    }

    fn scan(&mut self, side: Side, ignore: &IgnoreMatcher) -> Snapshot {
        let mut b = ScanBuilder::new("folder", "mac", ignore, NOON);
        let dirs = self.dirs(side).clone();
        for d in dirs {
            b.visit_dir(&d);
        }
        let files = self.files(side).clone();
        for (path, content) in files {
            b.add_hashed_file(&path, content.len() as u64, 1, &content);
        }
        b.finish()
    }

    fn facts(&mut self, path: &str) -> PathFacts {
        PathFacts {
            local_exists: self.local.contains_key(path),
            ssd_exists: self.ssd.contains_key(path),
            local_mtime: 1,
            ssd_mtime: 1,
        }
    }
}

fn execute(engine: &SyncEngine, plan: SyncPlan, trees: &mut Trees) -> SyncResult {
    let mut run = PlanExecution::begin(plan);
    while !run.is_finished() {
        let entry = run.current().unwrap().clone();
        let facts = trees.facts(&entry.path);
        let ops = engine.operations_for(&entry, &facts, NOON);
        let mut failure: Option<String> = None;
        for op in &ops {
            if let Err(e) = trees.apply(op) {
                failure = Some(e);
                break;
            }
        }
        run.complete_current(failure.as_deref());
    }
    run.finish().1
}

fn sync(trees: &mut Trees, base: &Snapshot, strategy: ConflictStrategy) -> (Vec<(String, SyncAction)>, SyncResult, Snapshot) {
    let ignore = IgnoreMatcher::new(&[]);
    let local = trees.scan(Side::Local, &ignore);
    let ssd = trees.scan(Side::Ssd, &ignore);
    let plan = plan_sync(base, &local, &ssd);
    let listed: Vec<(String, SyncAction)> = plan.actions.iter().map(|e| (e.path.clone(), e.action)).collect();
    let engine = SyncEngine::new("mac", strategy, false, false);
    let result = execute(&engine, plan, trees);
    let local_after = trees.scan(Side::Local, &ignore);
    let ssd_after = trees.scan(Side::Ssd, &ignore);
    let new_base = next_base(local_after, &ssd_after, NOON);
    assert_eq!(new_base.synced_at, NOON);
    (listed, result, new_base)
}

#[test]
fn end_to_end_add() {
    let mut trees = Trees::new();
    trees.make_dirs(Side::Local, "dir");
    trees.local.insert("dir/file.txt".to_string(), b"payload".to_vec());
    let base = Snapshot::new("folder", "mac", T0);
    let (plan, result, new_base) = sync(&mut trees, &base, ConflictStrategy::Both);
    assert_eq!(plan, vec![("dir/file.txt".to_string(), SyncAction::CopyToSsd)]);
    assert_eq!(result.copied_to_ssd(), 1);
    assert_eq!(result.error_count(), 0);
    assert_eq!(trees.ssd.get("dir/file.txt"), Some(&b"payload".to_vec()));
    assert!(trees.ssd_dirs.contains(&"dir".to_string()));
    assert!(new_base.files.contains_key("dir/file.txt"));
    assert_eq!(new_base.files.len(), 1);
}

#[test]
fn deletion_propagates_and_empties_ancestors() {
    let mut trees = Trees::new();
    trees.make_dirs(Side::Local, "a/b");
    trees.make_dirs(Side::Ssd, "a/b");
    trees.local.insert("a/b/f".to_string(), b"1".to_vec());
    trees.ssd.insert("a/b/f".to_string(), b"1".to_vec());
    let ignore = IgnoreMatcher::new(&[]);
    let base = trees.scan(Side::Local, &ignore);
    trees.local.remove("a/b/f");
    trees.local_dirs.clear();
    let (plan, result, new_base) = sync(&mut trees, &base, ConflictStrategy::Both);
    assert_eq!(plan, vec![("a/b/f".to_string(), SyncAction::DeleteFromSsd)]);
    assert_eq!(result.deleted_from_ssd(), 1);
    assert!(trees.ssd.is_empty());
    assert!(trees.ssd_dirs.is_empty());
    assert_eq!(new_base.files.len(), 0);
}

#[test]
fn deletion_stops_at_the_first_directory_that_holds_something() {
    let mut trees = Trees::new();
    for side in [Side::Local, Side::Ssd] {
        trees.make_dirs(side, "a/b");
        trees.files(side).insert("a/b/f".to_string(), b"1".to_vec());
        trees.files(side).insert("a/keep".to_string(), b"2".to_vec());
    }
    let ignore = IgnoreMatcher::new(&[]);
    let base = trees.scan(Side::Local, &ignore);
    trees.local.remove("a/b/f");
    trees.local_dirs.retain(|d| d != "a/b");
    let (plan, result, new_base) = sync(&mut trees, &base, ConflictStrategy::Both);
    assert_eq!(plan, vec![("a/b/f".to_string(), SyncAction::DeleteFromSsd)]);
    assert_eq!(result.deleted_from_ssd(), 1);
    assert!(!trees.ssd.contains_key("a/b/f"));
    assert_eq!(trees.ssd_dirs, vec!["a".to_string()]);
    assert!(trees.ssd.contains_key("a/keep"));
    assert_eq!(new_base.files.len(), 1);
    assert!(new_base.files.contains_key("a/keep"));
}

#[test]
fn both_strategy_preserves_both_versions() {
    let mut trees = Trees::new();
    trees.local.insert("a.txt".to_string(), b"X".to_vec());
    trees.ssd.insert("a.txt".to_string(), b"Y".to_vec());
    let base = Snapshot::new("folder", "mac", T0);
    let (plan, result, _) = sync(&mut trees, &base, ConflictStrategy::Both);
    assert_eq!(plan.len(), 1);
    assert_eq!(plan[0].0, "a.txt");
    assert!(matches!(plan[0].1, SyncAction::Conflict(_)));
    assert_eq!(result.conflicts(), 1);
    assert_eq!(result.error_count(), 0);
    assert_eq!(trees.local.get("a.txt"), Some(&b"Y".to_vec()));
    assert_eq!(trees.ssd.get("a.txt"), Some(&b"Y".to_vec()));
    assert_eq!(trees.local.len(), 2);
    assert_eq!(trees.ssd.len(), 2);
    let kept = "a.conflict.mac.20240102030405.txt";
    assert_eq!(trees.local.get(kept), Some(&b"X".to_vec()));
    assert_eq!(trees.ssd.get(kept), Some(&b"X".to_vec()));
}

#[test]
fn second_sync_has_an_empty_plan() {
    let mut trees = Trees::new();
    trees.local.insert("only-local.txt".to_string(), b"1".to_vec());
    trees.ssd.insert("only-ssd.txt".to_string(), b"2".to_vec());
    trees.local.insert("both.txt".to_string(), b"3".to_vec());
    trees.ssd.insert("both.txt".to_string(), b"3".to_vec());
    trees.local.insert("clash.txt".to_string(), b"L".to_vec());
    trees.ssd.insert("clash.txt".to_string(), b"S".to_vec());
    let base = Snapshot::new("folder", "mac", T0);
    let (first, result, new_base) = sync(&mut trees, &base, ConflictStrategy::Both);
    assert_eq!(first.len(), 3);
    assert_eq!(result.total_actions(), 3);
    let (second, again, _) = sync(&mut trees, &new_base, ConflictStrategy::Both);
    assert!(second.is_empty());
    assert_eq!(again.total_actions(), 0);
}

#[test]
fn independent_identical_additions_converge() {
    let mut trees = Trees::new();
    trees.local.insert("same.txt".to_string(), b"same".to_vec());
    trees.ssd.insert("same.txt".to_string(), b"same".to_vec());
    let base = Snapshot::new("folder", "mac", T0);
    let (plan, result, new_base) = sync(&mut trees, &base, ConflictStrategy::Both);
    assert!(plan.is_empty());
    assert_eq!(result.total_actions(), 0);
    assert!(new_base.files.contains_key("same.txt"));
}

#[test]
fn diverging_edits_are_a_conflict() {
    let mut trees = Trees::new();
    trees.local.insert("f".to_string(), b"base".to_vec());
    trees.ssd.insert("f".to_string(), b"base".to_vec());
    let ignore = IgnoreMatcher::new(&[]);
    let base = trees.scan(Side::Local, &ignore);
    trees.local.insert("f".to_string(), b"local edit".to_vec());
    trees.ssd.insert("f".to_string(), b"ssd edit".to_vec());
    let local = trees.scan(Side::Local, &ignore);
    let ssd = trees.scan(Side::Ssd, &ignore);
    let plan = build_sync_plan(&compute_changes(&base, &local), &compute_changes(&base, &ssd));
    assert_eq!(plan.actions.len(), 1);
    assert!(plan.has_conflicts());
    assert!(matches!(plan.actions[0].action, SyncAction::Conflict(_)));
}

#[test]
fn failed_entries_are_reported_and_the_run_goes_on() {
    let mut trees = Trees::new();
    trees.local.insert("a".to_string(), b"1".to_vec());
    trees.local.insert("b".to_string(), b"2".to_vec());
    let ignore = IgnoreMatcher::new(&[]);
    let base = Snapshot::new("folder", "mac", T0);
    let local = trees.scan(Side::Local, &ignore);
    let ssd = trees.scan(Side::Ssd, &ignore);
    let plan = plan_sync(&base, &local, &ssd);
    trees.local.remove("a");
    let engine = SyncEngine::new("mac", ConflictStrategy::Both, false, false);
    let result = execute(&engine, plan, &mut trees);
    assert_eq!(result.copied_to_ssd(), 1);
    assert_eq!(result.error_count(), 1);
    assert_eq!(result.error(0), "CopyToSsd a: no such file: a");
    assert!(trees.ssd.contains_key("b"));
}

#[test]
fn dry_run_changes_nothing_and_counts_everything() {
    let mut trees = Trees::new();
    trees.local.insert("a".to_string(), b"1".to_vec());
    trees.ssd.insert("b".to_string(), b"2".to_vec());
    let ignore = IgnoreMatcher::new(&[]);
    let base = Snapshot::new("folder", "mac", T0);
    let local = trees.scan(Side::Local, &ignore);
    let ssd = trees.scan(Side::Ssd, &ignore);
    let plan = plan_sync(&base, &local, &ssd);
    let engine = SyncEngine::new("mac", ConflictStrategy::Both, true, false);
    let result = execute(&engine, plan, &mut trees);
    assert_eq!(result.copied_to_ssd(), 1);
    assert_eq!(result.copied_to_local(), 1);
    assert_eq!(trees.local.len(), 1);
    assert_eq!(trees.ssd.len(), 1);
}

fn step(state: RunState, event: RunEvent) -> (RunPhase, RunAction) {
    let (next, action) = sync_one_mapping(state, event);
    assert_eq!(next.dry_run, state.dry_run);
    (next.phase, action)
}

fn at(phase: RunPhase, dry_run: bool) -> RunState {
    RunState { phase, dry_run }
}

#[test]
fn run_goes_through_its_phases() {
    let s = new_run(false);
    assert_eq!(s, at(RunPhase::Idle, false));
    let start = RunEvent::Start { local_is_dir: true, target_exists: true };
    assert_eq!(step(s, start), (RunPhase::Scanning, RunAction::ScanBoth));
    assert_eq!(step(at(RunPhase::Scanning, false), RunEvent::Scanned), (RunPhase::Diffing, RunAction::ComputeChanges));
    assert_eq!(step(at(RunPhase::Diffing, false), RunEvent::Diffed), (RunPhase::Planning, RunAction::BuildPlan));
    assert_eq!(
        step(at(RunPhase::Planning, false), RunEvent::Planned { entries: 2 }),
        (RunPhase::Executing, RunAction::ExecuteEntry)
    );
    assert_eq!(step(at(RunPhase::Executing, false), RunEvent::EntryDone), (RunPhase::Executing, RunAction::ExecuteEntry));
    assert_eq!(step(at(RunPhase::Executing, false), RunEvent::Executed), (RunPhase::Persisting, RunAction::Rescan));
    assert_eq!(step(at(RunPhase::Persisting, false), RunEvent::Rescanned), (RunPhase::Persisting, RunAction::SaveShared));
    assert_eq!(step(at(RunPhase::Persisting, false), RunEvent::Saved), (RunPhase::Idle, RunAction::Finish));
}

#[test]
fn run_checks_the_root_and_prepares_the_target_first() {
    for dry_run in [false, true] {
        for target_exists in [false, true] {
            let bad = RunEvent::Start { local_is_dir: false, target_exists };
            assert_eq!(step(at(RunPhase::Idle, dry_run), bad), (RunPhase::Failed, RunAction::Abort));
        }
    }
    let missing = RunEvent::Start { local_is_dir: true, target_exists: false };
    assert_eq!(step(at(RunPhase::Idle, false), missing), (RunPhase::Scanning, RunAction::CreateTarget));
    assert_eq!(step(at(RunPhase::Scanning, false), RunEvent::TargetCreated), (RunPhase::Scanning, RunAction::ScanBoth));
    assert_eq!(step(at(RunPhase::Idle, true), missing), (RunPhase::Scanning, RunAction::ScanLocal));
    let present = RunEvent::Start { local_is_dir: true, target_exists: true };
    assert_eq!(step(at(RunPhase::Idle, true), present), (RunPhase::Scanning, RunAction::ScanBoth));
    assert_eq!(step(at(RunPhase::Idle, false), RunEvent::TargetCreated), (RunPhase::Failed, RunAction::Abort));
}

#[test]
fn run_with_empty_plan_skips_execution() {
    assert_eq!(
        step(at(RunPhase::Planning, false), RunEvent::Planned { entries: 0 }),
        (RunPhase::Persisting, RunAction::SaveScans)
    );
    assert_eq!(step(at(RunPhase::Planning, true), RunEvent::Planned { entries: 0 }), (RunPhase::Idle, RunAction::Finish));
}

#[test]
fn dry_run_never_persists() {
    assert_eq!(step(at(RunPhase::Executing, true), RunEvent::Executed), (RunPhase::Idle, RunAction::Finish));
    assert_eq!(
        step(at(RunPhase::Planning, true), RunEvent::Planned { entries: 5 }),
        (RunPhase::Executing, RunAction::ExecuteEntry)
    );
}

#[test]
fn entry_failure_keeps_executing_and_fatal_fails() {
    assert_eq!(step(at(RunPhase::Executing, false), RunEvent::EntryFailed), (RunPhase::Executing, RunAction::ExecuteEntry));
    for phase in [
        RunPhase::Idle,
        RunPhase::Scanning,
        RunPhase::Diffing,
        RunPhase::Planning,
        RunPhase::Executing,
        RunPhase::Persisting,
        RunPhase::Failed,
    ] {
        assert_eq!(step(at(phase, false), RunEvent::Fatal), (RunPhase::Failed, RunAction::Abort));
    }
    let start = RunEvent::Start { local_is_dir: true, target_exists: true };
    assert_eq!(step(at(RunPhase::Failed, false), start), (RunPhase::Failed, RunAction::Abort));
    assert_eq!(step(at(RunPhase::Idle, false), RunEvent::Saved), (RunPhase::Failed, RunAction::Abort));
    assert_eq!(step(at(RunPhase::Scanning, false), start), (RunPhase::Failed, RunAction::Abort));
}

#[test]
fn log_lines() {
    assert_eq!(sync_log_line("2024-01-02 03:04:05 UTC", "mac", 12), "[2024-01-02 03:04:05 UTC] machine=mac actions=12\n");
    assert_eq!(sync_log_line("t", "m", 0), "[t] machine=m actions=0\n");
    let at = Timestamp { secs: 1_704_164_645, nanos: 5 };
    assert_eq!(sync_log_entry(at, "mac", 7), "[2024-01-02 03:04:05 UTC] machine=mac actions=7\n");
    assert_eq!(sync_log_entry(T0, "pc", 0), "[1970-01-01 00:00:00 UTC] machine=pc actions=0\n");
}

#[test]
fn decimal_digits() {
    for n in [0usize, 7, 9, 10, 11, 99, 100, 101, 12345, 9_000_000_009, usize::MAX] {
        let mut s = String::from("n=");
        push_decimal(&mut s, n);
        assert_eq!(s, format!("n={}", n));
    }
}

#[test]
fn log_rules() {
    assert!(is_logged(false, 1));
    assert!(!is_logged(false, 0));
    assert!(!is_logged(true, 5));
    assert_eq!(tail_start(100, 20), 80);
    assert_eq!(tail_start(20, 20), 0);
    assert_eq!(tail_start(3, 20), 0);
    assert_eq!(tail_start(0, 0), 0);
}
