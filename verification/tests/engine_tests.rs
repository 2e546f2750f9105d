use ssd_syncer::clock::Timestamp;
use ssd_syncer::config::ConflictStrategy;
use ssd_syncer::diff::{ChangeType, ConflictInfo, SyncAction, SyncPlan, SyncPlanEntry};
use ssd_syncer::sync_engine::{failure_line, FileOp, PathFacts, PlanExecution, Side, SyncEngine, SyncResult};

fn entry(path: &str, is_dir: bool, action: SyncAction) -> SyncPlanEntry {
    SyncPlanEntry { path: path.to_string(), is_dir, action }
}

fn conflict() -> SyncAction {
    SyncAction::Conflict(ConflictInfo { local_change: ChangeType::Modified, ssd_change: ChangeType::Modified })
}

fn facts(local_exists: bool, ssd_exists: bool, local_mtime: u64, ssd_mtime: u64) -> PathFacts {
    PathFacts { local_exists, ssd_exists, local_mtime, ssd_mtime }
}

fn copy(from: Side, path: &str) -> FileOp {
    FileOp::CopyFile { from, source: path.to_string(), target: path.to_string() }
}

fn engine(strategy: ConflictStrategy, dry_run: bool) -> SyncEngine {
    SyncEngine::new("mac", strategy, dry_run, false)
}

#[test]
fn engine_keeps_its_settings() {
    let e = SyncEngine::new("laptop", ConflictStrategy::NewerWins, true, true);
    assert_eq!(e.machine_name, "laptop");
    assert_eq!(e.conflict_strategy, ConflictStrategy::NewerWins);
    assert!(e.dry_run);
    assert!(e.verbose);
}

#[test]
fn sides_are_opposite() {
    assert_eq!(Side::Local.other(), Side::Ssd);
    assert_eq!(Side::Ssd.other(), Side::Local);
}

#[test]
fn direct_operations_for_files() {
    let p = "dir/f.txt";
    assert_eq!(SyncEngine::direct_operations(&entry(p, false, SyncAction::CopyToSsd)), vec![copy(Side::Local, p)]);
    assert_eq!(SyncEngine::direct_operations(&entry(p, false, SyncAction::CopyToLocal)), vec![copy(Side::Ssd, p)]);
    assert_eq!(
        SyncEngine::direct_operations(&entry(p, false, SyncAction::DeleteFromSsd)),
        vec![FileOp::DeleteFile { side: Side::Ssd, path: p.to_string() }]
    );
    assert_eq!(
        SyncEngine::direct_operations(&entry(p, false, SyncAction::DeleteFromLocal)),
        vec![FileOp::DeleteFile { side: Side::Local, path: p.to_string() }]
    );
}

#[test]
fn direct_operations_for_directories() {
    let p = "empty";
    assert_eq!(
        SyncEngine::direct_operations(&entry(p, true, SyncAction::CopyToSsd)),
        vec![FileOp::CreateDir { side: Side::Ssd, path: p.to_string() }]
    );
    assert_eq!(
        SyncEngine::direct_operations(&entry(p, true, SyncAction::CopyToLocal)),
        vec![FileOp::CreateDir { side: Side::Local, path: p.to_string() }]
    );
    assert_eq!(
        SyncEngine::direct_operations(&entry(p, true, SyncAction::DeleteFromSsd)),
        vec![FileOp::DeleteDir { side: Side::Ssd, path: p.to_string() }]
    );
    assert_eq!(
        SyncEngine::direct_operations(&entry(p, true, SyncAction::DeleteFromLocal)),
        vec![FileOp::DeleteDir { side: Side::Local, path: p.to_string() }]
    );
    assert!(SyncEngine::direct_operations(&entry(p, false, conflict())).is_empty());
}

#[test]
fn local_wins() {
    let f = facts(true, true, 0, 9);
    assert_eq!(SyncEngine::resolve_winner(Side::Local, "f", &f), vec![copy(Side::Local, "f")]);
    let gone = facts(false, true, 0, 9);
    assert_eq!(
        SyncEngine::resolve_winner(Side::Local, "f", &gone),
        vec![FileOp::DeleteFile { side: Side::Ssd, path: "f".to_string() }]
    );
}

#[test]
fn ssd_wins() {
    let f = facts(true, true, 9, 0);
    assert_eq!(SyncEngine::resolve_winner(Side::Ssd, "f", &f), vec![copy(Side::Ssd, "f")]);
    let gone = facts(true, false, 9, 0);
    assert_eq!(
        SyncEngine::resolve_winner(Side::Ssd, "f", &gone),
        vec![FileOp::DeleteFile { side: Side::Local, path: "f".to_string() }]
    );
}

#[test]
fn newer_wins_and_ties_favor_local() {
    assert_eq!(SyncEngine::resolve_newer("f", &facts(true, true, 10, 5)), vec![copy(Side::Local, "f")]);
    assert_eq!(SyncEngine::resolve_newer("f", &facts(true, true, 5, 10)), vec![copy(Side::Ssd, "f")]);
    assert_eq!(SyncEngine::resolve_newer("f", &facts(true, true, 7, 7)), vec![copy(Side::Local, "f")]);
    assert_eq!(
        SyncEngine::resolve_newer("f", &facts(false, true, 0, 0)),
        vec![FileOp::DeleteFile { side: Side::Ssd, path: "f".to_string() }]
    );
    assert_eq!(
        SyncEngine::resolve_newer("f", &facts(true, false, 1, 2)),
        vec![FileOp::DeleteFile { side: Side::Local, path: "f".to_string() }]
    );
}

#[test]
fn keep_both_when_both_exist() {
    let e = engine(ConflictStrategy::Both, false);
    let ops = e.resolve_both("docs/a.txt", "20240102030405", &facts(true, true, 1, 2));
    let kept = "docs/a.conflict.mac.20240102030405.txt".to_string();
    assert_eq!(
        ops,
        vec![
            FileOp::MoveFile { side: Side::Local, source: "docs/a.txt".to_string(), target: kept.clone() },
            copy(Side::Ssd, "docs/a.txt"),
            FileOp::CopyFile { from: Side::Local, source: kept.clone(), target: kept },
        ]
    );
}

#[test]
fn keep_both_when_one_side_vanished() {
    let e = engine(ConflictStrategy::Both, false);
    assert_eq!(e.resolve_both("a.txt", "s", &facts(true, false, 1, 2)), vec![copy(Side::Local, "a.txt")]);
    assert_eq!(e.resolve_both("a.txt", "s", &facts(false, true, 1, 2)), vec![copy(Side::Ssd, "a.txt")]);
    assert!(e.resolve_both("a.txt", "s", &facts(false, false, 1, 2)).is_empty());
}

fn noon() -> Timestamp {
    Timestamp { secs: 1_704_164_645, nanos: 0 }
}

#[test]
fn handle_conflict_dispatches_by_strategy() {
    let info = ConflictInfo { local_change: ChangeType::Modified, ssd_change: ChangeType::Deleted };
    let f = facts(true, false, 3, 0);
    assert_eq!(
        engine(ConflictStrategy::LocalWins, false).handle_conflict("f", &info, &f, noon()),
        vec![copy(Side::Local, "f")]
    );
    assert_eq!(
        engine(ConflictStrategy::SsdWins, false).handle_conflict("f", &info, &f, noon()),
        vec![FileOp::DeleteFile { side: Side::Local, path: "f".to_string() }]
    );
    assert_eq!(
        engine(ConflictStrategy::NewerWins, false).handle_conflict("f", &info, &f, noon()),
        vec![copy(Side::Local, "f")]
    );
    assert_eq!(engine(ConflictStrategy::Both, false).handle_conflict("f", &info, &f, noon()), vec![copy(Side::Local, "f")]);
    assert_eq!(engine(ConflictStrategy::Ask, false).handle_conflict("f", &info, &f, noon()), vec![copy(Side::Local, "f")]);
}

#[test]
fn handle_conflict_stamps_the_conflict_name_with_the_instant() {
    let info = ConflictInfo { local_change: ChangeType::Added, ssd_change: ChangeType::Added };
    let f = facts(true, true, 1, 1);
    let kept = "a.conflict.mac.20240102030405.txt".to_string();
    let expected = vec![
        FileOp::MoveFile { side: Side::Local, source: "a.txt".to_string(), target: kept.clone() },
        copy(Side::Ssd, "a.txt"),
        FileOp::CopyFile { from: Side::Local, source: kept.clone(), target: kept },
    ];
    assert_eq!(engine(ConflictStrategy::Both, false).handle_conflict("a.txt", &info, &f, noon()), expected);
    assert_eq!(engine(ConflictStrategy::Ask, false).handle_conflict("a.txt", &info, &f, noon()), expected);
}

#[test]
fn stamps_of_instants() {
    assert_eq!(noon().conflict_stamp(), "20240102030405");
    assert_eq!(noon().log_stamp(), "2024-01-02 03:04:05 UTC");
    let epoch = Timestamp { secs: 0, nanos: 0 };
    assert_eq!(epoch.conflict_stamp(), "19700101000000");
    assert_eq!(epoch.log_stamp(), "1970-01-01 00:00:00 UTC");
    assert_eq!(Timestamp { secs: 86_399, nanos: 999_999_999 }.conflict_stamp(), "19700101235959");
    assert_eq!(Timestamp { secs: -1, nanos: 0 }.conflict_stamp(), "19691231235959");
    assert_eq!(Timestamp { secs: 253_402_300_799, nanos: 0 }.conflict_stamp(), "99991231235959");
}

#[test]
fn instants_outside_the_calendar_are_stamped_as_the_epoch() {
    assert_eq!(Timestamp { secs: i64::MAX, nanos: 0 }.conflict_stamp(), "19700101000000");
    assert_eq!(Timestamp { secs: i64::MIN, nanos: 0 }.conflict_stamp(), "19700101000000");
    assert_eq!(Timestamp { secs: 0, nanos: u32::MAX }.conflict_stamp(), "19700101000000");
    assert_eq!(Timestamp { secs: i64::MAX, nanos: 0 }.log_stamp(), "1970-01-01 00:00:00 UTC");
    assert_eq!(Timestamp { secs: 0, nanos: 2_000_000_000 }.log_stamp(), "1970-01-01 00:00:00 UTC");
}

#[test]
fn operations_for_stamps_the_conflict_name_with_the_instant() {
    let f = facts(true, true, 1, 1);
    let kept = "a.conflict.mac.20240102030405.txt".to_string();
    let expected = vec![
        FileOp::MoveFile { side: Side::Local, source: "a.txt".to_string(), target: kept.clone() },
        copy(Side::Ssd, "a.txt"),
        FileOp::CopyFile { from: Side::Local, source: kept.clone(), target: kept },
    ];
    let e = entry("a.txt", false, conflict());
    assert_eq!(engine(ConflictStrategy::Both, false).operations_for(&e, &f, noon()), expected);
    assert_eq!(engine(ConflictStrategy::Ask, false).operations_for(&e, &f, noon()), expected);
}

#[test]
fn operations_for_dry_run_are_empty() {
    let e = engine(ConflictStrategy::LocalWins, true);
    let f = facts(true, true, 1, 1);
    assert!(e.operations_for(&entry("a", false, SyncAction::CopyToSsd), &f, noon()).is_empty());
    assert!(e.operations_for(&entry("a", false, conflict()), &f, noon()).is_empty());
    assert!(!e.needs_facts(&entry("a", false, conflict())));
}

#[test]
fn operations_for_real_run() {
    let e = engine(ConflictStrategy::SsdWins, false);
    let f = facts(true, true, 1, 1);
    assert_eq!(e.operations_for(&entry("a", false, SyncAction::CopyToSsd), &f, noon()), vec![copy(Side::Local, "a")]);
    assert_eq!(e.operations_for(&entry("a", false, conflict()), &f, noon()), vec![copy(Side::Ssd, "a")]);
    assert!(e.needs_facts(&entry("a", false, conflict())));
    assert!(!e.needs_facts(&entry("a", false, SyncAction::DeleteFromLocal)));
}

#[test]
fn failure_lines() {
    assert_eq!(failure_line(&entry("a/b", false, SyncAction::CopyToSsd), "disk full"), "CopyToSsd a/b: disk full");
    assert_eq!(failure_line(&entry("a/b", true, SyncAction::CopyToSsd), "x"), "CreateDirSsd a/b: x");
    assert_eq!(failure_line(&entry("p", false, SyncAction::CopyToLocal), "x"), "CopyToLocal p: x");
    assert_eq!(failure_line(&entry("p", true, SyncAction::CopyToLocal), "x"), "CreateDirLocal p: x");
    assert_eq!(failure_line(&entry("p", false, SyncAction::DeleteFromSsd), "x"), "DeleteFromSsd p: x");
    assert_eq!(failure_line(&entry("p", true, SyncAction::DeleteFromSsd), "x"), "DeleteDirSsd p: x");
    assert_eq!(failure_line(&entry("p", false, SyncAction::DeleteFromLocal), "x"), "DeleteFromLocal p: x");
    assert_eq!(failure_line(&entry("p", true, SyncAction::DeleteFromLocal), "x"), "DeleteDirLocal p: x");
    assert_eq!(failure_line(&entry("p", false, conflict()), "x"), "Conflict p: x");
}

#[test]
fn fresh_result_is_empty() {
    let r = SyncResult::new();
    assert_eq!(r.total_actions(), 0);
    assert_eq!(r.copied_to_ssd(), 0);
    assert_eq!(r.copied_to_local(), 0);
    assert_eq!(r.deleted_from_ssd(), 0);
    assert_eq!(r.deleted_from_local(), 0);
    assert_eq!(r.conflicts(), 0);
    assert_eq!(r.error_count(), 0);
    assert_eq!(r.total_files(), 0);
}

#[test]
fn record_counts_by_kind() {
    let mut r = SyncResult::new();
    r.record(&entry("a", false, SyncAction::CopyToSsd), None);
    r.record(&entry("b", true, SyncAction::CopyToSsd), None);
    r.record(&entry("c", false, SyncAction::CopyToLocal), None);
    r.record(&entry("d", false, SyncAction::DeleteFromSsd), None);
    r.record(&entry("e", false, SyncAction::DeleteFromLocal), None);
    r.record(&entry("f", false, conflict()), None);
    r.record(&entry("g", false, SyncAction::CopyToLocal), Some("denied"));
    assert_eq!(r.copied_to_ssd(), 2);
    assert_eq!(r.copied_to_local(), 1);
    assert_eq!(r.deleted_from_ssd(), 1);
    assert_eq!(r.deleted_from_local(), 1);
    assert_eq!(r.conflicts(), 1);
    assert_eq!(r.total_actions(), 6);
    assert_eq!(r.error_count(), 1);
    assert_eq!(r.error(0), "CopyToLocal g: denied");
    r.set_total_files(42);
    assert_eq!(r.total_files(), 42);
    assert_eq!(r.total_actions(), 6);
}

#[test]
fn preview_counts_every_entry_as_done() {
    let plan = SyncPlan {
        actions: vec![
            entry("a", false, SyncAction::CopyToSsd),
            entry("b", false, conflict()),
            entry("c", false, SyncAction::DeleteFromLocal),
            entry("d", false, SyncAction::CopyToSsd),
        ],
    };
    let r = SyncEngine::preview(&plan);
    assert_eq!(r.copied_to_ssd(), 2);
    assert_eq!(r.conflicts(), 1);
    assert_eq!(r.deleted_from_local(), 1);
    assert_eq!(r.total_actions(), 4);
    assert_eq!(r.error_count(), 0);
    assert_eq!(SyncEngine::preview(&SyncPlan { actions: vec![] }).total_actions(), 0);
}

#[test]
fn execution_walks_the_plan_in_order_and_survives_failures() {
    let plan = SyncPlan {
        actions: vec![
            entry("a", false, SyncAction::CopyToSsd),
            entry("b", false, SyncAction::CopyToLocal),
            entry("c", false, conflict()),
        ],
    };
    let mut x = PlanExecution::begin(plan);
    assert_eq!(x.total(), 3);
    assert_eq!(x.position(), 0);
    assert!(!x.is_finished());
    assert_eq!(x.current().unwrap().path, "a");
    x.complete_current(None);
    assert_eq!(x.position(), 1);
    assert_eq!(x.current().unwrap().path, "b");
    x.complete_current(Some("no space"));
    assert!(!x.is_finished());
    assert_eq!(x.current().unwrap().path, "c");
    x.complete_current(None);
    assert!(x.is_finished());
    assert!(x.current().is_none());
    let (plan, result) = x.finish();
    assert_eq!(plan.actions.len(), 3);
    assert_eq!(result.copied_to_ssd(), 1);
    assert_eq!(result.copied_to_local(), 0);
    assert_eq!(result.conflicts(), 1);
    assert_eq!(result.total_actions(), 2);
    assert_eq!(result.error_count(), 1);
    assert_eq!(result.error(0), "CopyToLocal b: no space");
    assert_eq!(result.total_actions() + result.error_count(), plan.actions.len());
}

#[test]
fn execution_of_empty_plan_is_finished_at_once() {
    let x = PlanExecution::begin(SyncPlan { actions: vec![] });
    assert!(x.is_finished());
    assert!(x.current().is_none());
    let (_, result) = x.finish();
    assert_eq!(result.total_actions(), 0);
    assert_eq!(result.error_count(), 0);
}
