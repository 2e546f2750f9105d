use ssd_syncer::config::{AppConfig, IgnoreConfig, MappingError, SyncMapping};
use ssd_syncer::diff::{SyncAction, SyncPlan, SyncPlanEntry};
use ssd_syncer::sync_engine::affected_dirs;
use ssd_syncer::target::{
    absolute_flags, filter_mappings, mapping_is_named, mount_if_absolute, resolve_ssd_mount, resolve_target,
    resolve_target_with, ssd_mount_from_mapping, Target, TargetError,
};

fn mapping(name: Option<&str>, local: &str, ssd: &str) -> SyncMapping {
    SyncMapping { name: name.map(|n| n.to_string()), local: local.to_string(), ssd: ssd.to_string() }
}

fn config(mount: Option<&str>, sync: Vec<SyncMapping>) -> AppConfig {
    let mut c = AppConfig::create_new("mac");
    c.machine.ssd_mount = mount.map(|m| m.to_string());
    c.sync = sync;
    c
}

fn target(mount: &str, filter: Option<&str>) -> Result<Target, TargetError> {
    Ok(Target { ssd_mount: mount.to_string(), name_filter: filter.map(|f| f.to_string()) })
}

#[test]
fn mount_is_explicit_or_default() {
    let with = config(Some("/default"), vec![]);
    let without = config(None, vec![]);
    assert_eq!(resolve_ssd_mount(Some("/given"), &with), Ok("/given".to_string()));
    assert_eq!(resolve_ssd_mount(None, &with), Ok("/default".to_string()));
    assert_eq!(resolve_ssd_mount(Some("/given"), &without), Ok("/given".to_string()));
    assert_eq!(resolve_ssd_mount(None, &without), Err(TargetError::MountNotSpecified));
}

#[test]
fn mappings_are_filtered_by_name() {
    let all = vec![mapping(Some("A"), "/1", "s1"), mapping(None, "/2", "s2"), mapping(Some("A"), "/3", "s3"), mapping(Some("B"), "/4", "s4")];
    let a: Vec<&str> = filter_mappings(&all, Some("A")).iter().map(|m| m.local.as_str()).collect();
    assert_eq!(a, vec!["/1", "/3"]);
    assert_eq!(filter_mappings(&all, None).len(), 4);
    assert_eq!(filter_mappings(&all, Some("C")).len(), 0);
    assert!(mapping_is_named(&all[0], "A"));
    assert!(!mapping_is_named(&all[0], "a"));
    assert!(!mapping_is_named(&all[1], ""));
}

#[test]
fn mapping_gives_its_mount_only_when_absolute() {
    assert_eq!(ssd_mount_from_mapping(&mapping(None, "/l", "relative/dir")), None);
    assert_eq!(ssd_mount_from_mapping(&mapping(None, "/l", "/abs/dir")), Some("/abs/dir".to_string()));
    let c = config(None, vec![mapping(None, "/l", "/abs"), mapping(None, "/l", "rel")]);
    assert_eq!(absolute_flags(&c), vec![true, false]);
    assert_eq!(mount_if_absolute(&mapping(None, "/l", "anything"), true), Some("anything".to_string()));
    assert_eq!(mount_if_absolute(&mapping(None, "/l", "/abs/dir"), false), None);
}

#[test]
fn positional_directory_is_the_mount() {
    let c = config(Some("/default"), vec![mapping(Some("work"), "/l", "rel")]);
    assert_eq!(resolve_target_with(Some("work"), None, &c, true, &[false]), target("work", None));
    assert_eq!(resolve_target_with(Some("/mnt"), Some("work"), &c, true, &[false]), target("/mnt", Some("work")));
}

#[test]
fn positional_mapping_name_selects_the_mapping() {
    let c = config(Some("/default"), vec![mapping(Some("work"), "/l", "rel"), mapping(Some("abs"), "/l", "/vol/x")]);
    let flags = [false, true];
    assert_eq!(resolve_target_with(Some("work"), None, &c, false, &flags), target("/default", Some("work")));
    assert_eq!(resolve_target_with(Some("abs"), None, &c, false, &flags), target("/vol/x", Some("abs")));
    assert_eq!(resolve_target_with(Some("abs"), Some("work"), &c, false, &flags), target("/vol/x", Some("work")));
    assert_eq!(resolve_target_with(Some("/nowhere"), None, &c, false, &flags), target("/nowhere", None));
}

#[test]
fn relative_mapping_without_default_mount_is_an_error() {
    let c = config(None, vec![mapping(Some("work"), "/l", "rel")]);
    let err = resolve_target_with(Some("work"), None, &c, false, &[false]).unwrap_err();
    assert_eq!(err, TargetError::RelativeMapping { name: "work".to_string(), ssd: "rel".to_string() });
    assert_eq!(
        err.message(),
        "Mapping 'work' has a relative SSD path 'rel'. Set a default SSD mount with `ssd-syncer set-ssd <path>` or use an absolute path in `--ssd`."
    );
}

#[test]
fn without_positional_argument() {
    let two = config(Some("/default"), vec![mapping(Some("a"), "/l", "/vol/a"), mapping(Some("b"), "/l", "rel")]);
    let flags = [true, false];
    assert_eq!(resolve_target_with(None, Some("a"), &two, false, &flags), target("/vol/a", Some("a")));
    assert_eq!(resolve_target_with(None, Some("b"), &two, false, &flags), target("/default", Some("b")));
    assert_eq!(resolve_target_with(None, Some("zzz"), &two, false, &flags), target("/default", Some("zzz")));
    assert_eq!(resolve_target_with(None, None, &two, false, &flags), target("/default", None));
    let one = config(None, vec![mapping(Some("solo"), "/l", "/vol/solo")]);
    assert_eq!(resolve_target_with(None, None, &one, false, &[true]), target("/vol/solo", Some("solo")));
    let anonymous = config(None, vec![mapping(None, "/l", "/vol/solo")]);
    assert_eq!(resolve_target_with(None, None, &anonymous, false, &[true]), target("/vol/solo", None));
    let relative = config(None, vec![mapping(Some("solo"), "/l", "rel")]);
    let err = resolve_target_with(None, None, &relative, false, &[false]).unwrap_err();
    assert_eq!(err, TargetError::MountNotSpecified);
    assert_eq!(
        err.message(),
        "SSD mount point not specified. Either pass it as an argument or set a default with `ssd-syncer set-ssd <path>`."
    );
}

#[test]
fn resolve_target_asks_the_platform() {
    let c = config(None, vec![mapping(Some("abs"), "/l", "/vol/x"), mapping(Some("rel"), "/l", "x")]);
    assert_eq!(resolve_target(Some("abs"), None, &c, false), target("/vol/x", Some("abs")));
    assert!(matches!(resolve_target(Some("rel"), None, &c, false), Err(TargetError::RelativeMapping { .. })));
}

#[test]
fn adding_mappings() {
    let mut c = config(None, vec![mapping(Some("work"), "/l", "s1")]);
    assert_eq!(c.check_new_mapping("s1", None), Err(MappingError::DuplicateSsd));
    assert_eq!(c.check_new_mapping("s1", Some("work")), Err(MappingError::DuplicateSsd));
    assert_eq!(c.check_new_mapping("s2", Some("work")), Err(MappingError::DuplicateName));
    assert_eq!(c.check_new_mapping("s2", Some("play")), Ok(()));
    assert_eq!(c.check_new_mapping("s2", None), Ok(()));
    assert!(c.has_mapping_for("s1"));
    assert!(!c.has_mapping_for("s2"));
    assert_eq!(c.add_mapping("/l2", "s1", None), Err(MappingError::DuplicateSsd));
    assert_eq!(c.sync.len(), 1);
    assert_eq!(c.add_mapping("/l2", "s2", Some("play")), Ok(()));
    assert_eq!(c.sync.len(), 2);
    assert_eq!(c.sync[1].local, "/l2");
    assert_eq!(c.sync[1].ssd, "s2");
    assert_eq!(c.sync[1].name.as_deref(), Some("play"));
    assert_eq!(c.add_mapping("/l3", "s3", None), Ok(()));
    assert!(c.sync[2].name.is_none());
}

#[test]
fn removing_mappings() {
    let mut c = config(None, vec![mapping(None, "/1", "a"), mapping(None, "/2", "b"), mapping(None, "/3", "a"), mapping(None, "/4", "c")]);
    assert_eq!(c.remove_mappings_for("zzz"), 0);
    assert_eq!(c.sync.len(), 4);
    assert_eq!(c.remove_mappings_for("a"), 2);
    let left: Vec<&str> = c.sync.iter().map(|m| m.local.as_str()).collect();
    assert_eq!(left, vec!["/2", "/4"]);
    assert_eq!(c.remove_mappings_for("c"), 1);
    assert_eq!(c.remove_mappings_for("b"), 1);
    assert!(c.sync.is_empty());
    assert_eq!(c.remove_mappings_for("b"), 0);
}

#[test]
fn editing_ignore_patterns() {
    let mut i = IgnoreConfig { patterns: vec!["a".to_string(), "b".to_string(), "a".to_string()] };
    assert_eq!(i.position("a"), Some(0));
    assert_eq!(i.position("b"), Some(1));
    assert_eq!(i.position("c"), None);
    assert!(!i.add_pattern("a"));
    assert_eq!(i.patterns.len(), 3);
    assert!(i.add_pattern("c"));
    assert_eq!(i.patterns, vec!["a", "b", "a", "c"]);
    assert!(i.remove_pattern("a"));
    assert_eq!(i.patterns, vec!["b", "a", "c"]);
    assert!(i.remove_pattern("a"));
    assert!(!i.remove_pattern("a"));
    assert_eq!(i.patterns, vec!["b", "c"]);
}

#[test]
fn directories_touched_by_a_plan() {
    let entry = |p: &str| SyncPlanEntry { path: p.to_string(), is_dir: false, action: SyncAction::CopyToSsd };
    let plan = SyncPlan { actions: vec![entry("z/f"), entry("top.txt"), entry("a/b/c"), entry("a/b/d"), entry("a/e")] };
    let dirs = affected_dirs(&plan);
    let keys: Vec<&str> = (0..dirs.len()).map(|i| dirs.key_at(i).as_str()).collect();
    assert_eq!(keys, vec!["a", "a/b", "z"]);
    assert_eq!(affected_dirs(&SyncPlan { actions: vec![] }).len(), 0);
}
