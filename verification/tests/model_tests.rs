use ssd_syncer::config::{default_conflict_strategy, default_ignore_patterns, AppConfig, ConflictConfig, ConflictStrategy, IgnoreConfig, MachineConfig, SyncMapping};
use ssd_syncer::order::{rank_paths, Rank};
use ssd_syncer::pathmap::{union_keys, PathMap};
use ssd_syncer::paths::{ancestor_dirs, conflict_name, find_last, join, parent};
use ssd_syncer::clock::Timestamp;
use ssd_syncer::snapshot::{FileEntry, Snapshot};
use ssd_syncer::text::{contains_char, from_chars, to_chars};

const T0: Timestamp = Timestamp { secs: 0, nanos: 0 };

#[test]
fn chars_round_trip() {
    let s = "a\u{00e9}/\u{4e2d}.txt";
    let chars = to_chars(s);
    assert_eq!(chars.len(), 8);
    assert_eq!(from_chars(&chars, 0, chars.len()), s);
    assert_eq!(from_chars(&chars, 2, 4), "/\u{4e2d}");
    assert_eq!(from_chars(&chars, 3, 3), "");
    assert!(to_chars("").is_empty());
}

#[test]
fn char_search() {
    let chars = to_chars("a/b.c");
    assert!(contains_char(&chars, '/'));
    assert!(contains_char(&chars, 'c'));
    assert!(!contains_char(&chars, '*'));
    assert!(!contains_char(&[], 'a'));
}

#[test]
fn paths_rank_bytewise() {
    assert_eq!(rank_paths("a", "b"), Rank::Before);
    assert_eq!(rank_paths("b", "a"), Rank::After);
    assert_eq!(rank_paths("abc", "abc"), Rank::Same);
    assert_eq!(rank_paths("", ""), Rank::Same);
    assert_eq!(rank_paths("", "a"), Rank::Before);
    assert_eq!(rank_paths("ab", "abc"), Rank::Before);
    assert_eq!(rank_paths("abc", "ab"), Rank::After);
    assert_eq!(rank_paths("B", "a"), Rank::Before);
    assert_eq!(rank_paths("a.txt", "a/b"), Rank::Before);
    assert_eq!(rank_paths("z", "\u{00e9}"), Rank::Before);
    for (a, b) in [("x", "y"), ("a/b", "a.b"), ("", "q"), ("\u{4e2d}", "zz")] {
        let expected = if a < b {
            Rank::Before
        } else if a == b {
            Rank::Same
        } else {
            Rank::After
        };
        assert_eq!(rank_paths(a, b), expected);
    }
}

#[test]
fn pathmap_keeps_keys_sorted_and_unique() {
    let mut m: PathMap<u32> = PathMap::new();
    assert!(m.is_empty());
    assert_eq!(m.insert("m".to_string(), 1), None);
    assert_eq!(m.insert("a".to_string(), 2), None);
    assert_eq!(m.insert("z".to_string(), 3), None);
    assert_eq!(m.insert("m".to_string(), 4), Some(1));
    assert_eq!(m.len(), 3);
    assert!(!m.is_empty());
    assert_eq!(m.key_at(0), "a");
    assert_eq!(m.key_at(1), "m");
    assert_eq!(m.key_at(2), "z");
    assert_eq!(*m.value_at(1), 4);
    assert_eq!(m.get("m"), Some(&4));
    assert_eq!(m.get("q"), None);
    assert!(m.contains_key("z"));
    assert!(!m.contains_key(""));
    assert_eq!(m.position("z"), Some(2));
    assert_eq!(m.position("b"), None);
    assert_eq!(m.remove("a"), Some(2));
    assert_eq!(m.remove("a"), None);
    assert_eq!(m.len(), 2);
    assert_eq!(m.key_at(0), "m");
    m.push_last("zz".to_string(), 9);
    assert_eq!(m.key_at(2), "zz");
    assert_eq!(m.get("zz"), Some(&9));
}

#[test]
fn union_of_keys() {
    let mut a: PathMap<u8> = PathMap::new();
    let mut b: PathMap<bool> = PathMap::new();
    for k in ["b", "d", "f"] {
        a.insert(k.to_string(), 0);
    }
    for k in ["a", "d", "e", "g"] {
        b.insert(k.to_string(), true);
    }
    let u = union_keys(&a, &b);
    let keys: Vec<&str> = (0..u.len()).map(|i| u.key_at(i).as_str()).collect();
    assert_eq!(keys, vec!["a", "b", "d", "e", "f", "g"]);
    let empty: PathMap<u8> = PathMap::new();
    assert_eq!(union_keys(&empty, &empty).len(), 0);
    assert_eq!(union_keys(&a, &empty).len(), 3);
}

#[test]
fn path_parts() {
    assert_eq!(parent("a/b/c.txt"), "a/b");
    assert_eq!(parent("c.txt"), "");
    assert_eq!(parent(""), "");
    assert_eq!(find_last(&to_chars("a/b/c"), '/'), Some(3));
    assert_eq!(find_last(&to_chars("abc"), '/'), None);
    assert_eq!(join("root", "a/b"), "root/a/b");
    assert_eq!(join("root/", "a"), "root/a");
    assert_eq!(join("", "a"), "a");
    assert_eq!(join("/", "a"), "/a");
}

#[test]
fn ancestors_from_nearest_to_farthest() {
    assert_eq!(ancestor_dirs("a/b/c/file.txt"), vec!["a/b/c", "a/b", "a"]);
    assert_eq!(ancestor_dirs("dir/file.txt"), vec!["dir"]);
    assert!(ancestor_dirs("file.txt").is_empty());
    assert!(ancestor_dirs("").is_empty());
}

#[test]
fn ancestors_are_the_chain_of_parents() {
    for path in ["a/b/c/file.txt", "x/y", "deep/er/and/deep/er/f", "top"] {
        let dirs = ancestor_dirs(path);
        let mut below = path.to_string();
        for dir in &dirs {
            assert_eq!(*dir, parent(&below));
            below = dir.clone();
        }
        assert_eq!(parent(&below), "");
    }
}

#[test]
fn conflict_names() {
    assert_eq!(conflict_name("a.txt", "mac", "20240101120000"), "a.conflict.mac.20240101120000.txt");
    assert_eq!(conflict_name("dir/sub/a.txt", "pc", "1"), "dir/sub/a.conflict.pc.1.txt");
    assert_eq!(conflict_name("archive.tar.gz", "m", "s"), "archive.tar.conflict.m.s.gz");
    assert_eq!(conflict_name("README", "m", "s"), "README.conflict.m.s");
    assert_eq!(conflict_name(".bashrc", "m", "s"), ".bashrc.conflict.m.s");
    assert_eq!(conflict_name("d/.env", "m", "s"), "d/.env.conflict.m.s");
    assert_eq!(conflict_name("v1.0/notes", "m", "s"), "v1.0/notes.conflict.m.s");
    assert_eq!(conflict_name(".a.b", "m", "s"), ".a.conflict.m.s.b");
}

#[test]
fn snapshot_file_names() {
    assert_eq!(Snapshot::snapshot_filename("WORK_SYNC"), "WORK_SYNC.json");
    assert_eq!(Snapshot::snapshot_filename("a/b\\c:d"), "a_b_c_d.json");
    assert_eq!(Snapshot::snapshot_filename(""), ".json");
    assert_eq!(Snapshot::cache_filename("a/b"), "a_b_ssd_cache.json");
}

#[test]
fn new_snapshot_is_empty_and_stamped() {
    let at = Timestamp { secs: 1_704_164_645, nanos: 9 };
    let s = Snapshot::new("folder", "mac", at);
    assert_eq!(s.sync_folder, "folder");
    assert_eq!(s.machine, "mac");
    assert!(s.files.is_empty());
    assert_eq!(s.synced_at, at);
    let mut t = Snapshot::new("folder", "mac", T0);
    t.files.insert("a".to_string(), FileEntry::file(1, 1, "h".to_string()));
    let later = Timestamp { secs: 42, nanos: 7 };
    t.touch(later);
    assert_eq!(t.synced_at, later);
    assert_eq!(t.sync_folder, "folder");
    assert_eq!(t.machine, "mac");
    assert_eq!(t.files.len(), 1);
}

#[test]
fn file_entries() {
    let d = FileEntry::empty_dir();
    assert!(d.is_dir);
    assert_eq!((d.size, d.mtime_secs, d.hash.as_str()), (0, 0, "empty-dir"));
    let f = FileEntry::file(7, -3, "blake3:x".to_string());
    assert!(!f.is_dir);
    assert_eq!((f.size, f.mtime_secs, f.hash.as_str()), (7, -3, "blake3:x"));
}

#[test]
fn retain_shared_keeps_local_entries_at_common_paths() {
    let mut local = Snapshot::new("f", "mac", T0);
    let mut ssd = Snapshot::new("f", "mac", T0);
    for (p, h) in [("a", "la"), ("b", "lb"), ("c", "lc")] {
        local.files.insert(p.to_string(), FileEntry::file(1, 1, h.to_string()));
    }
    for (p, h) in [("b", "sb"), ("c", "sc"), ("d", "sd")] {
        ssd.files.insert(p.to_string(), FileEntry::file(2, 2, h.to_string()));
    }
    local.retain_shared(&ssd);
    assert_eq!(local.files.len(), 2);
    assert_eq!(local.files.get("b"), Some(&FileEntry::file(1, 1, "lb".to_string())));
    assert_eq!(local.files.get("c"), Some(&FileEntry::file(1, 1, "lc".to_string())));
    assert!(!local.files.contains_key("a"));
    assert!(!local.files.contains_key("d"));
}

#[test]
fn configuration_defaults() {
    let patterns = default_ignore_patterns();
    assert_eq!(patterns.len(), 35);
    assert_eq!(patterns[0], ".DS_Store");
    assert_eq!(patterns[3], ".ssd-syncer");
    assert_eq!(patterns[11], "*.egg-info");
    assert_eq!(patterns[34], "*.pyc");
    assert_eq!(default_conflict_strategy(), ConflictStrategy::Both);
    assert_eq!(IgnoreConfig::default().patterns, patterns);
    assert_eq!(ConflictConfig::default().strategy, ConflictStrategy::Both);
}

#[test]
fn configuration_paths() {
    assert_eq!(AppConfig::config_dir("/home/u"), "/home/u/.ssd-syncer");
    assert_eq!(AppConfig::config_path("/home/u"), "/home/u/.ssd-syncer/config.toml");
    assert_eq!(AppConfig::ssd_syncer_dir("/Volumes/SSD"), "/Volumes/SSD/.ssd-syncer");
    assert_eq!(AppConfig::ssd_snapshots_dir("/Volumes/SSD", "mac"), "/Volumes/SSD/.ssd-syncer/snapshots/mac");
    assert_eq!(AppConfig::ssd_syncer_dir("E:/"), "E:/.ssd-syncer");
}

#[test]
fn fresh_configuration_and_mapping_lookup() {
    let mut c = AppConfig::create_new("laptop");
    assert_eq!(c.machine.name, "laptop");
    assert!(c.machine.ssd_mount.is_none());
    assert!(c.sync.is_empty());
    assert_eq!(c.ignore.patterns.len(), 35);
    assert_eq!(c.conflict.strategy, ConflictStrategy::Both);
    assert!(c.find_mapping_by_name("WORK").is_none());
    c.machine = MachineConfig { name: "x".to_string(), ssd_mount: Some("/mnt".to_string()) };
    c.sync.push(SyncMapping { name: None, local: "/l0".to_string(), ssd: "S0".to_string() });
    c.sync.push(SyncMapping { name: Some("WORK".to_string()), local: "/l1".to_string(), ssd: "S1".to_string() });
    c.sync.push(SyncMapping { name: Some("WORK".to_string()), local: "/l2".to_string(), ssd: "S2".to_string() });
    assert_eq!(c.find_mapping_by_name("WORK").unwrap().ssd, "S1");
    assert_eq!(c.position_of_mapping("WORK"), Some(1));
    assert!(c.find_mapping_by_name("work").is_none());
    assert!(c.find_mapping_by_name("").is_none());
}
