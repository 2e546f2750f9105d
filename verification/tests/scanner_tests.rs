use ssd_syncer::ignore::IgnoreMatcher;
use ssd_syncer::scanner::{compute_file_hash, may_enter, push_hex, FileStep, ScanBuilder};
use ssd_syncer::clock::Timestamp;
use ssd_syncer::snapshot::{FileEntry, Snapshot};

const T0: Timestamp = Timestamp { secs: 0, nanos: 0 };

fn matcher(patterns: &[&str]) -> IgnoreMatcher {
    let owned: Vec<String> = patterns.iter().map(|p| p.to_string()).collect();
    IgnoreMatcher::new(&owned)
}

fn keys(s: &Snapshot) -> Vec<String> {
    (0..s.files.len()).map(|i| s.files.key_at(i).clone()).collect()
}

#[test]
fn hash_is_tagged_blake3() {
    assert_eq!(
        compute_file_hash(b""),
        "blake3:af1349b9f5f9a1a6a0404dea36dcc9499bcb25c9adc112b7cc9a93cae41f3262"
    );
    let h = compute_file_hash(b"hello");
    assert_eq!(h, format!("blake3:{}", blake3::hash(b"hello").to_hex()));
    assert_eq!(h.len(), 7 + 64);
    assert_ne!(compute_file_hash(b"X"), compute_file_hash(b"Y"));
    assert_eq!(compute_file_hash(b"same"), compute_file_hash(b"same"));
}

#[test]
fn hexadecimal_is_lowercase_with_two_digits_per_byte() {
    let mut s = String::from(">");
    push_hex(&mut s, &[0x00, 0x0f, 0xa0, 0xff, 0x9c, 0x10]);
    assert_eq!(s, ">000fa0ff9c10");
    let mut t = String::new();
    push_hex(&mut t, &[]);
    assert_eq!(t, "");
    let all: Vec<u8> = (0..=255).collect();
    let mut u = String::new();
    push_hex(&mut u, &all);
    let expected: String = all.iter().map(|b| format!("{:02x}", b)).collect();
    assert_eq!(u, expected);
}

#[test]
fn walk_may_enter_what_is_not_ignored() {
    let m = matcher(&["target"]);
    assert!(may_enter(&m, ""));
    assert!(may_enter(&m, "src/target.rs"));
    assert!(!may_enter(&m, "a/target"));
}

#[test]
fn admits_root_and_unignored_paths() {
    let m = matcher(&["target", "a/b"]);
    let b = ScanBuilder::new("f", "mac", &m, T0);
    assert!(b.admits(""));
    assert!(b.admits("src"));
    assert!(b.admits("target/debug") == false);
    assert!(!b.admits("target"));
    assert!(!b.admits("a/b"));
    assert!(b.admits("a"));
}

#[test]
fn pruned_paths_include_descendants_of_ignored_directories() {
    let m = matcher(&["logs/*.d"]);
    let b = ScanBuilder::new("f", "mac", &m, T0);
    assert!(b.is_pruned("logs/x.d"));
    assert!(!m.is_ignored("logs/x.d/inner.txt"));
    assert!(b.is_pruned("logs/x.d/inner.txt"));
    assert!(b.is_pruned("logs/x.d/deep/er/inner.txt"));
    assert!(!b.is_pruned("logs/x.txt"));
    assert!(!b.is_pruned("other/x.d"));
}

#[test]
fn files_below_ignored_directories_never_reach_the_snapshot() {
    let m = matcher(&["projects/temp", "node_modules"]);
    let mut b = ScanBuilder::new("f", "mac", &m, T0);
    assert!(!b.visit_dir("projects/temp"));
    assert!(!b.add_hashed_file("projects/temp/big.bin", 3, 1, b"abc"));
    assert!(!b.add_hashed_file("projects/temp/sub/deep.bin", 3, 1, b"abc"));
    assert_eq!(b.offer_file("app/node_modules/x.js", 1, 1, None), FileStep::Skipped);
    assert!(b.visit_dir("projects"));
    assert!(b.add_hashed_file("projects/keep.txt", 3, 1, b"abc"));
    let s = b.finish();
    assert_eq!(keys(&s), vec!["projects/keep.txt"]);
}

#[test]
fn root_is_never_recorded() {
    let m = matcher(&[]);
    let mut b = ScanBuilder::new("f", "mac", &m, T0);
    assert!(!b.visit_dir(""));
    assert!(!b.add_hashed_file("", 0, 0, b""));
    assert_eq!(b.offer_file("", 0, 0, None), FileStep::Skipped);
    assert_eq!(b.finish().files.len(), 0);
}

#[test]
fn unchanged_metadata_reuses_the_cached_hash() {
    let m = matcher(&[]);
    let mut base = Snapshot::new("f", "mac", T0);
    base.files.insert("a.txt".to_string(), FileEntry::file(5, 100, "blake3:cached".to_string()));
    let mut b = ScanBuilder::new("f", "mac", &m, T0);
    assert_eq!(b.offer_file("a.txt", 5, 100, Some(&base)), FileStep::Reused);
    let s = b.finish();
    assert_eq!(s.files.get("a.txt"), Some(&FileEntry::file(5, 100, "blake3:cached".to_string())));
}

#[test]
fn changed_metadata_or_missing_base_needs_a_hash() {
    let m = matcher(&[]);
    let mut base = Snapshot::new("f", "mac", T0);
    base.files.insert("a.txt".to_string(), FileEntry::file(5, 100, "blake3:cached".to_string()));
    let mut b = ScanBuilder::new("f", "mac", &m, T0);
    assert_eq!(b.offer_file("a.txt", 6, 100, Some(&base)), FileStep::NeedsHash);
    assert_eq!(b.offer_file("a.txt", 5, 101, Some(&base)), FileStep::NeedsHash);
    assert_eq!(b.offer_file("b.txt", 5, 100, Some(&base)), FileStep::NeedsHash);
    assert_eq!(b.offer_file("a.txt", 5, 100, None), FileStep::NeedsHash);
    assert_eq!(b.finish().files.len(), 0);
}

#[test]
fn hashed_files_carry_their_metadata_and_content_hash() {
    let m = matcher(&[]);
    let began = Timestamp { secs: 77, nanos: 5 };
    let mut b = ScanBuilder::new("folder", "mac", &m, began);
    assert!(b.add_hashed_file("dir/file.txt", 5, 77, b"hello"));
    let s = b.finish();
    assert_eq!(s.sync_folder, "folder");
    assert_eq!(s.machine, "mac");
    assert_eq!(s.synced_at, began);
    assert_eq!(s.files.len(), 1);
    assert_eq!(s.files.get("dir/file.txt"), Some(&FileEntry::file(5, 77, compute_file_hash(b"hello"))));
}

#[test]
fn empty_directories_become_placeholders() {
    let m = matcher(&[]);
    let mut b = ScanBuilder::new("f", "mac", &m, T0);
    assert!(b.visit_dir("a"));
    assert!(b.visit_dir("a/b"));
    assert!(b.visit_dir("a/b/c"));
    assert!(b.visit_dir("empty"));
    assert!(b.visit_dir("x"));
    assert!(b.visit_dir("x/hollow"));
    assert!(b.add_hashed_file("a/b/file.txt", 1, 1, b"1"));
    assert!(b.add_hashed_file("x/top.txt", 1, 1, b"2"));
    let s = b.finish();
    assert_eq!(keys(&s), vec!["a/b/c", "a/b/file.txt", "empty", "x/hollow", "x/top.txt"]);
    assert_eq!(s.files.get("empty"), Some(&FileEntry::empty_dir()));
    assert_eq!(s.files.get("a/b/c"), Some(&FileEntry::empty_dir()));
    let d = s.files.get("x/hollow").unwrap();
    assert!(d.is_dir);
    assert_eq!(d.size, 0);
    assert_eq!(d.mtime_secs, 0);
    assert_eq!(d.hash, "empty-dir");
}

#[test]
fn directory_holding_only_ignored_files_is_a_placeholder() {
    let m = matcher(&["*.tmp"]);
    let mut b = ScanBuilder::new("f", "mac", &m, T0);
    assert!(b.visit_dir("work"));
    assert_eq!(b.offer_file("work/junk.tmp", 1, 1, None), FileStep::Skipped);
    let s = b.finish();
    assert_eq!(keys(&s), vec!["work"]);
    assert!(s.files.get("work").unwrap().is_dir);
}

#[test]
fn reused_files_occupy_their_directories() {
    let m = matcher(&[]);
    let mut base = Snapshot::new("f", "mac", T0);
    base.files.insert("d/e/f.txt".to_string(), FileEntry::file(1, 2, "h".to_string()));
    let mut b = ScanBuilder::new("f", "mac", &m, T0);
    assert!(b.visit_dir("d"));
    assert!(b.visit_dir("d/e"));
    assert_eq!(b.offer_file("d/e/f.txt", 1, 2, Some(&base)), FileStep::Reused);
    assert_eq!(keys(&b.finish()), vec!["d/e/f.txt"]);
}
