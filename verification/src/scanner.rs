//! Building a snapshot from the entries of a directory walk.
//!
//! Whoever walks the tree hands each entry to a [`ScanBuilder`]: directories, files
//! whose metadata matches the base snapshot, and the content of files that must be
//! hashed. The builder keeps out everything that lies at or below an ignored path
//! and adds a placeholder for every directory that ends up without a file in it.

use vstd::prelude::*;
use crate::ignore::ignores;
use crate::ignore::IgnoreMatcher;
use crate::pathmap::has_key;
use crate::pathmap::lemma_take_grows;
use crate::pathmap::lookup;
use crate::pathmap::PathMap;
use crate::paths::ancestor_dirs;
use crate::paths::is_ancestor;
use crate::snapshot::empty_dir_hash;
use crate::snapshot::FileEntry;
use crate::snapshot::FileEntryView;
use crate::clock::Timestamp;
use crate::snapshot::Snapshot;
use crate::text::push_char;

verus! {

/// The BLAKE3 digest of `content`: 32 bytes.
pub uninterp spec fn blake3_digest(content: Seq<u8>) -> Seq<u8>;

/// The BLAKE3 digest of `content`.
///
/// Trusted: calls `blake3::hash` and hands out the 32 bytes of the digest. The
/// digest is a function of the content alone; the contract gives it a name and
/// claims nothing else of it.
#[verifier::external_body]
fn blake3_hash(content: &[u8]) -> (digest: [u8; 32])
    ensures
        digest@ == blake3_digest(content@),
{
    blake3::hash(content).into()
}

/// The lowercase hexadecimal digit for `n`.
pub open spec fn hex_digit(n: int) -> char {
    if n == 0 {
        '0'
    } else if n == 1 {
        '1'
    } else if n == 2 {
        '2'
    } else if n == 3 {
        '3'
    } else if n == 4 {
        '4'
    } else if n == 5 {
        '5'
    } else if n == 6 {
        '6'
    } else if n == 7 {
        '7'
    } else if n == 8 {
        '8'
    } else if n == 9 {
        '9'
    } else if n == 10 {
        'a'
    } else if n == 11 {
        'b'
    } else if n == 12 {
        'c'
    } else if n == 13 {
        'd'
    } else if n == 14 {
        'e'
    } else {
        'f'
    }
}

/// The bytes in lowercase hexadecimal, two digits for each.
pub open spec fn hex_of(bytes: Seq<u8>) -> Seq<char>
    decreases bytes.len(),
{
    if bytes.len() == 0 {
        Seq::empty()
    } else {
        hex_of(bytes.drop_last()).push(hex_digit(bytes.last() as int / 16)).push(
            hex_digit(bytes.last() as int % 16),
        )
    }
}

/// The lowercase hexadecimal digit for `n`.
fn hex_char(n: u8) -> (c: char)
    requires
        n < 16,
    ensures
        c == hex_digit(n as int),
{
    if n == 0 {
        '0'
    } else if n == 1 {
        '1'
    } else if n == 2 {
        '2'
    } else if n == 3 {
        '3'
    } else if n == 4 {
        '4'
    } else if n == 5 {
        '5'
    } else if n == 6 {
        '6'
    } else if n == 7 {
        '7'
    } else if n == 8 {
        '8'
    } else if n == 9 {
        '9'
    } else if n == 10 {
        'a'
    } else if n == 11 {
        'b'
    } else if n == 12 {
        'c'
    } else if n == 13 {
        'd'
    } else if n == 14 {
        'e'
    } else {
        'f'
    }
}

/// Appends the bytes in lowercase hexadecimal to `out`.
pub fn push_hex(out: &mut String, bytes: &[u8])
    ensures
        final(out)@ == old(out)@ + hex_of(bytes@),
{
    let mut i: usize = 0;
    while i < bytes.len()
        invariant
            i <= bytes@.len(),
            out@ == old(out)@ + hex_of(bytes@.take(i as int)),
        decreases bytes@.len() - i,
    {
        let b = bytes[i];
        assert(bytes@.take(i + 1).drop_last() =~= bytes@.take(i as int));
        assert(bytes@.take(i + 1).last() == b);
        push_char(out, hex_char(b / 16));
        push_char(out, hex_char(b % 16));
        assert(out@ =~= old(out)@ + hex_of(bytes@.take(i + 1)));
        i += 1;
    }
    assert(bytes@.take(i as int) =~= bytes@);
}

/// The content hash of a file: the name of the algorithm, a colon, and the digest
/// in lowercase hexadecimal.
pub open spec fn content_hash_of(content: Seq<u8>) -> Seq<char> {
    "blake3:"@ + hex_of(blake3_digest(content))
}

/// Computes the content hash of a file from its bytes.
pub fn compute_file_hash(content: &[u8]) -> (hash: String)
    ensures
        hash@ == content_hash_of(content@),
{
    let digest = blake3_hash(content);
    let mut hash = "blake3:".to_string();
    push_hex(&mut hash, digest.as_slice());
    hash
}

/// A content hash is never the sentinel of an empty directory.
pub proof fn lemma_content_hash_is_no_sentinel(content: Seq<u8>)
    ensures
        content_hash_of(content) != empty_dir_hash(),
{
    reveal_strlit("blake3:");
    reveal_strlit("empty-dir");
    assert(content_hash_of(content)[0] == 'b');
    assert(empty_dir_hash()[0] == 'e');
}

/// Whether a scan leaves `path` out: the path itself is ignored, or a directory above it is.
pub open spec fn pruned(patterns: Seq<Seq<char>>, path: Seq<char>) -> bool {
    ignores(patterns, path) || exists|dir: Seq<char>| is_ancestor(dir, path) && #[trigger] ignores(patterns, dir)
}

/// Whether a walk may enter `path`: the root always, any other path unless it is ignored.
pub open spec fn enterable(patterns: Seq<Seq<char>>, path: Seq<char>) -> bool {
    path.len() == 0 || !ignores(patterns, path)
}

/// Whether a walk under the patterns of `ignore` may enter `rel_path`.
pub fn may_enter(ignore: &IgnoreMatcher, rel_path: &str) -> (ok: bool)
    ensures
        ok == enterable(ignore@, rel_path@),
{
    rel_path.unicode_len() == 0 || !ignore.is_ignored(rel_path)
}

/// The entry that a scan takes over from the base snapshot without reading the
/// file: the base entry of the same path, where its size and modification time are
/// those of the file on disk.
pub open spec fn reusable(
    base: Option<Map<Seq<char>, FileEntryView>>,
    path: Seq<char>,
    size: u64,
    mtime_secs: i64,
) -> Option<FileEntryView> {
    match base {
        Some(entries) => if entries.contains_key(path) && entries[path].size == size && entries[path].mtime_secs
            == mtime_secs {
            Some(entries[path])
        } else {
            None
        },
        None => None,
    }
}

/// The placeholder entry of an empty directory.
pub open spec fn placeholder() -> FileEntryView {
    FileEntryView { size: 0, mtime_secs: 0, hash: empty_dir_hash(), is_dir: true }
}

/// The entries of a finished scan: the files, and a placeholder for each visited
/// directory that is above none of the files.
pub open spec fn finished_entries(
    files: Map<Seq<char>, FileEntryView>,
    dirs: Set<Seq<char>>,
    occupied: Set<Seq<char>>,
) -> Map<Seq<char>, FileEntryView> {
    Map::new(
        |p: Seq<char>| files.contains_key(p) || (dirs.contains(p) && !occupied.contains(p)),
        |p: Seq<char>|
            if dirs.contains(p) && !occupied.contains(p) {
                placeholder()
            } else {
                files[p]
            },
    )
}

/// What became of a file that was offered to the builder.
#[derive(Debug, Clone, Copy, PartialEq, Eq, Structural)]
pub enum FileStep {
    /// The path is the root or lies at or below an ignored path: nothing was recorded.
    Skipped,
    /// The base entry was taken over; the file need not be read.
    Reused,
    /// The file must be read and handed in with its content.
    NeedsHash,
}

/// A snapshot in the making.
pub struct ScanBuilder<'a> {
    ignore: &'a IgnoreMatcher,
    snapshot: Snapshot,
    all_dirs: PathMap<()>,
    non_empty_dirs: PathMap<()>,
}

impl<'a> ScanBuilder<'a> {
    /// The ignore patterns of the scan.
    pub closed spec fn patterns(self) -> Seq<Seq<char>> {
        self.ignore@
    }

    /// The files recorded so far.
    pub closed spec fn files(self) -> Map<Seq<char>, FileEntryView> {
        self.snapshot.entries()
    }

    /// The directories visited so far.
    pub closed spec fn dirs(self) -> Set<Seq<char>> {
        self.all_dirs@.dom()
    }

    /// The directories that are above a recorded file.
    pub closed spec fn occupied(self) -> Set<Seq<char>> {
        self.non_empty_dirs@.dom()
    }

    /// The sync folder of the snapshot in the making.
    pub closed spec fn sync_folder(self) -> Seq<char> {
        self.snapshot.sync_folder@
    }

    /// The machine of the snapshot in the making.
    pub closed spec fn machine(self) -> Seq<char> {
        self.snapshot.machine@
    }

    /// The instant at which the scan began.
    pub closed spec fn taken_at(self) -> Timestamp {
        self.snapshot.synced_at
    }

    /// Nothing recorded lies at or below an ignored path, and nothing is recorded
    /// for the root.
    pub open spec fn wf(self) -> bool {
        &&& forall|p: Seq<char>| #[trigger]
            self.files().contains_key(p) ==> p.len() > 0 && !pruned(self.patterns(), p)
        &&& forall|p: Seq<char>| #[trigger]
            self.dirs().contains(p) ==> p.len() > 0 && !pruned(self.patterns(), p)
    }

    /// A builder for a scan that begins at the instant `at` and has recorded nothing yet.
    pub fn new(sync_folder: &str, machine: &str, ignore: &'a IgnoreMatcher, at: Timestamp) -> (builder: Self)
        ensures
            builder.wf(),
            builder.patterns() == ignore@,
            builder.sync_folder() == sync_folder@,
            builder.machine() == machine@,
            builder.taken_at() == at,
            builder.files() == Map::<Seq<char>, FileEntryView>::empty(),
            builder.dirs() == Set::<Seq<char>>::empty(),
            builder.occupied() == Set::<Seq<char>>::empty(),
    {
        let builder = ScanBuilder {
            ignore,
            snapshot: Snapshot::new(sync_folder, machine, at),
            all_dirs: PathMap::new(),
            non_empty_dirs: PathMap::new(),
        };
        assert(builder.dirs() =~= Set::<Seq<char>>::empty());
        assert(builder.occupied() =~= Set::<Seq<char>>::empty());
        builder
    }

    /// Whether the walk may enter `rel_path`. A walk that stays out of every path
    /// for which this is false never meets a pruned path.
    pub fn admits(&self, rel_path: &str) -> (ok: bool)
        ensures
            ok == enterable(self.patterns(), rel_path@),
    {
        may_enter(self.ignore, rel_path)
    }

    /// Whether the scan leaves `rel_path` out.
    pub fn is_pruned(&self, rel_path: &str) -> (out: bool)
        ensures
            out == pruned(self.patterns(), rel_path@),
    {
        if self.ignore.is_ignored(rel_path) {
            return true;
        }
        let dirs = ancestor_dirs(rel_path);
        let mut i: usize = 0;
        while i < dirs.len()
            invariant
                i <= dirs@.len(),
                forall|k: int| 0 <= k < i ==> !ignores(self.patterns(), #[trigger] dirs@[k]@),
                forall|k: int| 0 <= k < dirs@.len() ==> is_ancestor(#[trigger] dirs@[k]@, rel_path@),
            decreases dirs@.len() - i,
        {
            if self.ignore.is_ignored(dirs[i].as_str()) {
                assert(is_ancestor(dirs@[i as int]@, rel_path@));
                return true;
            }
            i += 1;
        }
        assert forall|dir: Seq<char>| is_ancestor(dir, rel_path@) implies !#[trigger] ignores(self.patterns(), dir) by {
            let k = choose|k: int| 0 <= k < dirs@.len() && #[trigger] dirs@[k]@ == dir;
            assert(!ignores(self.patterns(), dirs@[k]@));
        }
        false
    }

    /// Records a directory that the walk visited. Returns whether it was recorded:
    /// the root and pruned paths are not.
    pub fn visit_dir(&mut self, rel_path: &str) -> (recorded: bool)
        requires
            old(self).wf(),
        ensures
            final(self).wf(),
            final(self).patterns() == old(self).patterns(),
            final(self).sync_folder() == old(self).sync_folder(),
            final(self).machine() == old(self).machine(),
            final(self).taken_at() == old(self).taken_at(),
            final(self).files() == old(self).files(),
            final(self).occupied() == old(self).occupied(),
            recorded == (rel_path@.len() > 0 && !pruned(old(self).patterns(), rel_path@)),
            final(self).dirs() == (if recorded {
                old(self).dirs().insert(rel_path@)
            } else {
                old(self).dirs()
            }),
    {
        if rel_path.unicode_len() == 0 || self.is_pruned(rel_path) {
            return false;
        }
        self.all_dirs.insert(rel_path.to_string(), ());
        assert(self.dirs() =~= old(self).dirs().insert(rel_path@));
        assert(self.files() == old(self).files());
        assert(self.patterns() == old(self).patterns());
        assert forall|p: Seq<char>| #[trigger] self.dirs().contains(p) implies p.len() > 0 && !pruned(
            self.patterns(),
            p,
        ) by {
            if p != rel_path@ {
                assert(old(self).dirs().contains(p));
            }
        }
        true
    }

    /// Offers a file with the size and modification time read from disk. Where the
    /// base snapshot holds the path with the same size and modification time, its
    /// entry is recorded as it stands and the file is not read again, even if its
    /// content changed behind an unchanged modification time. Otherwise nothing is
    /// recorded yet and the file's content must be handed to [`Self::add_hashed_file`].
    pub fn offer_file(&mut self, rel_path: &str, size: u64, mtime_secs: i64, base: Option<&Snapshot>) -> (step:
        FileStep)
        requires
            old(self).wf(),
        ensures
            final(self).wf(),
            final(self).patterns() == old(self).patterns(),
            final(self).sync_folder() == old(self).sync_folder(),
            final(self).machine() == old(self).machine(),
            final(self).taken_at() == old(self).taken_at(),
            final(self).dirs() == old(self).dirs(),
            step == offer_outcome(old(self).patterns(), base_entries(base), rel_path@, size, mtime_secs),
            step == FileStep::Reused ==> {
                &&& final(self).files() == old(self).files().insert(
                    rel_path@,
                    reusable(base_entries(base), rel_path@, size, mtime_secs)->0,
                )
                &&& final(self).occupied() == old(self).occupied().union(ancestors_of(rel_path@))
            },
            step != FileStep::Reused ==> {
                &&& final(self).files() == old(self).files()
                &&& final(self).occupied() == old(self).occupied()
            },
    {
        if rel_path.unicode_len() == 0 || self.is_pruned(rel_path) {
            return FileStep::Skipped;
        }
        match base {
            Some(snapshot) => {
                match snapshot.files.get(rel_path) {
                    Some(previous) => {
                        if previous.size == size && previous.mtime_secs == mtime_secs {
                            let entry = previous.clone();
                            self.record_file(rel_path, entry);
                            return FileStep::Reused;
                        }
                    },
                    None => {},
                }
            },
            None => {},
        }
        FileStep::NeedsHash
    }

    /// Records a file whose content had to be read: its entry carries the content
    /// hash of `content`. Returns whether it was recorded: the root and pruned paths
    /// are not.
    pub fn add_hashed_file(&mut self, rel_path: &str, size: u64, mtime_secs: i64, content: &[u8]) -> (recorded:
        bool)
        requires
            old(self).wf(),
        ensures
            final(self).wf(),
            final(self).patterns() == old(self).patterns(),
            final(self).sync_folder() == old(self).sync_folder(),
            final(self).machine() == old(self).machine(),
            final(self).taken_at() == old(self).taken_at(),
            final(self).dirs() == old(self).dirs(),
            recorded == (rel_path@.len() > 0 && !pruned(old(self).patterns(), rel_path@)),
            recorded ==> {
                &&& final(self).files() == old(self).files().insert(
                    rel_path@,
                    FileEntryView { size, mtime_secs, hash: content_hash_of(content@), is_dir: false },
                )
                &&& final(self).occupied() == old(self).occupied().union(ancestors_of(rel_path@))
            },
            !recorded ==> {
                &&& final(self).files() == old(self).files()
                &&& final(self).occupied() == old(self).occupied()
            },
    {
        if rel_path.unicode_len() == 0 || self.is_pruned(rel_path) {
            return false;
        }
        let entry = FileEntry::file(size, mtime_secs, compute_file_hash(content));
        self.record_file(rel_path, entry);
        true
    }

    /// Records `entry` under `rel_path` and marks every directory above it as occupied.
    fn record_file(&mut self, rel_path: &str, entry: FileEntry)
        requires
            old(self).wf(),
            rel_path@.len() > 0,
            !pruned(old(self).patterns(), rel_path@),
        ensures
            final(self).wf(),
            final(self).patterns() == old(self).patterns(),
            final(self).sync_folder() == old(self).sync_folder(),
            final(self).machine() == old(self).machine(),
            final(self).taken_at() == old(self).taken_at(),
            final(self).dirs() == old(self).dirs(),
            final(self).files() == old(self).files().insert(rel_path@, entry@),
            final(self).occupied() == old(self).occupied().union(ancestors_of(rel_path@)),
    {
        let above = ancestor_dirs(rel_path);
        let mut i: usize = 0;
        while i < above.len()
            invariant
                i <= above@.len(),
                self.ignore == old(self).ignore,
                self.snapshot == old(self).snapshot,
                self.all_dirs == old(self).all_dirs,
                forall|k: int| 0 <= k < above@.len() ==> is_ancestor(#[trigger] above@[k]@, rel_path@),
                forall|d: Seq<char>|
                    self.occupied().contains(d) <==> (old(self).occupied().contains(d) || exists|k: int|
                        0 <= k < i && #[trigger] above@[k]@ == d),
            decreases above@.len() - i,
        {
            let ghost before = self.occupied();
            self.non_empty_dirs.insert(above[i].clone(), ());
            assert(self.occupied() =~= before.insert(above@[i as int]@));
            assert forall|d: Seq<char>|
                self.occupied().contains(d) <==> (old(self).occupied().contains(d) || exists|k: int|
                    0 <= k < i + 1 && #[trigger] above@[k]@ == d) by {
                if exists|k: int| 0 <= k < i + 1 && #[trigger] above@[k]@ == d {
                    let k = choose|k: int| 0 <= k < i + 1 && #[trigger] above@[k]@ == d;
                    if k < i {
                        assert(before.contains(d));
                    }
                }
                if before.contains(d) && !old(self).occupied().contains(d) {
                    let k = choose|k: int| 0 <= k < i && #[trigger] above@[k]@ == d;
                    assert(0 <= k < i + 1 && above@[k]@ == d);
                }
            }
            i += 1;
        }
        proof {
            assert forall|d: Seq<char>|
                self.occupied().contains(d) <==> old(self).occupied().union(ancestors_of(rel_path@)).contains(
                    d,
                ) by {
                if is_ancestor(d, rel_path@) {
                    let k = choose|k: int| 0 <= k < above@.len() && #[trigger] above@[k]@ == d;
                    assert(0 <= k < i && above@[k]@ == d);
                }
            }
            assert(self.occupied() =~= old(self).occupied().union(ancestors_of(rel_path@)));
        }
        self.snapshot.files.insert(rel_path.to_string(), entry);
        assert(self.files() =~= old(self).files().insert(rel_path@, entry@));
        assert(self.dirs() == old(self).dirs());
        assert(self.patterns() == old(self).patterns());
        assert forall|p: Seq<char>| #[trigger] self.files().contains_key(p) implies p.len() > 0 && !pruned(
            self.patterns(),
            p,
        ) by {
            if p != rel_path@ {
                assert(old(self).files().contains_key(p));
            }
        }
    }

    /// Ends the scan: the snapshot holds the recorded files and a placeholder for
    /// each visited directory that is above none of them. No path of it lies at or
    /// below an ignored path.
    pub fn finish(self) -> (snapshot: Snapshot)
        requires
            self.wf(),
        ensures
            snapshot.sync_folder@ == self.sync_folder(),
            snapshot.machine@ == self.machine(),
            snapshot.synced_at == self.taken_at(),
            snapshot.entries() == finished_entries(self.files(), self.dirs(), self.occupied()),
            forall|p: Seq<char>| #[trigger]
                snapshot.entries().contains_key(p) ==> p.len() > 0 && !pruned(self.patterns(), p),
    {
        let ScanBuilder { ignore, snapshot, all_dirs, non_empty_dirs } = self;
        let mut snapshot = snapshot;
        let ghost files = snapshot.entries();
        let ghost occupied = non_empty_dirs@.dom();
        let n = all_dirs.len();
        let mut i: usize = 0;
        assert(snapshot.entries() =~= finished_entries(files, Set::empty(), occupied));
        while i < n
            invariant
                i <= n == all_dirs.pairs().len(),
                all_dirs.wf(),
                occupied == non_empty_dirs@.dom(),
                snapshot.sync_folder == self.snapshot.sync_folder,
                snapshot.machine == self.snapshot.machine,
                snapshot.synced_at == self.snapshot.synced_at,
                snapshot.entries() == finished_entries(
                    files,
                    Set::new(|p: Seq<char>| has_key(all_dirs.pairs().take(i as int), p)),
                    occupied,
                ),
            decreases n - i,
        {
            let dir = all_dirs.key_at(i);
            let ghost before = snapshot.entries();
            let ghost seen = Set::new(|p: Seq<char>| has_key(all_dirs.pairs().take(i as int), p));
            let ghost seen_next = Set::new(|p: Seq<char>| has_key(all_dirs.pairs().take(i + 1), p));
            proof {
                assert forall|p: Seq<char>| seen_next.contains(p) <==> (seen.contains(p) || p == dir@) by {
                    lemma_take_grows(all_dirs.pairs(), i as int, p);
                }
            }
            if !non_empty_dirs.contains_key(dir.as_str()) {
                snapshot.files.insert(dir.clone(), FileEntry::empty_dir());
                assert(snapshot.entries() =~= before.insert(dir@, placeholder()));
            }
            assert(snapshot.entries() =~= finished_entries(files, seen_next, occupied));
            i += 1;
        }
        proof {
            assert(all_dirs.pairs().take(n as int) =~= all_dirs.pairs());
            assert(Set::new(|p: Seq<char>| has_key(all_dirs.pairs(), p)) =~= all_dirs@.dom());
            assert(snapshot.entries() =~= finished_entries(self.files(), self.dirs(), self.occupied()));
        }
        snapshot
    }
}

/// The directories above `path`.
pub open spec fn ancestors_of(path: Seq<char>) -> Set<Seq<char>> {
    Set::new(|dir: Seq<char>| is_ancestor(dir, path))
}

/// The entries of the base snapshot of a scan, if it has one.
pub open spec fn base_entries(base: Option<&Snapshot>) -> Option<Map<Seq<char>, FileEntryView>> {
    match base {
        Some(snapshot) => Some(snapshot.entries()),
        None => None,
    }
}

/// What becomes of a file that is offered to a scan.
pub open spec fn offer_outcome(
    patterns: Seq<Seq<char>>,
    base: Option<Map<Seq<char>, FileEntryView>>,
    path: Seq<char>,
    size: u64,
    mtime_secs: i64,
) -> FileStep {
    if path.len() == 0 || pruned(patterns, path) {
        FileStep::Skipped
    } else if reusable(base, path, size, mtime_secs) is Some {
        FileStep::Reused
    } else {
        FileStep::NeedsHash
    }
}

/// A walk that enters only what it may enter never meets a pruned path: a path is
/// not pruned if it and every directory above it may be entered.
pub proof fn lemma_admitted_walk_meets_no_pruned_path(patterns: Seq<Seq<char>>, path: Seq<char>)
    requires
        path.len() > 0,
        enterable(patterns, path),
        forall|dir: Seq<char>| is_ancestor(dir, path) ==> enterable(patterns, dir),
    ensures
        !pruned(patterns, path),
{
    assert forall|dir: Seq<char>| is_ancestor(dir, path) implies !#[trigger] ignores(patterns, dir) by {
        assert(enterable(patterns, dir));
        let i = choose|i: int| 0 < i < path.len() && path[i] == '/' && dir == #[trigger] path.take(i);
        assert(dir.len() == i);
    }
}

/// A finished scan holds only valid entries if the files recorded in it are valid:
/// every placeholder is.
pub proof fn lemma_finished_entries_are_valid(
    files: Map<Seq<char>, FileEntryView>,
    dirs: Set<Seq<char>>,
    occupied: Set<Seq<char>>,
)
    requires
        forall|p: Seq<char>| files.contains_key(p) ==> #[trigger] files[p].is_valid(),
    ensures
        forall|p: Seq<char>| #[trigger]
            finished_entries(files, dirs, occupied).contains_key(p) ==> finished_entries(
                files,
                dirs,
                occupied,
            )[p].is_valid(),
{
}

/// Ignore pruning: a path below an ignored directory is left out of every scan,
/// whether or not a pattern matches the path itself.
pub proof fn lemma_ignored_directory_prunes_subtree(patterns: Seq<Seq<char>>, dir: Seq<char>, rest: Seq<char>)
    requires
        dir.len() > 0,
        ignores(patterns, dir),
    ensures
        pruned(patterns, dir + "/"@ + rest),
{
    reveal_strlit("/");
    let path = dir + "/"@ + rest;
    assert(path[dir.len() as int] == '/');
    assert(path.take(dir.len() as int) =~= dir);
    assert(is_ancestor(dir, path));
}

} // verus!
