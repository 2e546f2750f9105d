//! Snapshots: the state of one side of a sync folder at one instant.

use vstd::prelude::*;
use crate::clock::Timestamp;
use crate::pathmap::PathMap;
use crate::pathmap::chosen;
use crate::pathmap::chosen_upto;
use crate::pathmap::drawn_from;
use crate::pathmap::has_key;
use crate::pathmap::lemma_chosen_done;
use crate::pathmap::lemma_chosen_start;
use crate::pathmap::lemma_chosen_step;
use crate::pathmap::lookup;
use crate::text::to_chars;
use crate::text::push_char;
use vstd::string::StringExecFns;

verus! {

/// The hash that marks the placeholder entry of an empty directory.
pub open spec fn empty_dir_hash() -> Seq<char> {
    "empty-dir"@
}

/// What a [`FileEntry`] holds, with the hash as plain characters.
pub struct FileEntryView {
    pub size: u64,
    pub mtime_secs: i64,
    pub hash: Seq<char>,
    pub is_dir: bool,
}

/// One filesystem object: a file, or the placeholder of an empty directory.
#[derive(Debug, PartialEq, Eq)]
pub struct FileEntry {
    /// Size in bytes; zero for a directory.
    pub size: u64,
    /// Modification time in seconds since the epoch; zero where it could not be read.
    pub mtime_secs: i64,
    /// Algorithm-tagged digest of the content, or the empty-directory sentinel.
    pub hash: String,
    /// Whether the entry stands for an empty directory.
    pub is_dir: bool,
}

impl View for FileEntry {
    type V = FileEntryView;

    open spec fn view(&self) -> FileEntryView {
        FileEntryView { size: self.size, mtime_secs: self.mtime_secs, hash: self.hash@, is_dir: self.is_dir }
    }
}

impl FileEntryView {
    /// A directory entry has no size, no modification time and the sentinel hash.
    pub open spec fn is_valid(self) -> bool {
        self.is_dir ==> self.size == 0 && self.mtime_secs == 0 && self.hash == empty_dir_hash()
    }
}

impl Clone for FileEntry {
    fn clone(&self) -> (copy: Self)
        ensures
            copy == *self,
    {
        FileEntry { size: self.size, mtime_secs: self.mtime_secs, hash: self.hash.clone(), is_dir: self.is_dir }
    }
}

impl FileEntry {
    /// The entry of a file with the given metadata and content hash.
    pub fn file(size: u64, mtime_secs: i64, hash: String) -> (entry: Self)
        ensures
            entry@ == (FileEntryView { size, mtime_secs, hash: hash@, is_dir: false }),
            entry@.is_valid(),
    {
        FileEntry { size, mtime_secs, hash, is_dir: false }
    }

    /// The placeholder entry of an empty directory.
    pub fn empty_dir() -> (entry: Self)
        ensures
            entry@ == (FileEntryView { size: 0, mtime_secs: 0, hash: empty_dir_hash(), is_dir: true }),
            entry@.is_valid(),
    {
        FileEntry { size: 0, mtime_secs: 0, hash: "empty-dir".to_string(), is_dir: true }
    }
}

/// The entries of a map of files, each by its view.
pub open spec fn entry_views(files: Map<Seq<char>, FileEntry>) -> Map<Seq<char>, FileEntryView> {
    files.map_values(|e: FileEntry| e@)
}

/// The base of the next sync: the entries of the local side at the paths that the
/// secondary side holds too.
pub open spec fn shared_base(local: Map<Seq<char>, FileEntryView>, ssd: Map<Seq<char>, FileEntryView>) -> Map<
    Seq<char>,
    FileEntryView,
> {
    local.restrict(ssd.dom())
}

/// The state of one side of a sync folder: which paths exist, and with what content.
pub struct Snapshot {
    /// The sync folder that this snapshot belongs to.
    pub sync_folder: String,
    /// The machine that took it.
    pub machine: String,
    /// When it was taken.
    pub synced_at: Timestamp,
    /// The entries by normalized relative path, walked in the path order.
    pub files: PathMap<FileEntry>,
}

impl Snapshot {
    /// The entries of the snapshot by path.
    pub open spec fn entries(self) -> Map<Seq<char>, FileEntryView> {
        entry_views(self.files@)
    }

    /// An empty snapshot of `sync_folder` on `machine`, taken at the instant `at`.
    pub fn new(sync_folder: &str, machine: &str, at: Timestamp) -> (snapshot: Self)
        ensures
            snapshot.sync_folder@ == sync_folder@,
            snapshot.machine@ == machine@,
            snapshot.synced_at == at,
            snapshot.files@ == Map::<Seq<char>, FileEntry>::empty(),
            snapshot.entries() == Map::<Seq<char>, FileEntryView>::empty(),
    {
        let snapshot = Snapshot {
            sync_folder: sync_folder.to_string(),
            machine: machine.to_string(),
            synced_at: at,
            files: PathMap::new(),
        };
        assert(snapshot.entries() =~= Map::<Seq<char>, FileEntryView>::empty());
        snapshot
    }

    /// Stamps the snapshot with the instant `at` and leaves the rest as it is.
    pub fn touch(&mut self, at: Timestamp)
        ensures
            final(self).synced_at == at,
            final(self).sync_folder == old(self).sync_folder,
            final(self).machine == old(self).machine,
            final(self).files == old(self).files,
    {
        self.synced_at = at;
    }

    /// Drops every entry whose path `other` does not hold. What is left of a fresh
    /// scan of one side after this, given a fresh scan of the other side, is the base
    /// of the next sync.
    pub fn retain_shared(&mut self, other: &Snapshot)
        ensures
            final(self).sync_folder == old(self).sync_folder,
            final(self).machine == old(self).machine,
            final(self).synced_at == old(self).synced_at,
            final(self).files@ == old(self).files@.restrict(other.files@.dom()),
            final(self).entries() == shared_base(old(self).entries(), other.entries()),
    {
        let ghost mine = self.files@;
        let ghost theirs = other.files@;
        let ghost f = |p: Seq<char>|
            if theirs.contains_key(p) {
                lookup(mine, p)
            } else {
                None
            };
        let mut kept: PathMap<FileEntry> = PathMap::new();
        let n = self.files.len();
        let mut i: usize = 0;
        proof {
            lemma_chosen_start(self.files.pairs(), f);
        }
        while i < n
            invariant
                i <= n == self.files.pairs().len(),
                self.files.wf(),
                kept.wf(),
                mine == self.files@,
                theirs == other.files@,
                f == (|p: Seq<char>|
                    if theirs.contains_key(p) {
                        lookup(mine, p)
                    } else {
                        None
                    }),
                drawn_from(kept.pairs(), self.files.pairs(), i as int),
                kept@ == chosen_upto(self.files.pairs(), i as int, f),
            decreases n - i,
        {
            let path = self.files.key_at(i);
            let entry = self.files.value_at(i);
            proof {
                lemma_chosen_step(self.files.pairs(), i as int, f, kept.pairs());
            }
            if other.files.contains_key(path.as_str()) {
                let ghost grown = kept.pairs().push((path@, *entry));
                assert(kept.pairs().len() > 0 ==> grown[kept.pairs().len() - 1] == kept.pairs().last());
                kept.push_last(path.clone(), entry.clone());
            }
            i += 1;
        }
        proof {
            assert forall|p: Seq<char>| f(p) is Some implies has_key(self.files.pairs(), p) by {
                assert(mine.contains_key(p));
            }
            lemma_chosen_done(self.files.pairs(), f);
            assert(chosen(f) =~= mine.restrict(theirs.dom()));
        }
        self.files = kept;
        assert(self.entries() =~= shared_base(old(self).entries(), other.entries()));
    }

    /// The name of the file that holds the base snapshot of the mapping whose
    /// secondary-relative path is `ssd_rel`.
    pub fn snapshot_filename(ssd_rel: &str) -> (name: String)
        ensures
            name@ == safe_name(ssd_rel@) + ".json"@,
    {
        let mut name = safe_file_stem(ssd_rel);
        name.append(".json");
        name
    }

    /// The name of the file that holds the scan cache of the secondary side of that mapping.
    pub fn cache_filename(ssd_rel: &str) -> (name: String)
        ensures
            name@ == safe_name(ssd_rel@) + "_ssd_cache.json"@,
    {
        let mut name = safe_file_stem(ssd_rel);
        name.append("_ssd_cache.json");
        name
    }
}

/// Whether `c` separates path components or drives and so cannot stand in a file name.
pub open spec fn is_unsafe_in_name(c: char) -> bool {
    c == '/' || c == '\\' || c == ':'
}

/// `path` with every separator and colon replaced by an underscore.
pub open spec fn safe_name(path: Seq<char>) -> Seq<char> {
    path.map_values(|c: char| if is_unsafe_in_name(c) { '_' } else { c })
}

/// `path` with every separator and colon replaced by an underscore.
fn safe_file_stem(path: &str) -> (name: String)
    ensures
        name@ == safe_name(path@),
{
    let chars = to_chars(path);
    let mut name = String::new();
    let mut i: usize = 0;
    while i < chars.len()
        invariant
            i <= chars@.len(),
            chars@ == path@,
            name@ == safe_name(path@).take(i as int),
        decreases chars@.len() - i,
    {
        let c = chars[i];
        if c == '/' || c == '\\' || c == ':' {
            push_char(&mut name, '_');
        } else {
            push_char(&mut name, c);
        }
        assert(name@ =~= safe_name(path@).take(i + 1));
        i += 1;
    }
    assert(safe_name(path@).take(chars@.len() as int) =~= safe_name(path@));
    name
}

} // verus!
