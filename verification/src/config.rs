//! Configuration: the machine, its folder mappings, the ignore list and the
//! conflict strategy, and where the engine keeps its files.

use vstd::prelude::*;
use crate::order::rank_paths;
use crate::order::Rank;
use crate::paths::join;
use crate::paths::joined;

verus! {

/// How a conflict is resolved.
#[derive(Debug, Clone, Copy, PartialEq, Eq, Structural)]
pub enum ConflictStrategy {
    /// Keep both versions, the local one under a conflict name.
    Both,
    /// The local version replaces the secondary one.
    LocalWins,
    /// The secondary version replaces the local one.
    SsdWins,
    /// The version that was modified last replaces the other.
    NewerWins,
    /// Ask the user; without a user at hand this keeps both versions.
    Ask,
}

/// This machine and where it mounts the secondary volume.
#[derive(Debug)]
pub struct MachineConfig {
    pub name: String,
    pub ssd_mount: Option<String>,
}

/// One pairing of a local directory with a location on the secondary volume.
#[derive(Debug)]
pub struct SyncMapping {
    pub name: Option<String>,
    pub local: String,
    pub ssd: String,
}

/// The ordered list of ignore patterns.
#[derive(Debug)]
pub struct IgnoreConfig {
    pub patterns: Vec<String>,
}

/// The conflict strategy in force.
#[derive(Debug)]
pub struct ConflictConfig {
    pub strategy: ConflictStrategy,
}

/// The whole configuration of one machine.
#[derive(Debug)]
pub struct AppConfig {
    pub machine: MachineConfig,
    pub sync: Vec<SyncMapping>,
    pub ignore: IgnoreConfig,
    pub conflict: ConflictConfig,
}

/// The texts of a list of strings.
pub open spec fn texts(strings: Seq<String>) -> Seq<Seq<char>> {
    strings.map_values(|s: String| s@)
}

/// The patterns that a fresh configuration ignores: system files, version control,
/// and the build and cache directories of common toolchains.
pub open spec fn default_patterns() -> Seq<Seq<char>> {
    seq![
        ".DS_Store"@,
        "Thumbs.db"@,
        "desktop.ini"@,
        ".ssd-syncer"@,
        ".git"@,
        ".svn"@,
        ".hg"@,
        "__pycache__"@,
        ".venv"@,
        "venv"@,
        ".eggs"@,
        "*.egg-info"@,
        ".tox"@,
        ".mypy_cache"@,
        ".pytest_cache"@,
        ".ruff_cache"@,
        "node_modules"@,
        ".next"@,
        ".nuxt"@,
        "bower_components"@,
        "target"@,
        ".gradle"@,
        "bin"@,
        "obj"@,
        "vendor"@,
        ".idea"@,
        ".vs"@,
        "*.swp"@,
        "*.swo"@,
        "dist"@,
        "build"@,
        ".cache"@,
        "__MACOSX"@,
        ".tmp"@,
        "*.pyc"@,
    ]
}

/// The patterns that a fresh configuration ignores.
pub fn default_ignore_patterns() -> (patterns: Vec<String>)
    ensures
        texts(patterns@) == default_patterns(),
{
    let mut patterns: Vec<String> = Vec::new();
    patterns.push(".DS_Store".to_string());
    patterns.push("Thumbs.db".to_string());
    patterns.push("desktop.ini".to_string());
    patterns.push(".ssd-syncer".to_string());
    patterns.push(".git".to_string());
    patterns.push(".svn".to_string());
    patterns.push(".hg".to_string());
    patterns.push("__pycache__".to_string());
    patterns.push(".venv".to_string());
    patterns.push("venv".to_string());
    patterns.push(".eggs".to_string());
    patterns.push("*.egg-info".to_string());
    patterns.push(".tox".to_string());
    patterns.push(".mypy_cache".to_string());
    patterns.push(".pytest_cache".to_string());
    patterns.push(".ruff_cache".to_string());
    patterns.push("node_modules".to_string());
    patterns.push(".next".to_string());
    patterns.push(".nuxt".to_string());
    patterns.push("bower_components".to_string());
    patterns.push("target".to_string());
    patterns.push(".gradle".to_string());
    patterns.push("bin".to_string());
    patterns.push("obj".to_string());
    patterns.push("vendor".to_string());
    patterns.push(".idea".to_string());
    patterns.push(".vs".to_string());
    patterns.push("*.swp".to_string());
    patterns.push("*.swo".to_string());
    patterns.push("dist".to_string());
    patterns.push("build".to_string());
    patterns.push(".cache".to_string());
    patterns.push("__MACOSX".to_string());
    patterns.push(".tmp".to_string());
    patterns.push("*.pyc".to_string());
    assert(texts(patterns@) =~= default_patterns());
    patterns
}

/// The strategy of a fresh configuration: keep both versions.
pub fn default_conflict_strategy() -> (strategy: ConflictStrategy)
    ensures
        strategy == ConflictStrategy::Both,
{
    ConflictStrategy::Both
}

impl Default for IgnoreConfig {
    fn default() -> (config: Self)
        ensures
            texts(config.patterns@) == default_patterns(),
    {
        IgnoreConfig { patterns: default_ignore_patterns() }
    }
}

impl Default for ConflictConfig {
    fn default() -> (config: Self)
        ensures
            config.strategy == ConflictStrategy::Both,
    {
        ConflictConfig { strategy: default_conflict_strategy() }
    }
}

/// Why a mapping cannot be added.
#[derive(Debug, Clone, Copy, PartialEq, Eq, Structural)]
pub enum MappingError {
    /// A mapping for the same secondary path exists already.
    DuplicateSsd,
    /// A mapping with the same alias exists already.
    DuplicateName,
}

/// Whether some mapping has the secondary path `ssd`.
pub open spec fn has_ssd(sync: Seq<SyncMapping>, ssd: Seq<char>) -> bool {
    exists|i: int| 0 <= i < sync.len() && #[trigger] sync[i].ssd@ == ssd
}

/// Whether some mapping has the alias `name`.
pub open spec fn has_name(sync: Seq<SyncMapping>, name: Seq<char>) -> bool {
    exists|i: int| 0 <= i < sync.len() && is_named(#[trigger] sync[i], name)
}

/// Whether a mapping for `ssd` with the alias `name` can join `sync`: the secondary
/// path must be new, and so must the alias if there is one. A secondary path that
/// exists already is reported first.
pub open spec fn admission(sync: Seq<SyncMapping>, ssd: Seq<char>, name: Option<Seq<char>>) -> Result<
    (),
    MappingError,
> {
    if has_ssd(sync, ssd) {
        Err(MappingError::DuplicateSsd)
    } else if name is Some && has_name(sync, name->0) {
        Err(MappingError::DuplicateName)
    } else {
        Ok(())
    }
}

/// The mappings whose secondary path is not `ssd`, in their order.
pub open spec fn without_ssd(sync: Seq<SyncMapping>, ssd: Seq<char>) -> Seq<SyncMapping>
    decreases sync.len(),
{
    if sync.len() == 0 {
        Seq::empty()
    } else if sync.last().ssd@ == ssd {
        without_ssd(sync.drop_last(), ssd)
    } else {
        without_ssd(sync.drop_last(), ssd).push(sync.last())
    }
}

/// The position of the first text equal to `wanted`, or -1.
pub open spec fn first_text(list: Seq<Seq<char>>, wanted: Seq<char>, from: int) -> int
    decreases list.len() - from,
{
    if from < 0 || from >= list.len() {
        -1
    } else if list[from] == wanted {
        from
    } else {
        first_text(list, wanted, from + 1)
    }
}

/// A position that holds the text, with none before it, is the first one.
pub proof fn lemma_first_text(list: Seq<Seq<char>>, wanted: Seq<char>, from: int, at: int)
    requires
        0 <= from,
        at == -1 || from <= at < list.len(),
        at >= 0 ==> list[at] == wanted,
        forall|j: int| from <= j < (if at >= 0 { at } else { list.len() as int }) ==> list[j] != wanted,
    ensures
        first_text(list, wanted, from) == at,
    decreases list.len() - from,
{
    if from < list.len() && from != at {
        lemma_first_text(list, wanted, from + 1, at);
    }
}

impl IgnoreConfig {
    /// The position of the first pattern equal to `pattern`.
    pub fn position(&self, pattern: &str) -> (found: Option<usize>)
        ensures
            match found {
                Some(i) => i < self.patterns@.len() && i == first_text(texts(self.patterns@), pattern@, 0),
                None => first_text(texts(self.patterns@), pattern@, 0) == -1,
            },
    {
        let mut i: usize = 0;
        while i < self.patterns.len()
            invariant
                i <= self.patterns@.len(),
                forall|j: int| 0 <= j < i ==> texts(self.patterns@)[j] != pattern@,
            decreases self.patterns@.len() - i,
        {
            if rank_paths(self.patterns[i].as_str(), pattern) == Rank::Same {
                proof {
                    lemma_first_text(texts(self.patterns@), pattern@, 0, i as int);
                }
                return Some(i);
            }
            i += 1;
        }
        proof {
            lemma_first_text(texts(self.patterns@), pattern@, 0, -1);
        }
        None
    }

    /// Adds `pattern` at the end of the list unless the list holds it already.
    /// Returns whether it was added.
    pub fn add_pattern(&mut self, pattern: &str) -> (added: bool)
        ensures
            added == (first_text(texts(old(self).patterns@), pattern@, 0) == -1),
            texts(final(self).patterns@) == (if added {
                texts(old(self).patterns@).push(pattern@)
            } else {
                texts(old(self).patterns@)
            }),
    {
        match self.position(pattern) {
            Some(_) => false,
            None => {
                self.patterns.push(pattern.to_string());
                assert(texts(self.patterns@) =~= texts(old(self).patterns@).push(pattern@));
                true
            },
        }
    }

    /// Removes the first occurrence of `pattern` from the list. Returns whether
    /// there was one.
    pub fn remove_pattern(&mut self, pattern: &str) -> (removed: bool)
        ensures
            removed == (first_text(texts(old(self).patterns@), pattern@, 0) >= 0),
            texts(final(self).patterns@) == (if removed {
                texts(old(self).patterns@).remove(first_text(texts(old(self).patterns@), pattern@, 0))
            } else {
                texts(old(self).patterns@)
            }),
    {
        match self.position(pattern) {
            Some(i) => {
                self.patterns.remove(i);
                assert(texts(self.patterns@) =~= texts(old(self).patterns@).remove(i as int));
                true
            },
            None => false,
        }
    }
}

/// The directory that holds the engine's files, below a home directory or a mount point.
pub open spec fn syncer_dir_of(base: Seq<char>) -> Seq<char> {
    joined(base, ".ssd-syncer"@)
}

/// Whether the mapping carries the alias `name`.
pub open spec fn is_named(mapping: SyncMapping, name: Seq<char>) -> bool {
    mapping.name is Some && mapping.name->0@ == name
}

impl AppConfig {
    /// The directory of the configuration, below the home directory `home`.
    pub fn config_dir(home: &str) -> (dir: String)
        ensures
            dir@ == syncer_dir_of(home@),
    {
        join(home, ".ssd-syncer")
    }

    /// The configuration file, below the home directory `home`.
    pub fn config_path(home: &str) -> (path: String)
        ensures
            path@ == joined(syncer_dir_of(home@), "config.toml"@),
    {
        let dir = Self::config_dir(home);
        join(dir.as_str(), "config.toml")
    }

    /// A fresh configuration for the machine `machine_name`: no default mount, no
    /// mappings, the default ignore patterns and the default conflict strategy.
    pub fn create_new(machine_name: &str) -> (config: Self)
        ensures
            config.machine.name@ == machine_name@,
            config.machine.ssd_mount is None,
            config.sync@.len() == 0,
            texts(config.ignore.patterns@) == default_patterns(),
            config.conflict.strategy == ConflictStrategy::Both,
    {
        AppConfig {
            machine: MachineConfig { name: machine_name.to_string(), ssd_mount: None },
            sync: Vec::new(),
            ignore: IgnoreConfig::default(),
            conflict: ConflictConfig::default(),
        }
    }

    /// The position of the first mapping with the alias `name`.
    pub fn position_of_mapping(&self, name: &str) -> (found: Option<usize>)
        ensures
            match found {
                Some(i) => i < self.sync@.len() && is_named(self.sync@[i as int], name@) && forall|j: int|
                    0 <= j < i ==> !is_named(self.sync@[j], name@),
                None => forall|j: int| 0 <= j < self.sync@.len() ==> !is_named(self.sync@[j], name@),
            },
    {
        let mut i: usize = 0;
        while i < self.sync.len()
            invariant
                i <= self.sync@.len(),
                forall|j: int| 0 <= j < i ==> !is_named(self.sync@[j], name@),
            decreases self.sync@.len() - i,
        {
            match &self.sync[i].name {
                Some(alias) => {
                    if rank_paths(alias.as_str(), name) == Rank::Same {
                        return Some(i);
                    }
                },
                None => {},
            }
            i += 1;
        }
        None
    }

    /// The first mapping with the alias `name`.
    pub fn find_mapping_by_name(&self, name: &str) -> (found: Option<&SyncMapping>)
        ensures
            match found {
                Some(m) => exists|i: int|
                    0 <= i < self.sync@.len() && *m == #[trigger] self.sync@[i] && is_named(*m, name@) && forall|
                        j: int,
                    |
                        0 <= j < i ==> !is_named(self.sync@[j], name@),
                None => forall|j: int| 0 <= j < self.sync@.len() ==> !is_named(self.sync@[j], name@),
            },
    {
        match self.position_of_mapping(name) {
            Some(i) => Some(&self.sync[i]),
            None => None,
        }
    }

    /// Whether some mapping has the secondary path `ssd`.
    pub fn has_mapping_for(&self, ssd: &str) -> (found: bool)
        ensures
            found == has_ssd(self.sync@, ssd@),
    {
        let mut i: usize = 0;
        while i < self.sync.len()
            invariant
                i <= self.sync@.len(),
                forall|j: int| 0 <= j < i ==> (#[trigger] self.sync@[j]).ssd@ != ssd@,
            decreases self.sync@.len() - i,
        {
            if rank_paths(self.sync[i].ssd.as_str(), ssd) == Rank::Same {
                return true;
            }
            i += 1;
        }
        false
    }

    /// Whether a mapping for `ssd` with the alias `name` can be added.
    pub fn check_new_mapping(&self, ssd: &str, name: Option<&str>) -> (verdict: Result<(), MappingError>)
        ensures
            verdict == admission(
                self.sync@,
                ssd@,
                match name {
                    Some(n) => Some(n@),
                    None => None,
                },
            ),
    {
        if self.has_mapping_for(ssd) {
            return Err(MappingError::DuplicateSsd);
        }
        match name {
            Some(n) => {
                if self.position_of_mapping(n).is_some() {
                    return Err(MappingError::DuplicateName);
                }
            },
            None => {},
        }
        Ok(())
    }

    /// Adds a mapping at the end of the list, if it can be added.
    pub fn add_mapping(&mut self, local: &str, ssd: &str, name: Option<&str>) -> (verdict: Result<
        (),
        MappingError,
    >)
        ensures
            verdict == admission(
                old(self).sync@,
                ssd@,
                match name {
                    Some(n) => Some(n@),
                    None => None,
                },
            ),
            final(self).machine == old(self).machine,
            final(self).ignore == old(self).ignore,
            final(self).conflict == old(self).conflict,
            verdict is Err ==> final(self).sync@ == old(self).sync@,
            verdict is Ok ==> {
                &&& final(self).sync@.len() == old(self).sync@.len() + 1
                &&& final(self).sync@.drop_last() == old(self).sync@
                &&& final(self).sync@.last().local@ == local@
                &&& final(self).sync@.last().ssd@ == ssd@
                &&& crate::target::opt_text(final(self).sync@.last().name) == (match name {
                    Some(n) => Some(n@),
                    None => None,
                })
            },
    {
        match self.check_new_mapping(ssd, name) {
            Err(e) => Err(e),
            Ok(()) => {
                let alias: Option<String> = match name {
                    Some(n) => Some(n.to_string()),
                    None => None,
                };
                self.sync.push(SyncMapping { name: alias, local: local.to_string(), ssd: ssd.to_string() });
                assert(self.sync@.drop_last() =~= old(self).sync@);
                Ok(())
            },
        }
    }

    /// Removes every mapping for the secondary path `ssd`. Returns how many there were.
    pub fn remove_mappings_for(&mut self, ssd: &str) -> (removed: usize)
        ensures
            final(self).machine == old(self).machine,
            final(self).ignore == old(self).ignore,
            final(self).conflict == old(self).conflict,
            final(self).sync@ == without_ssd(old(self).sync@, ssd@),
            removed == old(self).sync@.len() - final(self).sync@.len(),
            removed > 0 <==> has_ssd(old(self).sync@, ssd@),
    {
        let ghost before = self.sync@;
        let total = self.sync.len();
        let mut removed: usize = 0;
        let mut i: usize = 0;
        while i < self.sync.len()
            invariant
                total == before.len(),
                self.machine == old(self).machine,
                self.ignore == old(self).ignore,
                self.conflict == old(self).conflict,
                before == old(self).sync@,
                i <= self.sync@.len(),
                i + removed <= before.len(),
                self.sync@.len() + removed == before.len(),
                self.sync@.take(i as int) == without_ssd(before.take(i + removed), ssd@),
                self.sync@.skip(i as int) == before.skip(i + removed),
                removed > 0 <==> has_ssd(before.take(i + removed), ssd@),
            decreases self.sync@.len() - i,
        {
            let ghost k = i + removed;
            let ghost now = self.sync@;
            assert(now[i as int] == now.skip(i as int)[0]);
            assert(now[i as int] == before[k]);
            assert(before.take(k + 1).drop_last() =~= before.take(k));
            assert(before.take(k + 1).last() == before[k]);
            assert forall|j: int| 0 <= j < now.len() - i - 1 implies #[trigger] now.skip(i + 1)[j]
                == before.skip(k + 1)[j] by {
                assert(now.skip(i as int)[j + 1] == before.skip(k)[j + 1]);
            }
            assert(now.skip(i + 1) =~= before.skip(k + 1));
            proof {
                if has_ssd(before.take(k + 1), ssd@) && !has_ssd(before.take(k), ssd@) {
                    let j = choose|j: int| 0 <= j < k + 1 && #[trigger] before.take(k + 1)[j].ssd@ == ssd@;
                    if j < k {
                        assert(before.take(k)[j].ssd@ == ssd@);
                    }
                }
                if has_ssd(before.take(k), ssd@) {
                    let j = choose|j: int| 0 <= j < k && #[trigger] before.take(k)[j].ssd@ == ssd@;
                    assert(before.take(k + 1)[j].ssd@ == ssd@);
                }
            }
            if rank_paths(self.sync[i].ssd.as_str(), ssd) == Rank::Same {
                self.sync.remove(i);
                removed += 1;
                assert(before.take(k + 1)[k].ssd@ == ssd@);
                assert(self.sync@.take(i as int) =~= now.take(i as int));
                assert(self.sync@.skip(i as int) =~= now.skip(i + 1));
            } else {
                assert(self.sync@.take(i + 1) =~= now.take(i as int).push(now[i as int]));
                i += 1;
            }
        }
        proof {
            assert(self.sync@.take(i as int) =~= self.sync@);
            assert(before.take(i + removed) =~= before);
        }
        removed
    }

    /// The directory on the secondary volume that holds the engine's bookkeeping.
    pub fn ssd_syncer_dir(ssd_mount: &str) -> (dir: String)
        ensures
            dir@ == syncer_dir_of(ssd_mount@),
    {
        join(ssd_mount, ".ssd-syncer")
    }

    /// The directory on the secondary volume that holds the snapshots of `machine_name`.
    pub fn ssd_snapshots_dir(ssd_mount: &str, machine_name: &str) -> (dir: String)
        ensures
            dir@ == joined(joined(syncer_dir_of(ssd_mount@), "snapshots"@), machine_name@),
    {
        let root = Self::ssd_syncer_dir(ssd_mount);
        let snapshots = join(root.as_str(), "snapshots");
        join(snapshots.as_str(), machine_name)
    }
}

} // verus!
