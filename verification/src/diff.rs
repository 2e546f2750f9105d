//! Change detection against a base snapshot, and the three-way merge of two
//! changesets into a sync plan.

use vstd::prelude::*;
use crate::pathmap::ascending;
use crate::pathmap::chosen;
use crate::pathmap::chosen_upto;
use crate::pathmap::drawn_from;
use crate::pathmap::lemma_chosen_done;
use crate::pathmap::lemma_chosen_start;
use crate::pathmap::lemma_chosen_step;
use crate::pathmap::lookup;
use crate::pathmap::pairs_to_map;
use crate::pathmap::union_keys;
use crate::pathmap::PathMap;
use crate::snapshot::FileEntry;
use crate::snapshot::FileEntryView;
use crate::snapshot::Snapshot;

verus! {

/// How a path differs from the base snapshot.
#[derive(Debug, Clone, Copy, PartialEq, Eq, Structural)]
pub enum ChangeType {
    Added,
    Modified,
    Deleted,
}

/// What a change says of its path: the kind of change and the current entry.
pub struct ChangeView {
    pub kind: ChangeType,
    pub entry: Option<FileEntryView>,
}

/// One path that differs from the base snapshot.
#[derive(Debug)]
pub struct FileChange {
    pub path: String,
    pub change_type: ChangeType,
    /// The current entry; absent where the path was deleted.
    pub entry: Option<FileEntry>,
}

impl FileChange {
    /// The change without its path.
    pub open spec fn change(self) -> ChangeView {
        ChangeView {
            kind: self.change_type,
            entry: match self.entry {
                Some(e) => Some(e@),
                None => None,
            },
        }
    }
}

impl Clone for FileChange {
    fn clone(&self) -> (copy: Self)
        ensures
            copy == *self,
    {
        let entry = match &self.entry {
            Some(e) => Some(e.clone()),
            None => None,
        };
        FileChange { path: self.path.clone(), change_type: self.change_type, entry }
    }
}

/// The two kinds of change that collided on one path.
#[derive(Debug, Clone, Copy, PartialEq, Eq, Structural)]
pub struct ConflictInfo {
    pub local_change: ChangeType,
    pub ssd_change: ChangeType,
}

/// What a sync does for one path.
#[derive(Debug, Clone, Copy, PartialEq, Eq, Structural)]
pub enum SyncAction {
    CopyToSsd,
    CopyToLocal,
    DeleteFromSsd,
    DeleteFromLocal,
    Conflict(ConflictInfo),
}

/// What a plan holds for one path.
pub struct PlannedView {
    pub is_dir: bool,
    pub action: SyncAction,
}

/// The action that a plan holds for one path.
#[derive(Debug)]
pub struct SyncPlanEntry {
    pub path: String,
    /// Whether the path is the placeholder of an empty directory.
    pub is_dir: bool,
    pub action: SyncAction,
}

impl SyncPlanEntry {
    /// The entry without its path.
    pub open spec fn planned(self) -> PlannedView {
        PlannedView { is_dir: self.is_dir, action: self.action }
    }
}

impl Clone for SyncPlanEntry {
    fn clone(&self) -> (copy: Self)
        ensures
            copy == *self,
    {
        SyncPlanEntry { path: self.path.clone(), is_dir: self.is_dir, action: self.action }
    }
}

/// The actions of one sync, in the path order.
#[derive(Debug)]
pub struct SyncPlan {
    pub actions: Vec<SyncPlanEntry>,
}

/// The number of conflict entries among `actions`.
pub open spec fn conflicts_in(actions: Seq<SyncPlanEntry>) -> nat
    decreases actions.len(),
{
    if actions.len() == 0 {
        0
    } else {
        conflicts_in(actions.drop_last()) + (if actions.last().action is Conflict {
            1nat
        } else {
            0nat
        })
    }
}

/// There are no more conflicts than entries.
pub proof fn lemma_conflicts_bounded(actions: Seq<SyncPlanEntry>)
    ensures
        conflicts_in(actions) <= actions.len(),
    decreases actions.len(),
{
    if actions.len() > 0 {
        lemma_conflicts_bounded(actions.drop_last());
    }
}

/// A plan counts a conflict exactly when one of its entries is one.
pub proof fn lemma_conflicts_positive(actions: Seq<SyncPlanEntry>)
    ensures
        conflicts_in(actions) > 0 <==> exists|i: int| 0 <= i < actions.len() && #[trigger] actions[i].action is Conflict,
    decreases actions.len(),
{
    if actions.len() > 0 {
        let front = actions.drop_last();
        lemma_conflicts_positive(front);
        if conflicts_in(front) > 0 {
            let i = choose|i: int| 0 <= i < front.len() && #[trigger] front[i].action is Conflict;
            assert(actions[i].action is Conflict);
        }
        if exists|i: int| 0 <= i < actions.len() && #[trigger] actions[i].action is Conflict {
            let i = choose|i: int| 0 <= i < actions.len() && #[trigger] actions[i].action is Conflict;
            if i < front.len() {
                assert(front[i].action is Conflict);
            }
        }
    }
}

impl SyncPlan {
    /// The entries by path.
    pub open spec fn pairs(self) -> Seq<(Seq<char>, PlannedView)> {
        plan_pairs(self.actions@)
    }

    /// Whether any entry is a conflict.
    pub fn has_conflicts(&self) -> (any: bool)
        ensures
            any == (conflicts_in(self.actions@) > 0),
            any == exists|i: int| 0 <= i < self.actions@.len() && #[trigger] self.actions@[i].action is Conflict,
    {
        proof {
            lemma_conflicts_positive(self.actions@);
        }
        self.conflict_count() > 0
    }

    /// The number of conflict entries.
    pub fn conflict_count(&self) -> (count: usize)
        ensures
            count == conflicts_in(self.actions@),
    {
        let mut count: usize = 0;
        let mut i: usize = 0;
        while i < self.actions.len()
            invariant
                i <= self.actions@.len(),
                count == conflicts_in(self.actions@.take(i as int)),
                count <= i,
            decreases self.actions@.len() - i,
        {
            assert(self.actions@.take(i + 1).drop_last() =~= self.actions@.take(i as int));
            if is_conflict(&self.actions[i].action) {
                count += 1;
            }
            i += 1;
        }
        assert(self.actions@.take(i as int) =~= self.actions@);
        count
    }

    /// The number of entries that are not conflicts.
    pub fn non_conflict_count(&self) -> (count: usize)
        ensures
            count == self.actions@.len() - conflicts_in(self.actions@),
    {
        proof {
            lemma_conflicts_bounded(self.actions@);
        }
        self.actions.len() - self.conflict_count()
    }
}

/// Whether `action` is a conflict.
pub fn is_conflict(action: &SyncAction) -> (b: bool)
    ensures
        b == (*action is Conflict),
{
    match action {
        SyncAction::Conflict(_) => true,
        _ => false,
    }
}

/// The changes by path, in the order given.
pub open spec fn change_pairs(changes: Seq<FileChange>) -> Seq<(Seq<char>, ChangeView)> {
    changes.map_values(|c: FileChange| (c.path@, c.change()))
}

/// The plan entries by path, in the order given.
pub open spec fn plan_pairs(actions: Seq<SyncPlanEntry>) -> Seq<(Seq<char>, PlannedView)> {
    actions.map_values(|e: SyncPlanEntry| (e.path@, e.planned()))
}

/// How one path changed between its base entry and its current entry: added where
/// only the current side has it, deleted where only the base has it, modified where
/// both have it with different content hashes. Size and modification time play no part.
pub open spec fn change_of(base: Option<FileEntryView>, current: Option<FileEntryView>) -> Option<ChangeView> {
    match (base, current) {
        (None, None) => None,
        (None, Some(c)) => Some(ChangeView { kind: ChangeType::Added, entry: Some(c) }),
        (Some(_), None) => Some(ChangeView { kind: ChangeType::Deleted, entry: None }),
        (Some(b), Some(c)) => if b.hash != c.hash {
            Some(ChangeView { kind: ChangeType::Modified, entry: Some(c) })
        } else {
            None
        },
    }
}

/// The changeset between two snapshots, by path.
pub open spec fn changes_between(
    base: Map<Seq<char>, FileEntryView>,
    current: Map<Seq<char>, FileEntryView>,
) -> Map<Seq<char>, ChangeView> {
    chosen(|p: Seq<char>| change_of(lookup(base, p), lookup(current, p)))
}

/// Computes the changeset between a base snapshot and a current snapshot: one change
/// for each path that differs, in the path order.
pub fn compute_changes(base: &Snapshot, current: &Snapshot) -> (changes: Vec<FileChange>)
    ensures
        ascending(change_pairs(changes@)),
        pairs_to_map(change_pairs(changes@)) == changes_between(base.entries(), current.entries()),
{
    let ghost f = |p: Seq<char>| change_of(lookup(base.entries(), p), lookup(current.entries(), p));
    let keys = union_keys(&base.files, &current.files);
    let mut changes: Vec<FileChange> = Vec::new();
    let n = keys.len();
    let mut i: usize = 0;
    proof {
        lemma_chosen_start(keys.pairs(), f);
        assert(change_pairs(changes@) =~= Seq::<(Seq<char>, ChangeView)>::empty());
    }
    while i < n
        invariant
            i <= n == keys.pairs().len(),
            keys.wf(),
            f == (|p: Seq<char>| change_of(lookup(base.entries(), p), lookup(current.entries(), p))),
            ascending(change_pairs(changes@)),
            drawn_from(change_pairs(changes@), keys.pairs(), i as int),
            pairs_to_map(change_pairs(changes@)) == chosen_upto(keys.pairs(), i as int, f),
        decreases n - i,
    {
        let path = keys.key_at(i);
        let in_base = base.files.get(path.as_str());
        let in_current = current.files.get(path.as_str());
        let ghost before = changes@;
        proof {
            lemma_chosen_step(keys.pairs(), i as int, f, change_pairs(before));
        }
        match (in_base, in_current) {
            (None, Some(entry)) => {
                let change = FileChange {
                    path: path.clone(),
                    change_type: ChangeType::Added,
                    entry: Some(entry.clone()),
                };
                changes.push(change);
                assert(change_pairs(changes@) =~= change_pairs(before).push((path@, f(path@)->0)));
            },
            (Some(_), None) => {
                let change = FileChange { path: path.clone(), change_type: ChangeType::Deleted, entry: None };
                changes.push(change);
                assert(change_pairs(changes@) =~= change_pairs(before).push((path@, f(path@)->0)));
            },
            (Some(base_entry), Some(entry)) => {
                if !(base_entry.hash == entry.hash) {
                    let change = FileChange {
                        path: path.clone(),
                        change_type: ChangeType::Modified,
                        entry: Some(entry.clone()),
                    };
                    changes.push(change);
                    assert(change_pairs(changes@) =~= change_pairs(before).push((path@, f(path@)->0)));
                }
            },
            (None, None) => {},
        }
        i += 1;
    }
    proof {
        assert forall|p: Seq<char>| f(p) is Some implies crate::pathmap::has_key(keys.pairs(), p) by {
            assert(base.files@.contains_key(p) || current.files@.contains_key(p));
            assert(keys@.contains_key(p));
        }
        lemma_chosen_done(keys.pairs(), f);
    }
    changes
}

/// The changes by path, a later change of a path replacing an earlier one.
pub open spec fn index_changes(changes: Seq<FileChange>) -> Map<Seq<char>, ChangeView>
    decreases changes.len(),
{
    if changes.len() == 0 {
        Map::empty()
    } else {
        index_changes(changes.drop_last()).insert(changes.last().path@, changes.last().change())
    }
}

/// Whether the change leaves content at its path.
pub open spec fn leaves_content(c: ChangeView) -> bool {
    c.kind != ChangeType::Deleted
}

/// Whether both changes leave content with the same hash.
pub open spec fn same_content(local: ChangeView, ssd: ChangeView) -> bool {
    &&& leaves_content(local)
    &&& leaves_content(ssd)
    &&& local.entry is Some
    &&& ssd.entry is Some
    &&& local.entry->0.hash == ssd.entry->0.hash
}

/// The action for one path, from what changed on the local side and on the secondary
/// side since the base. A change on one side alone is carried to the other side.
/// Changes on both sides cancel where both deleted the path or both left the same
/// content, and collide otherwise.
pub open spec fn decide(local: Option<ChangeView>, ssd: Option<ChangeView>) -> Option<SyncAction> {
    match (local, ssd) {
        (None, None) => None,
        (Some(l), None) => Some(
            if leaves_content(l) {
                SyncAction::CopyToSsd
            } else {
                SyncAction::DeleteFromSsd
            },
        ),
        (None, Some(s)) => Some(
            if leaves_content(s) {
                SyncAction::CopyToLocal
            } else {
                SyncAction::DeleteFromLocal
            },
        ),
        (Some(l), Some(s)) => if !leaves_content(l) && !leaves_content(s) {
            None
        } else if same_content(l, s) {
            None
        } else {
            Some(SyncAction::Conflict(ConflictInfo { local_change: l.kind, ssd_change: s.kind }))
        },
    }
}

/// Whether the change carries the placeholder entry of an empty directory.
pub open spec fn names_dir(c: Option<ChangeView>) -> bool {
    c is Some && c->0.entry is Some && c->0.entry->0.is_dir
}

/// What the plan holds for one path: the action, and whether either side's change
/// shows the path to be an empty directory.
pub open spec fn planned_for(local: Option<ChangeView>, ssd: Option<ChangeView>) -> Option<PlannedView> {
    match decide(local, ssd) {
        Some(action) => Some(PlannedView { is_dir: names_dir(local) || names_dir(ssd), action }),
        None => None,
    }
}

/// The plan that merges two changesets, by path.
pub open spec fn plan_between(local: Map<Seq<char>, ChangeView>, ssd: Map<Seq<char>, ChangeView>) -> Map<
    Seq<char>,
    PlannedView,
> {
    chosen(|p: Seq<char>| planned_for(lookup(local, p), lookup(ssd, p)))
}

/// For each path of `changes`, the position of its last change.
fn index_by_path(changes: &[FileChange]) -> (index: PathMap<usize>)
    ensures
        index.wf(),
        forall|p: Seq<char>| index@.contains_key(p) <==> index_changes(changes@).contains_key(p),
        forall|p: Seq<char>| #[trigger]
            index@.contains_key(p) ==> index@[p] < changes@.len() && changes@[index@[p] as int].change()
                == index_changes(changes@)[p],
{
    let mut index: PathMap<usize> = PathMap::new();
    let mut i: usize = 0;
    while i < changes.len()
        invariant
            i <= changes@.len(),
            index.wf(),
            forall|p: Seq<char>|
                index@.contains_key(p) <==> index_changes(changes@.take(i as int)).contains_key(p),
            forall|p: Seq<char>| #[trigger]
                index@.contains_key(p) ==> index@[p] < i && changes@[index@[p] as int].change()
                    == index_changes(changes@.take(i as int))[p],
        decreases changes@.len() - i,
    {
        assert(changes@.take(i + 1).drop_last() =~= changes@.take(i as int));
        assert(changes@.take(i + 1).last() == changes@[i as int]);
        index.insert(changes[i].path.clone(), i);
        i += 1;
    }
    assert(changes@.take(i as int) =~= changes@);
    index
}

/// The change that `index` points to under `path`, if any.
fn change_at<'a>(changes: &'a [FileChange], index: &PathMap<usize>, path: &str) -> (found: Option<&'a FileChange>)
    requires
        forall|p: Seq<char>| index@.contains_key(p) <==> index_changes(changes@).contains_key(p),
        forall|p: Seq<char>| #[trigger]
            index@.contains_key(p) ==> index@[p] < changes@.len() && changes@[index@[p] as int].change()
                == index_changes(changes@)[p],
    ensures
        match found {
            Some(c) => Some(c.change()) == lookup(index_changes(changes@), path@),
            None => lookup(index_changes(changes@), path@) is None,
        },
{
    match index.get(path) {
        Some(i) => {
            assert(index@.contains_key(path@));
            Some(&changes[*i])
        },
        None => None,
    }
}

/// Whether the change carries the placeholder entry of an empty directory.
fn change_names_dir(change: &Option<&FileChange>) -> (b: bool)
    ensures
        b == names_dir(
            match *change {
                Some(c) => Some(c.change()),
                None => None,
            },
        ),
{
    match change {
        Some(c) => match &c.entry {
            Some(e) => e.is_dir,
            None => false,
        },
        None => false,
    }
}

/// Whether both changes leave content with the same hash.
fn changes_agree(local: &FileChange, ssd: &FileChange) -> (b: bool)
    ensures
        b == same_content(local.change(), ssd.change()),
{
    if local.change_type == ChangeType::Deleted || ssd.change_type == ChangeType::Deleted {
        return false;
    }
    match (&local.entry, &ssd.entry) {
        (Some(l), Some(s)) => l.hash == s.hash,
        _ => false,
    }
}

/// Decides the action for one path from the change on either side.
pub fn decide_action(local: Option<&FileChange>, ssd: Option<&FileChange>) -> (action: Option<SyncAction>)
    ensures
        action == decide(
            match local {
                Some(c) => Some(c.change()),
                None => None,
            },
            match ssd {
                Some(c) => Some(c.change()),
                None => None,
            },
        ),
{
    match (local, ssd) {
        (None, None) => None,
        (Some(l), None) => {
            if l.change_type == ChangeType::Deleted {
                Some(SyncAction::DeleteFromSsd)
            } else {
                Some(SyncAction::CopyToSsd)
            }
        },
        (None, Some(s)) => {
            if s.change_type == ChangeType::Deleted {
                Some(SyncAction::DeleteFromLocal)
            } else {
                Some(SyncAction::CopyToLocal)
            }
        },
        (Some(l), Some(s)) => {
            if l.change_type == ChangeType::Deleted && s.change_type == ChangeType::Deleted {
                None
            } else if changes_agree(l, s) {
                None
            } else {
                Some(
                    SyncAction::Conflict(
                        ConflictInfo { local_change: l.change_type, ssd_change: s.change_type },
                    ),
                )
            }
        },
    }
}

/// Builds the sync plan that merges the local and the secondary changeset: one entry
/// for each path that needs an action, in the path order. Where a changeset names a
/// path more than once, its last change of that path counts.
pub fn build_sync_plan(local_changes: &[FileChange], ssd_changes: &[FileChange]) -> (plan: SyncPlan)
    ensures
        ascending(plan.pairs()),
        pairs_to_map(plan.pairs()) == plan_between(index_changes(local_changes@), index_changes(ssd_changes@)),
{
    let ghost local = index_changes(local_changes@);
    let ghost ssd = index_changes(ssd_changes@);
    let ghost f = |p: Seq<char>| planned_for(lookup(local, p), lookup(ssd, p));
    let local_index = index_by_path(local_changes);
    let ssd_index = index_by_path(ssd_changes);
    let keys = union_keys(&local_index, &ssd_index);
    let mut actions: Vec<SyncPlanEntry> = Vec::new();
    let n = keys.len();
    let mut i: usize = 0;
    proof {
        lemma_chosen_start(keys.pairs(), f);
        assert(plan_pairs(actions@) =~= Seq::<(Seq<char>, PlannedView)>::empty());
    }
    while i < n
        invariant
            i <= n == keys.pairs().len(),
            keys.wf(),
            local == index_changes(local_changes@),
            ssd == index_changes(ssd_changes@),
            f == (|p: Seq<char>| planned_for(lookup(local, p), lookup(ssd, p))),
            forall|p: Seq<char>| local_index@.contains_key(p) <==> local.contains_key(p),
            forall|p: Seq<char>| #[trigger]
                local_index@.contains_key(p) ==> local_index@[p] < local_changes@.len()
                    && local_changes@[local_index@[p] as int].change() == local[p],
            forall|p: Seq<char>| ssd_index@.contains_key(p) <==> ssd.contains_key(p),
            forall|p: Seq<char>| #[trigger]
                ssd_index@.contains_key(p) ==> ssd_index@[p] < ssd_changes@.len()
                    && ssd_changes@[ssd_index@[p] as int].change() == ssd[p],
            ascending(plan_pairs(actions@)),
            drawn_from(plan_pairs(actions@), keys.pairs(), i as int),
            pairs_to_map(plan_pairs(actions@)) == chosen_upto(keys.pairs(), i as int, f),
        decreases n - i,
    {
        let path = keys.key_at(i);
        let local_change = change_at(local_changes, &local_index, path.as_str());
        let ssd_change = change_at(ssd_changes, &ssd_index, path.as_str());
        let ghost before = actions@;
        proof {
            lemma_chosen_step(keys.pairs(), i as int, f, plan_pairs(before));
        }
        let is_dir = change_names_dir(&local_change) || change_names_dir(&ssd_change);
        match decide_action(local_change, ssd_change) {
            Some(action) => {
                actions.push(SyncPlanEntry { path: path.clone(), is_dir, action });
                assert(plan_pairs(actions@) =~= plan_pairs(before).push((path@, f(path@)->0)));
            },
            None => {},
        }
        i += 1;
    }
    proof {
        assert forall|p: Seq<char>| f(p) is Some implies crate::pathmap::has_key(keys.pairs(), p) by {
            assert(local.contains_key(p) || ssd.contains_key(p));
            assert(local_index@.contains_key(p) || ssd_index@.contains_key(p));
            assert(keys@.contains_key(p));
        }
        lemma_chosen_done(keys.pairs(), f);
    }
    SyncPlan { actions }
}

} // verus!
