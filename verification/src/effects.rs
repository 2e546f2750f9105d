//! What the file operations of the engine do to the two trees, and what follows
//! for the way conflicts are resolved.
//!
//! The trees are taken as maps from the path of a file to its content. Directories
//! are left out: creating and removing them changes no file.

use vstd::prelude::*;
use crate::config::ConflictStrategy;
use crate::diff::SyncAction;
use crate::paths::conflict_path;
use crate::paths::extension_start;
use crate::paths::is_ancestor;
use crate::paths::lemma_ancestor_is_shorter;
use crate::paths::lemma_ancestor_of_ancestor;
use crate::paths::lemma_parent_is_nearest;
use crate::paths::parent_of;
use crate::paths::lemma_last_index_of;
use crate::sync_engine::conflict_ops;
use crate::sync_engine::copy_across;
use crate::sync_engine::direct_ops;
use crate::sync_engine::keep_both_ops;
use crate::sync_engine::newer_side;
use crate::sync_engine::winner_ops;
use crate::sync_engine::FileOpView;
use crate::sync_engine::PathFacts;
use crate::sync_engine::Side;

verus! {

/// The files of both trees: for each path of a file, its content.
pub struct Trees {
    pub local: Map<Seq<char>, Seq<u8>>,
    pub ssd: Map<Seq<char>, Seq<u8>>,
}

impl Trees {
    /// The files of one tree.
    pub open spec fn on(self, side: Side) -> Map<Seq<char>, Seq<u8>> {
        match side {
            Side::Local => self.local,
            Side::Ssd => self.ssd,
        }
    }

    /// The trees with the files of one tree replaced.
    pub open spec fn with(self, side: Side, files: Map<Seq<char>, Seq<u8>>) -> Trees {
        match side {
            Side::Local => Trees { local: files, ssd: self.ssd },
            Side::Ssd => Trees { local: self.local, ssd: files },
        }
    }

    /// Whether both trees hold the same content at `path`, or neither holds the path.
    pub open spec fn agree_at(self, path: Seq<char>) -> bool {
        if self.local.contains_key(path) {
            self.ssd.contains_key(path) && self.ssd[path] == self.local[path]
        } else {
            !self.ssd.contains_key(path)
        }
    }
}

/// The trees after `op`, or nothing where `op` fails: a copy or a move needs its
/// source, a deletion is content with a path that is gone already.
pub open spec fn performed(op: FileOpView, trees: Trees) -> Option<Trees> {
    match op {
        FileOpView::CreateDir { .. } => Some(trees),
        FileOpView::DeleteDir { .. } => Some(trees),
        FileOpView::CopyFile { from, source, target } => if trees.on(from).contains_key(source) {
            Some(trees.with(from.spec_other(), trees.on(from.spec_other()).insert(target, trees.on(from)[source])))
        } else {
            None
        },
        FileOpView::DeleteFile { side, path } => Some(trees.with(side, trees.on(side).remove(path))),
        FileOpView::MoveFile { side, source, target } => if trees.on(side).contains_key(source) {
            Some(trees.with(side, trees.on(side).remove(source).insert(target, trees.on(side)[source])))
        } else {
            None
        },
    }
}

/// The trees after the operations of `ops` in order, or nothing where one of them fails.
pub open spec fn performed_all(ops: Seq<FileOpView>, trees: Trees) -> Option<Trees>
    decreases ops.len(),
{
    if ops.len() == 0 {
        Some(trees)
    } else {
        match performed(ops[0], trees) {
            Some(next) => performed_all(ops.drop_first(), next),
            None => None,
        }
    }
}

/// Whether `facts` tell what the trees hold at `path`.
pub open spec fn facts_hold(facts: PathFacts, trees: Trees, path: Seq<char>) -> bool {
    facts.local_exists == trees.local.contains_key(path) && facts.ssd_exists == trees.ssd.contains_key(path)
}

/// A conflict name is never the path it was made from.
pub proof fn lemma_conflict_path_differs(path: Seq<char>, machine: Seq<char>, stamp: Seq<char>)
    ensures
        conflict_path(path, machine, stamp) != path,
        conflict_path(path, machine, stamp).len() > path.len(),
{
    reveal_strlit(".conflict.");
    lemma_last_index_of(path, '.');
    lemma_last_index_of(path, '/');
    let cut = extension_start(path);
    assert(0 <= cut <= path.len());
    assert(path.take(cut).len() + path.skip(cut).len() == path.len());
}

/// One operation after another.
proof fn lemma_performed_one(op: FileOpView, trees: Trees)
    ensures
        performed_all(seq![op], trees) == performed(op, trees),
{
    let ops = seq![op];
    assert(ops[0] == op);
    assert(ops.drop_first() =~= Seq::<FileOpView>::empty());
    match performed(op, trees) {
        Some(next) => {
            assert(performed_all(ops.drop_first(), next) == Some(next));
        },
        None => {},
    }
}

/// Both-strategy preservation: where both trees hold the file, keeping both leaves
/// the secondary version at the path and the local version at the conflict name,
/// each on both sides, and touches no other path.
pub proof fn lemma_keep_both_preserves_both(
    path: Seq<char>,
    machine: Seq<char>,
    stamp: Seq<char>,
    facts: PathFacts,
    trees: Trees,
)
    requires
        facts_hold(facts, trees, path),
        trees.local.contains_key(path),
        trees.ssd.contains_key(path),
    ensures
        ({
            let kept = conflict_path(path, machine, stamp);
            let after = performed_all(keep_both_ops(path, machine, stamp, facts), trees);
            &&& after is Some
            &&& after->0.local == trees.local.insert(path, trees.ssd[path]).insert(kept, trees.local[path])
            &&& after->0.ssd == trees.ssd.insert(kept, trees.local[path])
            &&& kept != path
        }),
{
    let kept = conflict_path(path, machine, stamp);
    lemma_conflict_path_differs(path, machine, stamp);
    let ops = keep_both_ops(path, machine, stamp, facts);
    let op0 = FileOpView::MoveFile { side: Side::Local, source: path, target: kept };
    let op1 = copy_across(Side::Ssd, path);
    let op2 = FileOpView::CopyFile { from: Side::Local, source: kept, target: kept };
    assert(ops =~= seq![op0, op1, op2]);
    let t1 = performed(op0, trees)->0;
    assert(t1.local =~= trees.local.remove(path).insert(kept, trees.local[path]));
    let t2 = performed(op1, t1)->0;
    assert(t2.local =~= trees.local.insert(path, trees.ssd[path]).insert(kept, trees.local[path]));
    let t3 = performed(op2, t2)->0;
    assert(ops.drop_first() =~= seq![op1, op2]);
    assert(ops.drop_first().drop_first() =~= seq![op2]);
    lemma_performed_one(op2, t2);
    assert(performed_all(seq![op1, op2], t1) == performed_all(seq![op2], t2));
    assert(performed_all(ops, trees) == Some(t3));
    assert(t3.ssd =~= trees.ssd.insert(kept, trees.local[path]));
    assert(t3.local =~= trees.local.insert(path, trees.ssd[path]).insert(kept, trees.local[path]));
}

/// Letting one side prevail leaves both trees with the same content at the path.
pub proof fn lemma_winner_settles(winner: Side, path: Seq<char>, facts: PathFacts, trees: Trees)
    requires
        facts_hold(facts, trees, path),
    ensures
        performed_all(winner_ops(winner, path, facts), trees) is Some,
        performed_all(winner_ops(winner, path, facts), trees)->0.agree_at(path),
        performed_all(winner_ops(winner, path, facts), trees)->0.on(winner) == trees.on(winner),
{
    let ops = winner_ops(winner, path, facts);
    lemma_performed_one(ops[0], trees);
    assert(ops =~= seq![ops[0]]);
    let after = performed(ops[0], trees)->0;
    assert(after.on(winner) =~= trees.on(winner));
}

/// Whatever the strategy, resolving a conflict succeeds on trees that are as the
/// facts say, and leaves both trees with the same content at the path. No version
/// is lost where both are kept.
pub proof fn lemma_resolution_settles(
    strategy: ConflictStrategy,
    path: Seq<char>,
    machine: Seq<char>,
    stamp: Seq<char>,
    facts: PathFacts,
    trees: Trees,
)
    requires
        facts_hold(facts, trees, path),
    ensures
        performed_all(conflict_ops(strategy, path, machine, stamp, facts), trees) is Some,
        performed_all(conflict_ops(strategy, path, machine, stamp, facts), trees)->0.agree_at(path),
{
    match strategy {
        ConflictStrategy::LocalWins => lemma_winner_settles(Side::Local, path, facts, trees),
        ConflictStrategy::SsdWins => lemma_winner_settles(Side::Ssd, path, facts, trees),
        ConflictStrategy::NewerWins => lemma_winner_settles(newer_side(facts), path, facts, trees),
        _ => {
            let ops = keep_both_ops(path, machine, stamp, facts);
            if facts.local_exists && facts.ssd_exists {
                lemma_keep_both_preserves_both(path, machine, stamp, facts, trees);
            } else if facts.local_exists || facts.ssd_exists {
                lemma_performed_one(ops[0], trees);
                assert(ops =~= seq![ops[0]]);
            } else {
                assert(ops =~= Seq::<FileOpView>::empty());
            }
        },
    }
}

/// A copy or a deletion of a file that the plan calls for leaves both trees with
/// the same content at the path, given that the side it copies from holds the file
/// and the side it deletes for does not.
pub proof fn lemma_direct_action_settles(action: SyncAction, path: Seq<char>, trees: Trees)
    requires
        !(action is Conflict),
        action == SyncAction::CopyToSsd ==> trees.local.contains_key(path),
        action == SyncAction::CopyToLocal ==> trees.ssd.contains_key(path),
        action == SyncAction::DeleteFromSsd ==> !trees.local.contains_key(path),
        action == SyncAction::DeleteFromLocal ==> !trees.ssd.contains_key(path),
    ensures
        performed_all(direct_ops(action, false, path), trees) is Some,
        performed_all(direct_ops(action, false, path), trees)->0.agree_at(path),
{
    let ops = direct_ops(action, false, path);
    lemma_performed_one(ops[0], trees);
    assert(ops =~= seq![ops[0]]);
}

/// Whether `c` lies on the way from `top` down to `dir`, both ends included.
pub open spec fn on_the_way(c: Seq<char>, top: Seq<char>, dir: Seq<char>) -> bool {
    (c == dir || is_ancestor(c, dir)) && (c == top || is_ancestor(top, c))
}

/// Whether a file or a directory lies below `dir`.
pub open spec fn holds_below(files: Set<Seq<char>>, dirs: Set<Seq<char>>, dir: Seq<char>) -> bool {
    (exists|f: Seq<char>| files.contains(f) && #[trigger] is_ancestor(dir, f)) || (exists|e: Seq<char>|
        dirs.contains(e) && #[trigger] is_ancestor(dir, e))
}

/// The directories of a tree after the directories that were left empty are removed,
/// from `dir` upward: `dir` goes if nothing lies below it, then its parent, and so
/// on until a directory that holds something, or the root, is reached.
pub open spec fn cleaned_up(files: Set<Seq<char>>, dirs: Set<Seq<char>>, dir: Seq<char>) -> Set<Seq<char>>
    decreases dir.len(),
{
    if dir.len() == 0 || !dirs.contains(dir) || holds_below(files, dirs, dir) {
        dirs
    } else {
        proof {
            lemma_parent_is_nearest(dir);
        }
        cleaned_up(files, dirs.remove(dir), parent_of(dir))
    }
}

/// The directories of a tree after the file `path` was deleted from it and the
/// directories that this left empty were removed.
pub open spec fn dirs_after_delete(files: Set<Seq<char>>, dirs: Set<Seq<char>>, path: Seq<char>) -> Set<Seq<char>> {
    if files.contains(path) {
        cleaned_up(files.remove(path), dirs, parent_of(path))
    } else {
        dirs
    }
}

/// Cleaning up adds no directory, and removes none but `dir` and directories above
/// it. The root is never among them.
pub proof fn lemma_cleanup_removes_only_ancestors(files: Set<Seq<char>>, dirs: Set<Seq<char>>, dir: Seq<char>)
    ensures
        forall|d: Seq<char>| cleaned_up(files, dirs, dir).contains(d) ==> dirs.contains(d),
        forall|d: Seq<char>|
            dirs.contains(d) && !cleaned_up(files, dirs, dir).contains(d) ==> d.len() > 0 && (d == dir
                || is_ancestor(d, dir)),
    decreases dir.len(),
{
    if !(dir.len() == 0 || !dirs.contains(dir) || holds_below(files, dirs, dir)) {
        lemma_parent_is_nearest(dir);
        let parent = parent_of(dir);
        lemma_cleanup_removes_only_ancestors(files, dirs.remove(dir), parent);
        assert forall|d: Seq<char>|
            dirs.contains(d) && !cleaned_up(files, dirs, dir).contains(d) implies d.len() > 0 && (d == dir
                || is_ancestor(d, dir)) by {
            if d != dir {
                assert(dirs.remove(dir).contains(d));
                if d == parent {
                } else {
                    lemma_ancestor_is_shorter(d, parent);
                    lemma_ancestor_of_ancestor(d, parent, dir);
                }
            }
        }
    }
}

/// A directory at or above `dir` goes if nothing lies below it but the directories
/// on the way down to `dir`, and those are all there.
pub proof fn lemma_emptied_directory_goes(
    files: Set<Seq<char>>,
    dirs: Set<Seq<char>>,
    dir: Seq<char>,
    top: Seq<char>,
)
    requires
        top.len() > 0,
        top == dir || is_ancestor(top, dir),
        forall|c: Seq<char>| #[trigger] on_the_way(c, top, dir) ==> dirs.contains(c),
        forall|f: Seq<char>| files.contains(f) ==> !#[trigger] is_ancestor(top, f),
        forall|e: Seq<char>|
            dirs.contains(e) && #[trigger] is_ancestor(top, e) ==> e == dir || is_ancestor(e, dir),
    ensures
        !cleaned_up(files, dirs, dir).contains(top),
    decreases dir.len(),
{
    assert(on_the_way(dir, top, dir));
    assert(!holds_below(files, dirs, dir)) by {
        assert forall|f: Seq<char>| files.contains(f) implies !#[trigger] is_ancestor(dir, f) by {
            if is_ancestor(dir, f) {
                if top != dir {
                    lemma_ancestor_of_ancestor(top, dir, f);
                }
            }
        }
        assert forall|e: Seq<char>| dirs.contains(e) implies !#[trigger] is_ancestor(dir, e) by {
            if is_ancestor(dir, e) {
                if top != dir {
                    lemma_ancestor_of_ancestor(top, dir, e);
                }
                lemma_ancestor_is_shorter(dir, e);
                if is_ancestor(e, dir) {
                    lemma_ancestor_is_shorter(e, dir);
                }
            }
        }
    }
    lemma_parent_is_nearest(dir);
    let parent = parent_of(dir);
    let rest = dirs.remove(dir);
    if top != dir {
        lemma_ancestor_is_shorter(top, dir);
    }
    assert(dir.len() > 0);
    assert(cleaned_up(files, dirs, dir) == cleaned_up(files, rest, parent));
    if top == dir {
        lemma_cleanup_removes_only_ancestors(files, rest, parent);
        assert(!rest.contains(top));
    } else {
        assert(top == parent || is_ancestor(top, parent));
        assert forall|c: Seq<char>| #[trigger] on_the_way(c, top, parent) implies rest.contains(c) by {
            lemma_ancestor_is_shorter(parent, dir);
            if c != parent {
                lemma_ancestor_of_ancestor(c, parent, dir);
                lemma_ancestor_is_shorter(c, parent);
            }
            assert(on_the_way(c, top, dir));
        }
        assert forall|e: Seq<char>| rest.contains(e) && #[trigger] is_ancestor(top, e) implies e == parent
            || is_ancestor(e, parent) by {
            assert(is_ancestor(e, dir));
        }
        lemma_emptied_directory_goes(files, rest, parent, top);
    }
}

/// A directory stays if a file lies below it, or a directory that is not on the way
/// down to `dir`: the clean-up stops there at the latest.
pub proof fn lemma_occupied_directory_stays(
    files: Set<Seq<char>>,
    dirs: Set<Seq<char>>,
    dir: Seq<char>,
    top: Seq<char>,
)
    requires
        dirs.contains(top),
        (exists|f: Seq<char>| files.contains(f) && #[trigger] is_ancestor(top, f)) || (exists|e: Seq<char>|
            dirs.contains(e) && #[trigger] is_ancestor(top, e) && e != dir && !is_ancestor(e, dir)),
    ensures
        cleaned_up(files, dirs, dir).contains(top),
    decreases dir.len(),
{
    if !(dir.len() == 0 || !dirs.contains(dir) || holds_below(files, dirs, dir)) {
        lemma_parent_is_nearest(dir);
        let parent = parent_of(dir);
        let rest = dirs.remove(dir);
        assert(top != dir);
        if exists|f: Seq<char>| files.contains(f) && #[trigger] is_ancestor(top, f) {
        } else {
            let e = choose|e: Seq<char>|
                dirs.contains(e) && #[trigger] is_ancestor(top, e) && e != dir && !is_ancestor(e, dir);
            assert(rest.contains(e));
            if parent.len() > 0 {
                if e == parent {
                } else if is_ancestor(e, parent) {
                    lemma_ancestor_of_ancestor(e, parent, dir);
                }
            } else {
                lemma_ancestor_is_shorter(top, e);
                if is_ancestor(e, parent) {
                    lemma_ancestor_is_shorter(e, parent);
                }
            }
            assert(rest.contains(e) && is_ancestor(top, e) && e != parent && !is_ancestor(e, parent));
        }
        lemma_occupied_directory_stays(files, rest, parent, top);
    }
}

/// Deletion propagation down to the directories: once the only file below a
/// directory is deleted, that directory and every directory between it and the file
/// are gone, while the root and every directory that still holds something stay.
pub proof fn lemma_delete_removes_emptied_ancestors(
    files: Set<Seq<char>>,
    dirs: Set<Seq<char>>,
    path: Seq<char>,
    top: Seq<char>,
)
    requires
        files.contains(path),
        is_ancestor(top, path),
        forall|c: Seq<char>| is_ancestor(c, path) && #[trigger] on_the_way(c, top, path) ==> dirs.contains(c),
        forall|f: Seq<char>| files.contains(f) && #[trigger] is_ancestor(top, f) ==> f == path,
        forall|e: Seq<char>| dirs.contains(e) && #[trigger] is_ancestor(top, e) ==> is_ancestor(e, path),
    ensures
        !dirs_after_delete(files, dirs, path).contains(top),
        forall|c: Seq<char>|
            is_ancestor(c, path) && #[trigger] is_ancestor(top, c) ==> !dirs_after_delete(files, dirs, path).contains(c),
        forall|d: Seq<char>|
            dirs.contains(d) && !is_ancestor(d, path) ==> #[trigger] dirs_after_delete(files, dirs, path).contains(d),
{
    lemma_parent_is_nearest(path);
    lemma_ancestor_is_shorter(top, path);
    let parent = parent_of(path);
    let left = files.remove(path);
    assert(top == parent || is_ancestor(top, parent));
    lemma_ancestor_is_shorter(parent, path);
    assert forall|c: Seq<char>| #[trigger] on_the_way(c, top, parent) implies dirs.contains(c) by {
        if c != parent {
            lemma_ancestor_of_ancestor(c, parent, path);
        }
        assert(is_ancestor(c, path) && on_the_way(c, top, path));
    }
    assert forall|e: Seq<char>| dirs.contains(e) && #[trigger] is_ancestor(top, e) implies e == parent
        || is_ancestor(e, parent) by {
        assert(is_ancestor(e, path));
    }
    lemma_emptied_directory_goes(left, dirs, parent, top);
    assert forall|c: Seq<char>| is_ancestor(c, path) && #[trigger] is_ancestor(top, c) implies !dirs_after_delete(
        files,
        dirs,
        path,
    ).contains(c) by {
        assert(c == parent || is_ancestor(c, parent));
        assert forall|x: Seq<char>| #[trigger] on_the_way(x, c, parent) implies dirs.contains(x) by {
            if x != c {
                lemma_ancestor_of_ancestor(top, c, x);
            }
            if x != parent {
                lemma_ancestor_of_ancestor(x, parent, path);
            }
            assert(is_ancestor(x, path) && on_the_way(x, top, path));
        }
        assert forall|f: Seq<char>| left.contains(f) implies !#[trigger] is_ancestor(c, f) by {
            if is_ancestor(c, f) {
                lemma_ancestor_of_ancestor(top, c, f);
            }
        }
        assert forall|e: Seq<char>| dirs.contains(e) && #[trigger] is_ancestor(c, e) implies e == parent
            || is_ancestor(e, parent) by {
            lemma_ancestor_of_ancestor(top, c, e);
            assert(is_ancestor(e, path));
        }
        lemma_ancestor_is_shorter(c, path);
        lemma_emptied_directory_goes(left, dirs, parent, c);
    }
    lemma_cleanup_removes_only_ancestors(left, dirs, parent);
    assert forall|d: Seq<char>| dirs.contains(d) && !is_ancestor(d, path) implies #[trigger] dirs_after_delete(
        files,
        dirs,
        path,
    ).contains(d) by {
        if !cleaned_up(left, dirs, parent).contains(d) {
            if d != parent {
                lemma_ancestor_of_ancestor(d, parent, path);
            }
        }
    }
}

} // verus!
