//! What holds of change detection and planning taken together.

use vstd::prelude::*;
use crate::diff::change_of;
use crate::diff::changes_between;
use crate::diff::decide;
use crate::diff::plan_between;
use crate::diff::planned_for;
use crate::diff::ChangeType;
use crate::diff::ChangeView;
use crate::diff::ConflictInfo;
use crate::diff::PlannedView;
use crate::diff::SyncAction;
use crate::pathmap::lookup;
use crate::pathmap::pairs_to_map;
use crate::snapshot::shared_base;
use crate::snapshot::FileEntryView;

verus! {

/// Whether two sides hold the same content at `p`: the path is absent from both, or
/// present in both with the same content hash.
pub open spec fn agree_at(
    local: Map<Seq<char>, FileEntryView>,
    ssd: Map<Seq<char>, FileEntryView>,
    p: Seq<char>,
) -> bool {
    match (lookup(local, p), lookup(ssd, p)) {
        (None, None) => true,
        (Some(l), Some(s)) => l.hash == s.hash,
        _ => false,
    }
}

/// Whether two sides hold the same content at every path.
pub open spec fn agree(local: Map<Seq<char>, FileEntryView>, ssd: Map<Seq<char>, FileEntryView>) -> bool {
    forall|p: Seq<char>| agree_at(local, ssd, p)
}

/// The plan of a sync from a base and the current state of both sides.
pub open spec fn sync_plan_of(
    base: Map<Seq<char>, FileEntryView>,
    local: Map<Seq<char>, FileEntryView>,
    ssd: Map<Seq<char>, FileEntryView>,
) -> Map<Seq<char>, PlannedView> {
    plan_between(changes_between(base, local), changes_between(base, ssd))
}

/// What the plan holds for `p` depends only on the three entries at `p`.
pub proof fn lemma_plan_at(
    base: Map<Seq<char>, FileEntryView>,
    local: Map<Seq<char>, FileEntryView>,
    ssd: Map<Seq<char>, FileEntryView>,
    p: Seq<char>,
)
    ensures
        lookup(sync_plan_of(base, local, ssd), p) == planned_for(
            change_of(lookup(base, p), lookup(local, p)),
            change_of(lookup(base, p), lookup(ssd, p)),
        ),
{
}

/// Convergence: a path that both sides hold with the same content, whether they
/// added it or changed it independently, gets no action.
pub proof fn lemma_same_content_needs_no_action(
    base: Map<Seq<char>, FileEntryView>,
    local: Map<Seq<char>, FileEntryView>,
    ssd: Map<Seq<char>, FileEntryView>,
    p: Seq<char>,
)
    requires
        local.contains_key(p),
        ssd.contains_key(p),
        local[p].hash == ssd[p].hash,
    ensures
        !sync_plan_of(base, local, ssd).contains_key(p),
{
    lemma_plan_at(base, local, ssd, p);
}

/// Conflict detection: a path of the base that both sides changed to content that
/// differs between them is a conflict of two modifications, never a one-way copy.
pub proof fn lemma_diverging_edits_conflict(
    base: Map<Seq<char>, FileEntryView>,
    local: Map<Seq<char>, FileEntryView>,
    ssd: Map<Seq<char>, FileEntryView>,
    p: Seq<char>,
)
    requires
        base.contains_key(p),
        local.contains_key(p),
        ssd.contains_key(p),
        local[p].hash != base[p].hash,
        ssd[p].hash != base[p].hash,
        local[p].hash != ssd[p].hash,
    ensures
        sync_plan_of(base, local, ssd).contains_key(p),
        sync_plan_of(base, local, ssd)[p].action == SyncAction::Conflict(
            ConflictInfo { local_change: ChangeType::Modified, ssd_change: ChangeType::Modified },
        ),
{
    lemma_plan_at(base, local, ssd, p);
}

/// A path that one side deleted and the other changed is a conflict as well.
pub proof fn lemma_delete_against_edit_conflicts(
    base: Map<Seq<char>, FileEntryView>,
    local: Map<Seq<char>, FileEntryView>,
    ssd: Map<Seq<char>, FileEntryView>,
    p: Seq<char>,
)
    requires
        base.contains_key(p),
        !local.contains_key(p),
        ssd.contains_key(p),
        ssd[p].hash != base[p].hash,
    ensures
        sync_plan_of(base, local, ssd).contains_key(p),
        sync_plan_of(base, local, ssd)[p].action == SyncAction::Conflict(
            ConflictInfo { local_change: ChangeType::Deleted, ssd_change: ChangeType::Modified },
        ),
{
    lemma_plan_at(base, local, ssd, p);
}

/// Deletion propagation: a path of the base that the local side deleted and the
/// secondary side left alone is deleted from the secondary side.
pub proof fn lemma_local_deletion_propagates(
    base: Map<Seq<char>, FileEntryView>,
    local: Map<Seq<char>, FileEntryView>,
    ssd: Map<Seq<char>, FileEntryView>,
    p: Seq<char>,
)
    requires
        base.contains_key(p),
        !local.contains_key(p),
        ssd.contains_key(p),
        ssd[p].hash == base[p].hash,
    ensures
        sync_plan_of(base, local, ssd).contains_key(p),
        sync_plan_of(base, local, ssd)[p].action == SyncAction::DeleteFromSsd,
{
    lemma_plan_at(base, local, ssd, p);
}

/// A path that only the local side holds, and the base did not, is copied to the
/// secondary side.
pub proof fn lemma_local_addition_propagates(
    base: Map<Seq<char>, FileEntryView>,
    local: Map<Seq<char>, FileEntryView>,
    ssd: Map<Seq<char>, FileEntryView>,
    p: Seq<char>,
)
    requires
        !base.contains_key(p),
        local.contains_key(p),
        !ssd.contains_key(p),
    ensures
        sync_plan_of(base, local, ssd).contains_key(p),
        sync_plan_of(base, local, ssd)[p] == (PlannedView {
            is_dir: local[p].is_dir,
            action: SyncAction::CopyToSsd,
        }),
{
    lemma_plan_at(base, local, ssd, p);
}

/// Where both sides hold the same content everywhere, the plan against the base
/// that a completed sync leaves behind is empty.
pub proof fn lemma_agreeing_sides_need_no_sync(
    local: Map<Seq<char>, FileEntryView>,
    ssd: Map<Seq<char>, FileEntryView>,
)
    requires
        agree(local, ssd),
    ensures
        sync_plan_of(shared_base(local, ssd), local, ssd) == Map::<Seq<char>, PlannedView>::empty(),
{
    let base = shared_base(local, ssd);
    assert forall|p: Seq<char>| !sync_plan_of(base, local, ssd).contains_key(p) by {
        assert(agree_at(local, ssd, p));
        lemma_plan_at(base, local, ssd, p);
    }
    assert(sync_plan_of(base, local, ssd) =~= Map::<Seq<char>, PlannedView>::empty());
}

/// The entries that one path holds on the two sides once `action` was carried out
/// without error: a copy leaves the source's entry on both sides, a deletion leaves
/// neither side with the path. A conflict is left as it stands: what becomes of it
/// is for the conflict strategy to say.
pub open spec fn carried_out(
    action: Option<SyncAction>,
    local: Option<FileEntryView>,
    ssd: Option<FileEntryView>,
) -> (Option<FileEntryView>, Option<FileEntryView>) {
    match action {
        Some(SyncAction::CopyToSsd) => (local, local),
        Some(SyncAction::CopyToLocal) => (ssd, ssd),
        Some(SyncAction::DeleteFromSsd) => (local, None),
        Some(SyncAction::DeleteFromLocal) => (None, ssd),
        _ => (local, ssd),
    }
}

/// One side after the plan was carried out: `pick` chooses the side.
pub open spec fn side_after(
    plan: Map<Seq<char>, PlannedView>,
    local: Map<Seq<char>, FileEntryView>,
    ssd: Map<Seq<char>, FileEntryView>,
    local_side: bool,
) -> Map<Seq<char>, FileEntryView> {
    Map::new(
        |p: Seq<char>|
            {
                let after = carried_out(action_at(plan, p), lookup(local, p), lookup(ssd, p));
                if local_side {
                    after.0 is Some
                } else {
                    after.1 is Some
                }
            },
        |p: Seq<char>|
            {
                let after = carried_out(action_at(plan, p), lookup(local, p), lookup(ssd, p));
                if local_side {
                    after.0->0
                } else {
                    after.1->0
                }
            },
    )
}

/// The action that `plan` holds for `p`, if any.
pub open spec fn action_at(plan: Map<Seq<char>, PlannedView>, p: Seq<char>) -> Option<SyncAction> {
    if plan.contains_key(p) {
        Some(plan[p].action)
    } else {
        None
    }
}

/// A sync whose plan holds no conflict leaves both sides with the same content.
pub proof fn lemma_sync_makes_sides_agree(
    base: Map<Seq<char>, FileEntryView>,
    local: Map<Seq<char>, FileEntryView>,
    ssd: Map<Seq<char>, FileEntryView>,
)
    requires
        forall|p: Seq<char>| #[trigger]
            sync_plan_of(base, local, ssd).contains_key(p) ==> !(sync_plan_of(base, local, ssd)[p].action is Conflict),
    ensures
        agree(
            side_after(sync_plan_of(base, local, ssd), local, ssd, true),
            side_after(sync_plan_of(base, local, ssd), local, ssd, false),
        ),
{
    let plan = sync_plan_of(base, local, ssd);
    let l2 = side_after(plan, local, ssd, true);
    let s2 = side_after(plan, local, ssd, false);
    assert forall|p: Seq<char>| agree_at(l2, s2, p) by {
        lemma_plan_at(base, local, ssd, p);
        if plan.contains_key(p) {
            assert(!(plan[p].action is Conflict));
        }
    }
}

/// Idempotence: after a sync whose plan held no conflict and that was carried out
/// without error, a second sync against the base that the first one left behind,
/// with nothing changed in between, has an empty plan.
pub proof fn lemma_second_sync_is_empty(
    base: Map<Seq<char>, FileEntryView>,
    local: Map<Seq<char>, FileEntryView>,
    ssd: Map<Seq<char>, FileEntryView>,
)
    requires
        forall|p: Seq<char>| #[trigger]
            sync_plan_of(base, local, ssd).contains_key(p) ==> !(sync_plan_of(base, local, ssd)[p].action is Conflict),
    ensures
        ({
            let plan = sync_plan_of(base, local, ssd);
            let local_after = side_after(plan, local, ssd, true);
            let ssd_after = side_after(plan, local, ssd, false);
            sync_plan_of(shared_base(local_after, ssd_after), local_after, ssd_after) == Map::<
                Seq<char>,
                PlannedView,
            >::empty()
        }),
{
    let plan = sync_plan_of(base, local, ssd);
    lemma_sync_makes_sides_agree(base, local, ssd);
    lemma_agreeing_sides_need_no_sync(side_after(plan, local, ssd, true), side_after(plan, local, ssd, false));
}

/// End-to-end add: a file that only the local side holds, and the base did not, is
/// copied to the secondary side; once that is carried out the secondary side holds
/// the local entry, and the base that the sync leaves behind holds the path with
/// that entry.
pub proof fn lemma_added_file_reaches_secondary_and_base(
    base: Map<Seq<char>, FileEntryView>,
    local: Map<Seq<char>, FileEntryView>,
    ssd: Map<Seq<char>, FileEntryView>,
    p: Seq<char>,
)
    requires
        !base.contains_key(p),
        local.contains_key(p),
        !ssd.contains_key(p),
    ensures
        ({
            let plan = sync_plan_of(base, local, ssd);
            let local_after = side_after(plan, local, ssd, true);
            let ssd_after = side_after(plan, local, ssd, false);
            &&& plan.contains_key(p)
            &&& plan[p].action == SyncAction::CopyToSsd
            &&& local_after.contains_key(p)
            &&& local_after[p] == local[p]
            &&& ssd_after.contains_key(p)
            &&& ssd_after[p] == local[p]
            &&& shared_base(local_after, ssd_after).contains_key(p)
            &&& shared_base(local_after, ssd_after)[p] == local[p]
        }),
{
    lemma_plan_at(base, local, ssd, p);
}

/// Deletion propagation: a path of the base that the local side deleted and the
/// secondary side left alone is deleted from the secondary side; once that is
/// carried out neither side holds the path, and neither does the base that the
/// sync leaves behind.
pub proof fn lemma_deleted_file_leaves_secondary_and_base(
    base: Map<Seq<char>, FileEntryView>,
    local: Map<Seq<char>, FileEntryView>,
    ssd: Map<Seq<char>, FileEntryView>,
    p: Seq<char>,
)
    requires
        base.contains_key(p),
        !local.contains_key(p),
        ssd.contains_key(p),
        ssd[p].hash == base[p].hash,
    ensures
        ({
            let plan = sync_plan_of(base, local, ssd);
            let local_after = side_after(plan, local, ssd, true);
            let ssd_after = side_after(plan, local, ssd, false);
            &&& plan.contains_key(p)
            &&& plan[p].action == SyncAction::DeleteFromSsd
            &&& !local_after.contains_key(p)
            &&& !ssd_after.contains_key(p)
            &&& !shared_base(local_after, ssd_after).contains_key(p)
        }),
{
    lemma_plan_at(base, local, ssd, p);
}

/// A snapshot compared with itself shows no change.
pub proof fn lemma_no_change_against_itself(snapshot: Map<Seq<char>, FileEntryView>)
    ensures
        changes_between(snapshot, snapshot) == Map::<Seq<char>, ChangeView>::empty(),
{
    assert(changes_between(snapshot, snapshot) =~= Map::<Seq<char>, ChangeView>::empty());
}

/// Pairs that stand for the empty map are no pairs at all.
pub proof fn lemma_empty_map_has_no_pairs<V>(pairs: Seq<(Seq<char>, V)>)
    requires
        pairs_to_map(pairs) == Map::<Seq<char>, V>::empty(),
    ensures
        pairs.len() == 0,
{
    if pairs.len() > 0 {
        assert(pairs[0].0 == pairs[0].0);
        assert(crate::pathmap::has_key(pairs, pairs[0].0));
        assert(pairs_to_map(pairs).contains_key(pairs[0].0));
    }
}

} // verus!
