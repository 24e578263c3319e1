//! The merge of a source that has been merged before.

use vstd::prelude::*;
use crate::character::CharacterView;
use crate::error::MergeError;
use crate::inventory::is_full;
use crate::laws::accessories::lemma_full_inventory_fails_merge;
use crate::laws::characters::{
    character_adopted, lemma_merge_adopts_presentation, lemma_merge_adopts_roster_characters,
    lemma_merged_roster,
};
use crate::laws::progress::{lemma_merge_adopts_progression, progress_adopted};
use crate::laws::{lemma_prefix_keeps_mergeable, receiving_build, source_build, wears_at, worn_after};
use crate::loadout::{equip_all, lemma_equip_unnamed, sparse_copy, unnamed_binding, LoadoutView};
use crate::merge::{merge_position, merge_prefix, merge_result};
use crate::progression::{adopt_progress, is_first_record, lemma_record_index, record_index};
use crate::record::{can_transplant, mergeable, slot_of, SaveRecordView};

verus! {

/// Whether a merge of `src` creates no item: every accessory slot in the
/// builds of the source roster is empty or, failing that, names no item.
pub open spec fn creates_no_item(src: SaveRecordView) -> bool {
    forall|i: int, p: int| #[trigger]
        wears_at(src, i, p) ==> source_build(src, slot_of(src.roster[i])).accessories[p]->0.item_id == 0
}

/// Whether `now` already holds everything that a merge of `src` would bring:
/// the roster entries, the state of every roster character, its visibility
/// bits and its progress.
pub open spec fn settled(now: SaveRecordView, src: SaveRecordView) -> bool {
    forall|i: int|
        0 <= i < src.roster.len() && src.roster[i] != 0 ==> {
            let t = slot_of(#[trigger] src.roster[i]);
            &&& now.roster[i] == src.roster[i]
            &&& character_adopted(now, src, t)
            &&& now.presentation.selectable[t] == src.presentation.selectable[t]
            &&& now.presentation.permanent[t] == src.presentation.permanent[t]
            &&& now.presentation.temporary[t] == src.presentation.temporary[t]
            &&& progress_adopted(now.progression, src.progression, src.roster[i])
        }
}

/// A successful merge leaves the destination settled, and able to take the
/// same source again.
pub proof fn lemma_merge_settles(dst: SaveRecordView, src: SaveRecordView, merged: SaveRecordView)
    requires
        mergeable(dst, src),
        merge_result(dst, src) == Ok::<SaveRecordView, MergeError>(merged),
    ensures
        mergeable(merged, src),
        settled(merged, src),
{
    lemma_prefix_keeps_mergeable(dst, src, src.roster.len());
    lemma_merged_roster(dst, src, merged);
    assert forall|i: int| 0 <= i < src.roster.len() && src.roster[i] != 0 implies ({
        let t = slot_of(#[trigger] src.roster[i]);
        &&& merged.roster[i] == src.roster[i]
        &&& character_adopted(merged, src, t)
        &&& merged.presentation.selectable[t] == src.presentation.selectable[t]
        &&& merged.presentation.permanent[t] == src.presentation.permanent[t]
        &&& merged.presentation.temporary[t] == src.presentation.temporary[t]
        &&& progress_adopted(merged.progression, src.progression, src.roster[i])
    }) by {
        lemma_merge_adopts_roster_characters(dst, src, merged, i);
        lemma_merge_adopts_presentation(dst, src, merged, i);
        lemma_merge_adopts_progression(dst, src, merged, i);
    }
}

/// Whether every accessory slot that the source occupies holds, in `now`,
/// the binding of an accessory that names no item.
spec fn rebound(now: SaveRecordView, src: SaveRecordView, n: nat) -> bool {
    forall|i: int, p: int|
        i < n && #[trigger] wears_at(src, i, p) ==> worn_after(now, src, i, p) == Some(
            unnamed_binding(now.inventory),
        )
}

proof fn lemma_unnamed_prefix(dst: SaveRecordView, src: SaveRecordView, n: nat)
    requires
        mergeable(dst, src),
        creates_no_item(src),
        n <= src.roster.len(),
    ensures
        merge_prefix(dst, src, n) matches Ok(so_far) ==> so_far.inventory == dst.inventory && rebound(
            so_far,
            src,
            n,
        ),
    decreases n,
{
    if n > 0 {
        let m = (n - 1) as nat;
        lemma_unnamed_prefix(dst, src, m);
        lemma_prefix_keeps_mergeable(dst, src, m);
        if let Ok(before) = merge_prefix(dst, src, m) {
            let character_id = src.roster[m as int];
            if character_id == 0 {
                assert forall|i: int, p: int| i < n && #[trigger] wears_at(src, i, p) implies i < m by {}
            } else if let Ok(after) = merge_position(before, src, m as int) {
                let slot = slot_of(character_id);
                let wanted = source_build(src, slot).accessories;
                let ours = receiving_build(before, src, slot).accessories;
                assert(can_transplant(before, src, character_id));
                assert forall|p: int| 0 <= p < wanted.len() && wanted[p] is Some implies (
                #[trigger] wanted[p])->0.item_id == 0 by {
                    assert(wears_at(src, m as int, p));
                }
                lemma_equip_unnamed(ours, wanted, before.inventory, wanted.len());
                assert forall|i: int, p: int| i < n && #[trigger] wears_at(src, i, p) implies worn_after(
                    after,
                    src,
                    i,
                    p,
                ) == Some(unnamed_binding(after.inventory)) by {
                    let t = slot_of(src.roster[i]);
                    if t != slot {
                        assert(after.characters[t] == before.characters[t]);
                        assert(i < m);
                    }
                }
            }
        }
    }
}

proof fn lemma_settled_position(now: SaveRecordView, src: SaveRecordView, position: int)
    requires
        mergeable(now, src),
        settled(now, src),
        creates_no_item(src),
        rebound(now, src, src.roster.len()),
        !is_full(now.inventory.accessories) || forall|i: int, p: int| !wears_at(src, i, p),
        0 <= position < src.roster.len(),
    ensures
        merge_position(now, src, position) == Ok::<SaveRecordView, MergeError>(now),
{
    let character_id = src.roster[position];
    if character_id != 0 {
        let slot = slot_of(character_id);
        let from = src.characters[slot];
        let class_id = from.selected_class as int;
        let ours = now.characters[slot];
        let wanted = source_build(src, slot);
        let build = ours.loadouts[class_id];
        assert(can_transplant(now, src, character_id));
        assert(character_adopted(now, src, slot));
        assert forall|p: int| 0 <= p < wanted.accessories.len() && wanted.accessories[p] is Some implies (
        #[trigger] wanted.accessories[p])->0.item_id == 0 by {
            assert(wears_at(src, position, p));
        }
        if is_full(now.inventory.accessories) {
            assert forall|p: int| 0 <= p < wanted.accessories.len() implies (
            #[trigger] wanted.accessories[p]) is None by {
                assert(!wears_at(src, position, p));
            }
        }
        lemma_equip_unnamed(build.accessories, wanted.accessories, now.inventory, wanted.accessories.len());
        let worn = equip_all(build.accessories, wanted.accessories, now.inventory)->Ok_0.0;
        assert(worn =~= build.accessories) by {
            assert forall|p: int| 0 <= p < worn.len() implies worn[p] == build.accessories[p] by {
                if wanted.accessories[p] is Some {
                    assert(wears_at(src, position, p));
                    assert(worn_after(now, src, position, p) == Some(unnamed_binding(now.inventory)));
                }
            }
        }
        assert(sparse_copy(build.arts, wanted.arts) =~= build.arts);
        assert(sparse_copy(build.skills, wanted.skills) =~= build.skills);
        assert(sparse_copy(build.gems, wanted.gems) =~= build.gems);
        let prepared = CharacterView { level: from.level, exp: from.exp, flags: from.flags, ..ours };
        assert(prepared == ours);
        let loadout = LoadoutView {
            points: wanted.points,
            rank: wanted.rank,
            unlock_points: wanted.unlock_points,
            arts: sparse_copy(build.arts, wanted.arts),
            skills: sparse_copy(build.skills, wanted.skills),
            gems: sparse_copy(build.gems, wanted.gems),
            accessories: worn,
        };
        assert(loadout == build);
        assert(ours.loadouts.update(class_id, loadout) =~= ours.loadouts);
        assert(now.characters.update(slot, ours) =~= now.characters);
        lemma_record_index(now.progression, character_id);
        lemma_record_index(src.progression, character_id);
        assert(progress_adopted(now.progression, src.progression, character_id));
        let to = record_index(now.progression, character_id)->0;
        let source_at = record_index(src.progression, character_id)->0;
        assert(is_first_record(now.progression, character_id, to));
        assert(adopt_progress(now.progression[to], src.progression[source_at]) == now.progression[to]);
        assert(now.progression.update(to, now.progression[to]) =~= now.progression);
        assert(now.presentation.with_bits_of(src.presentation, slot).selectable =~= now.presentation.selectable);
        assert(now.presentation.with_bits_of(src.presentation, slot).permanent =~= now.presentation.permanent);
        assert(now.presentation.with_bits_of(src.presentation, slot).temporary =~= now.presentation.temporary);
        assert(now.roster.update(position, character_id) =~= now.roster);
    }
}

proof fn lemma_settled_prefix(now: SaveRecordView, src: SaveRecordView, n: nat)
    requires
        mergeable(now, src),
        settled(now, src),
        creates_no_item(src),
        rebound(now, src, src.roster.len()),
        !is_full(now.inventory.accessories) || forall|i: int, p: int| !wears_at(src, i, p),
        n <= src.roster.len(),
    ensures
        merge_prefix(now, src, n) == Ok::<SaveRecordView, MergeError>(now),
    decreases n,
{
    if n > 0 {
        lemma_settled_prefix(now, src, (n - 1) as nat);
        lemma_settled_position(now, src, n - 1);
    }
}

/// Merging the same source a second time changes nothing, as long as the
/// merge creates no item: the second merge succeeds and leaves the merged
/// destination exactly as the first merge left it.
///
/// An accessory that names an item is created anew by every merge, so a
/// second merge of a source that wears one takes a further inventory slot,
/// or fails for want of one.
pub proof fn lemma_merge_is_idempotent(dst: SaveRecordView, src: SaveRecordView, merged: SaveRecordView)
    requires
        mergeable(dst, src),
        merge_result(dst, src) == Ok::<SaveRecordView, MergeError>(merged),
        creates_no_item(src),
    ensures
        merge_result(merged, src) == Ok::<SaveRecordView, MergeError>(merged),
{
    lemma_merge_settles(dst, src, merged);
    lemma_unnamed_prefix(dst, src, src.roster.len());
    if exists|i: int, p: int| wears_at(src, i, p) {
        let (i, p) = choose|i: int, p: int| wears_at(src, i, p);
        if is_full(dst.inventory.accessories) {
            lemma_full_inventory_fails_merge(dst, src, i, p);
        }
    }
    lemma_settled_prefix(merged, src, src.roster.len());
}

} // verus!
