//! The roster, the character slots and the visibility bits after a merge.

use vstd::prelude::*;
use crate::error::MergeError;
use crate::laws::{in_source_roster, lemma_prefix_keeps_mergeable, receiving_build, source_build};
use crate::loadout::lemma_equip_keeps_slots;
use crate::merge::{merge_position, merge_prefix, merge_result, transplant_character_spec};
use crate::record::{can_transplant, mergeable, slot_of, SaveRecordView};

verus! {

/// The roster after the merge: a position holds the source's character where
/// the source roster has one, and what the destination held there before
/// where the source roster is empty.
pub proof fn lemma_merged_roster(dst: SaveRecordView, src: SaveRecordView, merged: SaveRecordView)
    requires
        mergeable(dst, src),
        merge_result(dst, src) == Ok::<SaveRecordView, MergeError>(merged),
    ensures
        merged.roster.len() == dst.roster.len(),
        forall|i: int|
            0 <= i < src.roster.len() ==> #[trigger] merged.roster[i] == if src.roster[i] != 0 {
                src.roster[i]
            } else {
                dst.roster[i]
            },
{
    lemma_roster_prefix(dst, src, src.roster.len());
}

proof fn lemma_roster_prefix(dst: SaveRecordView, src: SaveRecordView, n: nat)
    requires
        mergeable(dst, src),
        n <= src.roster.len(),
    ensures
        merge_prefix(dst, src, n) matches Ok(so_far) ==> {
            &&& so_far.roster.len() == dst.roster.len()
            &&& forall|i: int|
                0 <= i < n ==> #[trigger] so_far.roster[i] == if src.roster[i] != 0 {
                    src.roster[i]
                } else {
                    dst.roster[i]
                }
            &&& forall|i: int| n <= i < src.roster.len() ==> #[trigger] so_far.roster[i] == dst.roster[i]
        },
    decreases n,
{
    if n > 0 {
        lemma_roster_prefix(dst, src, (n - 1) as nat);
    }
}

/// At an empty position of the source roster the merge does nothing at all.
pub proof fn lemma_empty_position_is_skipped(dst: SaveRecordView, src: SaveRecordView, position: int)
    requires
        0 <= position < src.roster.len(),
        src.roster[position] == 0,
    ensures
        merge_position(dst, src, position) == Ok::<SaveRecordView, MergeError>(dst),
{
}

/// Whether everything that `now` holds in a row of slots, either the
/// source's content at an occupied position or what `before` held there at an
/// empty one, is what a sparse copy leaves.
pub open spec fn follows_sparsely<T>(now: Seq<Option<T>>, before: Seq<Option<T>>, src: Seq<Option<T>>) -> bool {
    &&& now.len() == before.len()
    &&& forall|p: int| 0 <= p < now.len() && src[p] is None ==> #[trigger] now[p] == before[p]
}

/// What the merge never changes in a character slot, whether the character
/// is in the source roster or not: the number of loadouts, every loadout
/// but the one of the class that the source has selected, and in that one
/// the number of slots and every slot that the source leaves empty.
pub open spec fn character_kept(now: SaveRecordView, before: SaveRecordView, src: SaveRecordView, slot: int) -> bool {
    let class_id = src.characters[slot].selected_class as int;
    let ours = now.characters[slot];
    let theirs = before.characters[slot];
    &&& ours.loadouts.len() == theirs.loadouts.len()
    &&& forall|c: int|
        0 <= c < ours.loadouts.len() && c != class_id ==> #[trigger] ours.loadouts[c] == theirs.loadouts[c]
    &&& follows_sparsely(ours.loadouts[class_id].arts, theirs.loadouts[class_id].arts, source_build(src, slot).arts)
    &&& follows_sparsely(
        ours.loadouts[class_id].skills,
        theirs.loadouts[class_id].skills,
        source_build(src, slot).skills,
    )
    &&& follows_sparsely(ours.loadouts[class_id].gems, theirs.loadouts[class_id].gems, source_build(src, slot).gems)
    &&& follows_sparsely(
        ours.loadouts[class_id].accessories,
        theirs.loadouts[class_id].accessories,
        source_build(src, slot).accessories,
    )
}

/// What a transplanted character has taken from the source: level,
/// experience, flags and selected class; the class progress of the selected
/// class; and in that class's loadout every art, skill and gem that the
/// source has equipped.
pub open spec fn character_adopted(now: SaveRecordView, src: SaveRecordView, slot: int) -> bool {
    let ours = now.characters[slot];
    let theirs = src.characters[slot];
    let build = receiving_build(now, src, slot);
    let wanted = source_build(src, slot);
    &&& ours.level == theirs.level
    &&& ours.exp == theirs.exp
    &&& ours.flags == theirs.flags
    &&& ours.selected_class == theirs.selected_class
    &&& build.points == wanted.points
    &&& build.rank == wanted.rank
    &&& build.unlock_points == wanted.unlock_points
    &&& forall|p: int|
        0 <= p < wanted.arts.len() && wanted.arts[p] is Some ==> #[trigger] build.arts[p] == wanted.arts[p]
    &&& forall|p: int|
        0 <= p < wanted.skills.len() && wanted.skills[p] is Some ==> #[trigger] build.skills[p] == wanted.skills[p]
    &&& forall|p: int|
        0 <= p < wanted.gems.len() && wanted.gems[p] is Some ==> #[trigger] build.gems[p] == wanted.gems[p]
}

/// What one step of the merge does to the character slots: the slot of the
/// transplanted character has adopted the source's state and kept what the
/// source does not speak of, and every other slot is as it was.
proof fn lemma_transplanted_character(
    before: SaveRecordView,
    src: SaveRecordView,
    character_id: u16,
    after: SaveRecordView,
)
    requires
        can_transplant(before, src, character_id),
        transplant_character_spec(before, src, character_id) matches Ok(done) && after.characters
            == done.characters,
    ensures
        after.characters.len() == before.characters.len(),
        forall|t: int|
            0 <= t < before.characters.len() && t != slot_of(character_id) ==> #[trigger] after.characters[t]
                == before.characters[t],
        character_kept(after, before, src, slot_of(character_id)),
        character_adopted(after, src, slot_of(character_id)),
{
    let slot = slot_of(character_id);
    let class_id = src.characters[slot].selected_class as int;
    let worn = source_build(src, slot).accessories;
    lemma_equip_keeps_slots(
        before.characters[slot].loadouts[class_id].accessories,
        worn,
        before.inventory,
        worn.len(),
    );
}

proof fn lemma_characters_prefix(dst: SaveRecordView, src: SaveRecordView, n: nat)
    requires
        mergeable(dst, src),
        n <= src.roster.len(),
    ensures
        merge_prefix(dst, src, n) matches Ok(so_far) ==> {
            &&& so_far.characters.len() == dst.characters.len()
            &&& forall|t: int| 0 <= t < dst.characters.len() ==> #[trigger] character_kept(so_far, dst, src, t)
            &&& forall|i: int|
                0 <= i < n && src.roster[i] != 0 ==> character_adopted(so_far, src, slot_of(#[trigger] src.roster[i]))
            &&& forall|t: int|
                0 <= t < dst.characters.len() && (forall|i: int|
                    0 <= i < n && #[trigger] src.roster[i] != 0 ==> slot_of(src.roster[i]) != t)
                    ==> #[trigger] so_far.characters[t] == dst.characters[t]
        },
    decreases n,
{
    if n > 0 {
        let m = (n - 1) as nat;
        lemma_characters_prefix(dst, src, m);
        lemma_prefix_keeps_mergeable(dst, src, m);
        if let Ok(before) = merge_prefix(dst, src, m) {
            let character_id = src.roster[m as int];
            if character_id != 0 {
                if let Ok(after) = merge_position(before, src, m as int) {
                    lemma_transplanted_character(before, src, character_id, after);
                    let slot = slot_of(character_id);
                    assert forall|t: int| 0 <= t < dst.characters.len() implies #[trigger] character_kept(
                        after,
                        dst,
                        src,
                        t,
                    ) by {
                        assert(character_kept(before, dst, src, t));
                        if t == slot {
                            assert(character_kept(after, before, src, t));
                        } else {
                            assert(after.characters[t] == before.characters[t]);
                        }
                    }
                    assert forall|i: int| 0 <= i < n && src.roster[i] != 0 implies character_adopted(
                        after,
                        src,
                        slot_of(#[trigger] src.roster[i]),
                    ) by {
                        let t = slot_of(src.roster[i]);
                        if t != slot {
                            assert(after.characters[t] == before.characters[t]);
                            assert(character_adopted(before, src, t));
                        }
                    }
                    assert forall|t: int|
                        0 <= t < dst.characters.len() && (forall|i: int|
                            0 <= i < n && #[trigger] src.roster[i] != 0 ==> slot_of(src.roster[i]) != t)
                            implies #[trigger] after.characters[t] == dst.characters[t] by {
                        assert(src.roster[m as int] != 0 ==> slot_of(src.roster[m as int]) != t);
                        assert(after.characters[t] == before.characters[t]);
                    }
                }
            }
        }
    }
}

/// Every character of the source roster has, after the merge, the source's
/// level, experience, flags and selected class, the source's class progress
/// in the loadout of that class, and in every art, skill and gem slot that
/// the source occupies the source's content.
pub proof fn lemma_merge_adopts_roster_characters(
    dst: SaveRecordView,
    src: SaveRecordView,
    merged: SaveRecordView,
    position: int,
)
    requires
        mergeable(dst, src),
        merge_result(dst, src) == Ok::<SaveRecordView, MergeError>(merged),
        0 <= position < src.roster.len(),
        src.roster[position] != 0,
    ensures
        character_adopted(merged, src, slot_of(src.roster[position])),
{
    lemma_characters_prefix(dst, src, src.roster.len());
}

/// The merge is sparse: in every character slot, each loadout other than
/// the one that the source has selected is as it was, and in that one each
/// art, skill, gem and accessory slot that the source leaves empty holds
/// what the destination held before. No loadout or slot is added or removed.
pub proof fn lemma_merge_keeps_what_source_lacks(
    dst: SaveRecordView,
    src: SaveRecordView,
    merged: SaveRecordView,
    slot: int,
)
    requires
        mergeable(dst, src),
        merge_result(dst, src) == Ok::<SaveRecordView, MergeError>(merged),
        0 <= slot < dst.characters.len(),
    ensures
        merged.characters.len() == dst.characters.len(),
        character_kept(merged, dst, src, slot),
{
    lemma_characters_prefix(dst, src, src.roster.len());
}

proof fn lemma_presentation_prefix(dst: SaveRecordView, src: SaveRecordView, n: nat)
    requires
        mergeable(dst, src),
        n <= src.roster.len(),
    ensures
        merge_prefix(dst, src, n) matches Ok(so_far) ==> {
            &&& so_far.presentation.selectable.len() == dst.presentation.selectable.len()
            &&& so_far.presentation.permanent.len() == dst.presentation.permanent.len()
            &&& so_far.presentation.temporary.len() == dst.presentation.temporary.len()
            &&& forall|i: int|
                0 <= i < n && src.roster[i] != 0 ==> {
                    let t = slot_of(#[trigger] src.roster[i]);
                    &&& so_far.presentation.selectable[t] == src.presentation.selectable[t]
                    &&& so_far.presentation.permanent[t] == src.presentation.permanent[t]
                    &&& so_far.presentation.temporary[t] == src.presentation.temporary[t]
                }
            &&& forall|t: int|
                #![trigger so_far.presentation.selectable[t]]
                #![trigger so_far.presentation.permanent[t]]
                #![trigger so_far.presentation.temporary[t]]
                0 <= t && (forall|i: int| 0 <= i < n && #[trigger] src.roster[i] != 0 ==> slot_of(src.roster[i]) != t)
                    ==> {
                    &&& t < dst.presentation.selectable.len() ==> so_far.presentation.selectable[t]
                        == dst.presentation.selectable[t]
                    &&& t < dst.presentation.permanent.len() ==> so_far.presentation.permanent[t]
                        == dst.presentation.permanent[t]
                    &&& t < dst.presentation.temporary.len() ==> so_far.presentation.temporary[t]
                        == dst.presentation.temporary[t]
                }
        },
    decreases n,
{
    if n > 0 {
        let m = (n - 1) as nat;
        lemma_presentation_prefix(dst, src, m);
        lemma_prefix_keeps_mergeable(dst, src, m);
        if let Ok(before) = merge_prefix(dst, src, m) {
            let character_id = src.roster[m as int];
            if character_id != 0 {
                if let Ok(after) = merge_position(before, src, m as int) {
                    let slot = slot_of(character_id);
                    assert(can_transplant(before, src, character_id));
                    assert(after.presentation == before.presentation.with_bits_of(src.presentation, slot));
                    assert forall|i: int| 0 <= i < n && src.roster[i] != 0 implies ({
                        let t = slot_of(#[trigger] src.roster[i]);
                        &&& after.presentation.selectable[t] == src.presentation.selectable[t]
                        &&& after.presentation.permanent[t] == src.presentation.permanent[t]
                        &&& after.presentation.temporary[t] == src.presentation.temporary[t]
                    }) by {
                        let t = slot_of(src.roster[i]);
                        assert(can_transplant(before, src, src.roster[i]));
                    }
                    assert forall|t: int|
                        #![trigger after.presentation.selectable[t]]
                        #![trigger after.presentation.permanent[t]]
                        #![trigger after.presentation.temporary[t]]
                        0 <= t && (forall|i: int|
                            0 <= i < n && #[trigger] src.roster[i] != 0 ==> slot_of(src.roster[i]) != t) implies ({
                        &&& t < dst.presentation.selectable.len() ==> after.presentation.selectable[t]
                            == dst.presentation.selectable[t]
                        &&& t < dst.presentation.permanent.len() ==> after.presentation.permanent[t]
                            == dst.presentation.permanent[t]
                        &&& t < dst.presentation.temporary.len() ==> after.presentation.temporary[t]
                            == dst.presentation.temporary[t]
                    }) by {
                        assert(src.roster[m as int] != 0 ==> slot_of(src.roster[m as int]) != t);
                        if t < dst.presentation.selectable.len() {
                            assert(before.presentation.selectable[t] == dst.presentation.selectable[t]);
                        }
                        if t < dst.presentation.permanent.len() {
                            assert(before.presentation.permanent[t] == dst.presentation.permanent[t]);
                        }
                        if t < dst.presentation.temporary.len() {
                            assert(before.presentation.temporary[t] == dst.presentation.temporary[t]);
                        }
                    }
                }
            }
        }
    }
}

/// A character slot that belongs to no character of the source roster is
/// not touched by the merge. An empty roster position names no character,
/// so it never causes a transplant.
pub proof fn lemma_merge_leaves_other_characters(
    dst: SaveRecordView,
    src: SaveRecordView,
    merged: SaveRecordView,
    slot: int,
)
    requires
        mergeable(dst, src),
        merge_result(dst, src) == Ok::<SaveRecordView, MergeError>(merged),
        0 <= slot < dst.characters.len(),
        !in_source_roster(src, slot),
    ensures
        merged.characters[slot] == dst.characters[slot],
        slot < dst.presentation.selectable.len() ==> merged.presentation.selectable[slot]
            == dst.presentation.selectable[slot],
        slot < dst.presentation.permanent.len() ==> merged.presentation.permanent[slot]
            == dst.presentation.permanent[slot],
        slot < dst.presentation.temporary.len() ==> merged.presentation.temporary[slot]
            == dst.presentation.temporary[slot],
{
    lemma_characters_prefix(dst, src, src.roster.len());
    lemma_presentation_prefix(dst, src, src.roster.len());
}

/// Every character of the source roster has, after the merge, the source's
/// three visibility bits.
pub proof fn lemma_merge_adopts_presentation(
    dst: SaveRecordView,
    src: SaveRecordView,
    merged: SaveRecordView,
    position: int,
)
    requires
        mergeable(dst, src),
        merge_result(dst, src) == Ok::<SaveRecordView, MergeError>(merged),
        0 <= position < src.roster.len(),
        src.roster[position] != 0,
    ensures
        ({
            let t = slot_of(src.roster[position]);
            &&& merged.presentation.selectable[t] == src.presentation.selectable[t]
            &&& merged.presentation.permanent[t] == src.presentation.permanent[t]
            &&& merged.presentation.temporary[t] == src.presentation.temporary[t]
        }),
{
    lemma_presentation_prefix(dst, src, src.roster.len());
}

} // verus!
