//! The roster synchronizer: the merge of a bonus record into a base record.

use vstd::prelude::*;
use crate::character::{copy_flags, transplant, transplant_spec, CharacterView};
use crate::error::MergeError;
use crate::laws::characters::{character_kept, lemma_merge_keeps_what_source_lacks};
use crate::laws::repeat::{lemma_merge_settles, settled};
use crate::loadout::lemma_equip_keeps_slots;
use crate::progression::{copy_progression, copy_progression_spec};
use crate::record::{
    can_receive, can_transplant, copy_presentation, mergeable, slot_of, SaveRecord, SaveRecordView,
};

verus! {

/// What [`transplant_character`] does to the destination, or the failure it
/// ends with.
///
/// The destination's character slot takes the source's level, experience and
/// flags and then the source's build for its selected class; the inventory
/// takes the accessories of that build; the character's progression record
/// adopts the source's progress; and the slot's visibility bits are taken
/// from the source. The roster is not touched.
pub open spec fn transplant_character_spec(
    dst: SaveRecordView,
    src: SaveRecordView,
    character_id: u16,
) -> Result<SaveRecordView, MergeError> {
    let slot = slot_of(character_id);
    let from = src.characters[slot];
    let prepared = CharacterView { level: from.level, exp: from.exp, flags: from.flags, ..dst.characters[slot] };
    match transplant_spec(prepared, from, from.selected_class as int, dst.inventory) {
        Err(e) => Err(e),
        Ok((character, stock)) => match copy_progression_spec(dst.progression, src.progression, character_id) {
            Err(e) => Err(e),
            Ok(records) => Ok(
                SaveRecordView {
                    roster: dst.roster,
                    characters: dst.characters.update(slot, character),
                    inventory: stock,
                    progression: records,
                    presentation: dst.presentation.with_bits_of(src.presentation, slot),
                },
            ),
        },
    }
}

/// Transplants one character from `src` to `dst`.
///
/// In the order given: level, experience and every flag are copied; the
/// build of the source's selected class is transplanted and its accessories
/// are created in the destination inventory; the character's progression
/// record is copied; the three visibility bits of the character slot are
/// copied. The first step that fails ends the call with its error, and the
/// destination must then be discarded.
pub fn transplant_character(dst: &mut SaveRecord, src: &SaveRecord, character_id: u16) -> (result: Result<
    (),
    MergeError,
>)
    requires
        can_transplant(old(dst)@, src@, character_id),
    ensures
        match transplant_character_spec(old(dst)@, src@, character_id) {
            Ok(after) => result is Ok && final(dst)@ == after,
            Err(e) => result == Err::<(), MergeError>(e),
        },
{
    let slot = (character_id - 1) as usize;
    let from = &src.characters[slot];
    let class_id = from.selected_class as usize;
    dst.characters[slot].level = from.level;
    dst.characters[slot].exp = from.exp;
    copy_flags(&mut dst.characters[slot], from);
    match transplant(&mut dst.characters[slot], from, class_id, &mut dst.inventory) {
        Err(e) => {
            return Err(e);
        },
        Ok(()) => {},
    }
    proof {
        assert(dst@.characters =~= old(dst)@.characters.update(slot as int, dst.characters@[slot as int]@));
    }
    match copy_progression(dst, src, character_id) {
        Err(e) => {
            return Err(e);
        },
        Ok(()) => {},
    }
    copy_presentation(&mut dst.presentation, &src.presentation, slot);
    Ok(())
}

/// What the merge does at one roster position: nothing where the source
/// roster is empty; otherwise the character found there is transplanted and
/// then written into the destination roster at the same position.
pub open spec fn merge_position(dst: SaveRecordView, src: SaveRecordView, position: int) -> Result<
    SaveRecordView,
    MergeError,
> {
    let character_id = src.roster[position];
    if character_id == 0 {
        Ok(dst)
    } else {
        match transplant_character_spec(dst, src, character_id) {
            Err(e) => Err(e),
            Ok(after) => Ok(SaveRecordView { roster: after.roster.update(position, character_id), ..after }),
        }
    }
}

/// The destination after the first `n` roster positions of the source have
/// been merged in display order, or the first failure met on the way.
pub open spec fn merge_prefix(dst: SaveRecordView, src: SaveRecordView, n: nat) -> Result<
    SaveRecordView,
    MergeError,
>
    decreases n,
{
    if n == 0 {
        Ok(dst)
    } else {
        match merge_prefix(dst, src, (n - 1) as nat) {
            Err(e) => Err(e),
            Ok(so_far) => merge_position(so_far, src, n - 1),
        }
    }
}

/// The merged destination, or the failure that aborts the merge.
pub open spec fn merge_result(dst: SaveRecordView, src: SaveRecordView) -> Result<SaveRecordView, MergeError> {
    merge_prefix(dst, src, src.roster.len())
}

/// Merges the bonus record `source` into the base record `destination`.
///
/// The source roster is walked in display order. An empty position is
/// skipped. For any other position the character found there is
/// transplanted as [`transplant_character`] describes and then written into
/// the destination roster at the same position. The order matters, because
/// the accessories of earlier characters take inventory slots that later
/// ones can no longer get.
///
/// The source is never changed. The first failure aborts the merge and is
/// returned; the destination then holds a partial merge and must be
/// discarded.
///
/// After a successful merge the destination is settled: every character of
/// the source roster stands in the roster and has the source's level,
/// experience, flags, selected class, class progress, equipped arts, skills
/// and gems, visibility bits and progression. What the source does not speak
/// of is kept. The module `laws` says more, of the accessories above all.
pub fn merge(destination: &mut SaveRecord, source: &SaveRecord) -> (result: Result<(), MergeError>)
    requires
        mergeable(old(destination)@, source@),
    ensures
        match merge_result(old(destination)@, source@) {
            Ok(merged) => result is Ok && final(destination)@ == merged,
            Err(e) => result == Err::<(), MergeError>(e),
        },
        result is Ok ==> settled(final(destination)@, source@),
        result is Ok ==> forall|slot: int|
            0 <= slot < old(destination)@.characters.len() ==> #[trigger] character_kept(
                final(destination)@,
                old(destination)@,
                source@,
                slot,
            ),
{
    let mut position: usize = 0;
    while position < source.roster.len()
        invariant
            position <= source@.roster.len(),
            mergeable(destination@, source@),
            merge_prefix(old(destination)@, source@, position as nat) == Ok::<SaveRecordView, MergeError>(
                destination@,
            ),
        decreases source@.roster.len() - position,
    {
        let character_id = source.roster[position];
        if character_id != 0 {
            proof {
                lemma_transplant_keeps_mergeable(destination@, source@, character_id);
            }
            match transplant_character(destination, source, character_id) {
                Err(e) => {
                    proof {
                        lemma_merge_failure_persists(
                            old(destination)@,
                            source@,
                            (position + 1) as nat,
                            source@.roster.len(),
                        );
                    }
                    return Err(e);
                },
                Ok(()) => {},
            }
            let ghost transplanted = destination@;
            destination.roster[position] = character_id;
            proof {
                assert(destination@ == (SaveRecordView {
                    roster: transplanted.roster.update(position as int, character_id),
                    ..transplanted
                }));
                assert forall|i: int|
                    0 <= i < source@.roster.len() && source@.roster[i] != 0 implies can_transplant(
                    destination@,
                    source@,
                    #[trigger] source@.roster[i],
                ) by {
                    assert(can_transplant(transplanted, source@, source@.roster[i]));
                }
            }
        }
        position += 1;
    }
    proof {
        lemma_merge_settles(old(destination)@, source@, destination@);
        assert forall|slot: int| 0 <= slot < old(destination)@.characters.len() implies #[trigger] character_kept(
            destination@,
            old(destination)@,
            source@,
            slot,
        ) by {
            lemma_merge_keeps_what_source_lacks(old(destination)@, source@, destination@, slot);
        }
    }
    Ok(())
}

/// Once a prefix of the roster has failed, the whole merge fails in the same
/// way: the first error is the one returned.
pub proof fn lemma_merge_failure_persists(dst: SaveRecordView, src: SaveRecordView, k: nat, n: nat)
    requires
        k <= n,
        merge_prefix(dst, src, k) is Err,
    ensures
        merge_prefix(dst, src, n) == merge_prefix(dst, src, k),
    decreases n,
{
    if k < n {
        lemma_merge_failure_persists(dst, src, k, (n - 1) as nat);
    }
}

/// A transplant leaves the destination able to take every character it
/// could take before.
pub proof fn lemma_transplant_keeps_mergeable(dst: SaveRecordView, src: SaveRecordView, character_id: u16)
    requires
        mergeable(dst, src),
        can_transplant(dst, src, character_id),
    ensures
        transplant_character_spec(dst, src, character_id) matches Ok(after) ==> mergeable(after, src),
{
    if let Ok(after) = transplant_character_spec(dst, src, character_id) {
        let slot = slot_of(character_id);
        let from = src.characters[slot];
        let class_id = from.selected_class as int;
        lemma_equip_keeps_slots(
            dst.characters[slot].loadouts[class_id].accessories,
            from.loadouts[class_id].accessories,
            dst.inventory,
            from.loadouts[class_id].accessories.len(),
        );
        assert forall|i: int| 0 <= i < src.roster.len() && src.roster[i] != 0 implies can_transplant(
            after,
            src,
            #[trigger] src.roster[i],
        ) by {
            let other = src.roster[i];
            assert(can_transplant(dst, src, other));
            if slot_of(other) == slot {
                assert(can_receive(after.characters[slot], from));
            }
        }
    }
}

} // verus!
