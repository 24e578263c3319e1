//! What holds of a merge as a whole.
//!
//! Each law speaks of the destination before the merge, the source, and the
//! merged destination that [`crate::merge::merge_result`] describes and that
//! [`crate::merge::merge`] produces. The laws are sorted by what they speak
//! of: the roster and the character slots, the progression records, the
//! accessories and the inventory, and the repeated merge.

pub mod accessories;
pub mod characters;
pub mod progress;
pub mod repeat;

use vstd::prelude::*;
use crate::loadout::{EquippedAccessory, LoadoutView};
use crate::merge::{lemma_transplant_keeps_mergeable, merge_prefix, transplant_character_spec};
use crate::record::{can_transplant, mergeable, slot_of, SaveRecordView};

verus! {

/// The build that the merge transplants for the character in `slot`: the
/// source's loadout of the class that the source has selected.
pub open spec fn source_build(src: SaveRecordView, slot: int) -> LoadoutView {
    src.characters[slot].loadouts[src.characters[slot].selected_class as int]
}

/// The loadout of `record` that receives [`source_build`].
pub open spec fn receiving_build(record: SaveRecordView, src: SaveRecordView, slot: int) -> LoadoutView {
    record.characters[slot].loadouts[src.characters[slot].selected_class as int]
}

/// Whether the character slot belongs to a character of the source roster.
pub open spec fn in_source_roster(src: SaveRecordView, slot: int) -> bool {
    exists|i: int| 0 <= i < src.roster.len() && #[trigger] src.roster[i] != 0 && slot_of(src.roster[i]) == slot
}

/// Whether the character at the roster position wears an accessory in slot
/// `p` of the build that the merge transplants.
pub open spec fn wears_at(src: SaveRecordView, position: int, p: int) -> bool {
    &&& 0 <= position < src.roster.len()
    &&& src.roster[position] != 0
    &&& 0 <= p < source_build(src, slot_of(src.roster[position])).accessories.len()
    &&& source_build(src, slot_of(src.roster[position])).accessories[p] is Some
}

/// What `record` wears where the source wears an accessory.
pub open spec fn worn_after(record: SaveRecordView, src: SaveRecordView, position: int, p: int) -> Option<
    EquippedAccessory,
> {
    receiving_build(record, src, slot_of(src.roster[position])).accessories[p]
}

/// Every state that the merge passes through can take the rest of the source.
pub proof fn lemma_prefix_keeps_mergeable(dst: SaveRecordView, src: SaveRecordView, n: nat)
    requires
        mergeable(dst, src),
        n <= src.roster.len(),
    ensures
        merge_prefix(dst, src, n) matches Ok(so_far) ==> mergeable(so_far, src),
    decreases n,
{
    if n > 0 {
        let m = (n - 1) as nat;
        lemma_prefix_keeps_mergeable(dst, src, m);
        if let Ok(before) = merge_prefix(dst, src, m) {
            let character_id = src.roster[m as int];
            if character_id != 0 {
                lemma_transplant_keeps_mergeable(before, src, character_id);
                if let Ok(after) = transplant_character_spec(before, src, character_id) {
                    let written = SaveRecordView { roster: after.roster.update(m as int, character_id), ..after };
                    assert forall|i: int| 0 <= i < src.roster.len() && src.roster[i] != 0 implies can_transplant(
                        written,
                        src,
                        #[trigger] src.roster[i],
                    ) by {
                        assert(can_transplant(after, src, src.roster[i]));
                    }
                }
            }
        }
    }
}

} // verus!
