//! The in-memory form of one save file.

use vstd::prelude::*;
use crate::character::{Character, CharacterView};
use crate::inventory::{Inventory, InventoryView};
use crate::progression::ProgressionRecord;

verus! {

/// The roster-visibility state of the characters: three parallel sets with
/// one bit per character slot.
#[derive(Clone, PartialEq, Eq, Debug)]
pub struct PresentationSets {
    pub selectable: Vec<bool>,
    pub permanent: Vec<bool>,
    pub temporary: Vec<bool>,
}

/// The mathematical value of [`PresentationSets`].
pub struct PresentationView {
    pub selectable: Seq<bool>,
    pub permanent: Seq<bool>,
    pub temporary: Seq<bool>,
}

impl View for PresentationSets {
    type V = PresentationView;

    open spec fn view(&self) -> PresentationView {
        PresentationView {
            selectable: self.selectable@,
            permanent: self.permanent@,
            temporary: self.temporary@,
        }
    }
}

impl PresentationView {
    /// Whether each of the three sets has a bit for the character slot.
    pub open spec fn covers(self, slot: int) -> bool {
        &&& 0 <= slot < self.selectable.len()
        &&& slot < self.permanent.len()
        &&& slot < self.temporary.len()
    }

    /// These sets with the three bits of one character slot taken from `src`.
    pub open spec fn with_bits_of(self, src: PresentationView, slot: int) -> PresentationView {
        PresentationView {
            selectable: self.selectable.update(slot, src.selectable[slot]),
            permanent: self.permanent.update(slot, src.permanent[slot]),
            temporary: self.temporary.update(slot, src.temporary[slot]),
        }
    }
}

/// Copies the three visibility bits of one character slot from `src` to
/// `dst`. The bits of the other slots stay as they are.
pub fn copy_presentation(dst: &mut PresentationSets, src: &PresentationSets, slot: usize)
    requires
        old(dst)@.covers(slot as int),
        src@.covers(slot as int),
    ensures
        final(dst)@ == old(dst)@.with_bits_of(src@, slot as int),
{
    dst.selectable[slot] = src.selectable[slot];
    dst.permanent[slot] = src.permanent[slot];
    dst.temporary[slot] = src.temporary[slot];
}

/// One save file, fully loaded.
#[derive(Clone, PartialEq, Eq, Debug)]
pub struct SaveRecord {
    /// The active party in display order. An entry is a character identity,
    /// counted from 1, or 0 for an empty position.
    pub roster: Vec<u16>,
    /// The character slots. Character `id` lives in slot `id - 1`.
    pub characters: Vec<Character>,
    pub inventory: Inventory,
    /// The progression records, in no particular order.
    pub progression: Vec<ProgressionRecord>,
    pub presentation: PresentationSets,
}

/// The mathematical value of a [`SaveRecord`].
pub struct SaveRecordView {
    pub roster: Seq<u16>,
    pub characters: Seq<CharacterView>,
    pub inventory: InventoryView,
    pub progression: Seq<ProgressionRecord>,
    pub presentation: PresentationView,
}

impl View for SaveRecord {
    type V = SaveRecordView;

    open spec fn view(&self) -> SaveRecordView {
        SaveRecordView {
            roster: self.roster@,
            characters: self.characters@.map_values(|c: Character| c@),
            inventory: self.inventory@,
            progression: self.progression@,
            presentation: self.presentation@,
        }
    }
}

/// The character slot of a character identity.
pub open spec fn slot_of(character_id: u16) -> int {
    character_id - 1
}

/// Whether the destination character can take the source character's build:
/// both have the same flags, the source's selected class has a loadout in
/// both, and the two loadouts have the same slots.
pub open spec fn can_receive(dst: CharacterView, src: CharacterView) -> bool {
    let class_id = src.selected_class as int;
    &&& dst.flags.len() == src.flags.len()
    &&& class_id < src.loadouts.len()
    &&& class_id < dst.loadouts.len()
    &&& dst.loadouts[class_id].same_capacity(src.loadouts[class_id])
}

/// Whether the character can be transplanted from `src` to `dst`: it is a
/// character, not the empty roster entry, both records have its character
/// slot and its visibility bits, and the destination's slot can take the
/// source's build.
pub open spec fn can_transplant(dst: SaveRecordView, src: SaveRecordView, character_id: u16) -> bool {
    let slot = slot_of(character_id);
    &&& character_id != 0
    &&& slot < src.characters.len()
    &&& slot < dst.characters.len()
    &&& can_receive(dst.characters[slot], src.characters[slot])
    &&& dst.presentation.covers(slot)
    &&& src.presentation.covers(slot)
}

/// Whether `src` can be merged into `dst`: the two rosters have the same
/// positions, and every character of the source roster can be transplanted.
pub open spec fn mergeable(dst: SaveRecordView, src: SaveRecordView) -> bool {
    &&& dst.roster.len() == src.roster.len()
    &&& forall|i: int|
        0 <= i < src.roster.len() && src.roster[i] != 0 ==> can_transplant(dst, src, #[trigger] src.roster[i])
}

/// Checks [`can_receive`].
pub fn is_receivable(dst: &Character, src: &Character) -> (ok: bool)
    ensures
        ok == can_receive(dst@, src@),
{
    let class_id = src.selected_class as usize;
    if dst.flags.len() != src.flags.len() {
        return false;
    }
    if class_id >= src.loadouts.len() || class_id >= dst.loadouts.len() {
        return false;
    }
    let ours = &dst.loadouts[class_id];
    let theirs = &src.loadouts[class_id];
    ours.arts.len() == theirs.arts.len() && ours.skills.len() == theirs.skills.len() && ours.gems.len()
        == theirs.gems.len() && ours.accessories.len() == theirs.accessories.len()
}

/// Checks [`PresentationView::covers`].
pub fn has_presentation_bits(sets: &PresentationSets, slot: usize) -> (ok: bool)
    ensures
        ok == sets@.covers(slot as int),
{
    slot < sets.selectable.len() && slot < sets.permanent.len() && slot < sets.temporary.len()
}

/// Checks [`can_transplant`].
pub fn is_transplantable(dst: &SaveRecord, src: &SaveRecord, character_id: u16) -> (ok: bool)
    ensures
        ok == can_transplant(dst@, src@, character_id),
{
    if character_id == 0 {
        return false;
    }
    let slot = (character_id - 1) as usize;
    if slot >= src.characters.len() || slot >= dst.characters.len() {
        return false;
    }
    is_receivable(&dst.characters[slot], &src.characters[slot]) && has_presentation_bits(
        &dst.presentation,
        slot,
    ) && has_presentation_bits(&src.presentation, slot)
}

/// Checks [`mergeable`]: whether `src` can be handed to the merge with `dst`
/// as its destination.
pub fn is_mergeable(dst: &SaveRecord, src: &SaveRecord) -> (ok: bool)
    ensures
        ok == mergeable(dst@, src@),
{
    if dst.roster.len() != src.roster.len() {
        return false;
    }
    let mut position: usize = 0;
    while position < src.roster.len()
        invariant
            position <= src@.roster.len(),
            forall|i: int|
                0 <= i < position && src@.roster[i] != 0 ==> can_transplant(dst@, src@, #[trigger] src@.roster[i]),
        decreases src@.roster.len() - position,
    {
        let character_id = src.roster[position];
        if character_id != 0 && !is_transplantable(dst, src, character_id) {
            return false;
        }
        position += 1;
    }
    true
}

} // verus!
