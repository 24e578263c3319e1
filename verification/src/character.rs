//! Characters and the transplant of one character's state.

use vstd::prelude::*;
use crate::error::MergeError;
use crate::inventory::{Inventory, InventoryView};
use crate::loadout::{transplant_loadout, transplant_loadout_spec, Loadout, LoadoutView};

verus! {

/// One character slot of a save record. The character's identity is implied
/// by the position of the slot: slot `s` belongs to character `s + 1`.
#[derive(Clone, PartialEq, Eq, Debug)]
pub struct Character {
    pub level: u32,
    pub exp: u32,
    /// One entry per boolean attribute of the character, in the order in
    /// which the attributes are enumerated.
    pub flags: Vec<bool>,
    /// The identity of the class in use; it selects the loadout at that
    /// position.
    pub selected_class: u32,
    /// One loadout per class the character can use.
    pub loadouts: Vec<Loadout>,
}

/// The mathematical value of a [`Character`].
pub struct CharacterView {
    pub level: u32,
    pub exp: u32,
    pub flags: Seq<bool>,
    pub selected_class: u32,
    pub loadouts: Seq<LoadoutView>,
}

impl View for Character {
    type V = CharacterView;

    open spec fn view(&self) -> CharacterView {
        CharacterView {
            level: self.level,
            exp: self.exp,
            flags: self.flags@,
            selected_class: self.selected_class,
            loadouts: self.loadouts@.map_values(|l: Loadout| l@),
        }
    }
}

impl Character {
    /// Reads one boolean attribute.
    pub fn is_flag_set(&self, flag: usize) -> (value: bool)
        requires
            flag < self@.flags.len(),
        ensures
            value == self@.flags[flag as int],
    {
        self.flags[flag]
    }

    /// Writes one boolean attribute. Nothing else changes.
    pub fn set_flag(&mut self, flag: usize, value: bool)
        requires
            flag < old(self)@.flags.len(),
        ensures
            final(self)@ == (CharacterView {
                flags: old(self)@.flags.update(flag as int, value),
                ..old(self)@
            }),
    {
        self.flags[flag] = value;
    }
}

/// Copies every boolean attribute of `src` to `dst`.
///
/// The attributes are read from the source and written to the destination
/// one by one, over the whole enumeration, so none can be left out.
pub fn copy_flags(dst: &mut Character, src: &Character)
    requires
        old(dst)@.flags.len() == src@.flags.len(),
    ensures
        final(dst)@ == (CharacterView { flags: src@.flags, ..old(dst)@ }),
{
    let mut flag: usize = 0;
    while flag < src.flags.len()
        invariant
            flag <= src@.flags.len(),
            dst@.flags.len() == src@.flags.len(),
            forall|k: int| 0 <= k < flag ==> dst@.flags[k] == src@.flags[k],
            dst@ == (CharacterView { flags: dst@.flags, ..old(dst)@ }),
        decreases src@.flags.len() - flag,
    {
        let value = src.is_flag_set(flag);
        dst.set_flag(flag, value);
        flag += 1;
    }
    assert(dst@.flags =~= src@.flags);
}

/// What [`transplant`] does to the destination character and the inventory,
/// or the failure it ends with.
pub open spec fn transplant_spec(
    dst: CharacterView,
    src: CharacterView,
    class_id: int,
    inventory: InventoryView,
) -> Result<(CharacterView, InventoryView), MergeError> {
    match transplant_loadout_spec(dst.loadouts[class_id], src.loadouts[class_id], inventory) {
        Err(e) => Err(e),
        Ok((loadout, stock)) => Ok(
            (
                CharacterView {
                    selected_class: src.selected_class,
                    loadouts: dst.loadouts.update(class_id, loadout),
                    ..dst
                },
                stock,
            ),
        ),
    }
}

/// Copies one character's active build from `src_char` to `dst_char`.
///
/// The destination takes the source's selected class. In the loadout of the
/// class `class_id`, points, rank and unlock points are overwritten; arts,
/// skills and gems are overwritten where the source slot is occupied and
/// kept where it is empty; each accessory the source wears is created in
/// `inventory` and bound to the destination slot at the same position. The
/// other loadouts, and level, experience and flags, stay as they are.
///
/// Fails with `NoFreeInventorySlot` as soon as an accessory finds no room.
pub fn transplant(
    dst_char: &mut Character,
    src_char: &Character,
    class_id: usize,
    inventory: &mut Inventory,
) -> (result: Result<(), MergeError>)
    requires
        class_id < src_char@.loadouts.len(),
        class_id < old(dst_char)@.loadouts.len(),
        src_char@.loadouts[class_id as int].accessories.len() <= old(
            dst_char,
        )@.loadouts[class_id as int].accessories.len(),
    ensures
        match transplant_spec(old(dst_char)@, src_char@, class_id as int, old(inventory)@) {
            Ok((character, stock)) => result is Ok && final(dst_char)@ == character && final(inventory)@
                == stock,
            Err(e) => result == Err::<(), MergeError>(e),
        },
{
    dst_char.selected_class = src_char.selected_class;
    let result = transplant_loadout(&mut dst_char.loadouts[class_id], &src_char.loadouts[class_id], inventory);
    proof {
        if result is Ok {
            assert(dst_char@.loadouts =~= old(dst_char)@.loadouts.update(
                class_id as int,
                dst_char.loadouts@[class_id as int]@,
            ));
        }
    }
    result
}

} // verus!
