use save_merge::character::Character;
use save_merge::error::MergeError;
use save_merge::inventory::{Inventory, InventorySlot, InventorySlotRef, ItemType};
use save_merge::loadout::{EquippedAccessory, Loadout};
use save_merge::merge::{merge, transplant_character};
use save_merge::progression::ProgressionRecord;
use save_merge::record::{is_mergeable, is_transplantable, PresentationSets, SaveRecord};

const CHARACTERS: usize = 6;
const CLASSES: usize = 3;

fn slots(ids: &[u16]) -> Vec<InventorySlot> {
    ids.iter().map(|id| InventorySlot { item_id: *id }).collect()
}

fn inventory(accessories: &[u16]) -> Inventory {
    Inventory {
        cylinders: slots(&[1, 0]),
        gems: slots(&[0, 0, 3]),
        collectibles: slots(&[0]),
        collectopedia: slots(&[]),
        infos: slots(&[0]),
        accessories: slots(accessories),
        key_items: slots(&[9]),
        exchange: slots(&[]),
        extra: slots(&[0]),
    }
}

fn empty_loadout() -> Loadout {
    Loadout {
        points: 0,
        rank: 0,
        unlock_points: 0,
        arts: vec![None; 4],
        skills: vec![None; 3],
        gems: vec![None; 3],
        accessories: vec![None; 3],
    }
}

fn blank_character() -> Character {
    Character {
        level: 1,
        exp: 0,
        flags: vec![false; 4],
        selected_class: 0,
        loadouts: vec![empty_loadout(); CLASSES],
    }
}

fn record(roster: &[u16], accessories: &[u16]) -> SaveRecord {
    SaveRecord {
        roster: roster.to_vec(),
        characters: vec![blank_character(); CHARACTERS],
        inventory: inventory(accessories),
        progression: (1..=CHARACTERS as u16)
            .map(|id| ProgressionRecord { character_id: id, unlocked_tiers: 0, learned: 0 })
            .collect(),
        presentation: PresentationSets {
            selectable: vec![false; CHARACTERS],
            permanent: vec![false; CHARACTERS],
            temporary: vec![false; CHARACTERS],
        },
    }
}

fn worn(item_id: u16, index: usize) -> Option<EquippedAccessory> {
    Some(EquippedAccessory { item_id, slot: InventorySlotRef { item_type: ItemType::Accessory, index } })
}

/// A bonus record whose roster is `[1, 0, 3]`, with state worth copying in
/// the slots of characters 1 and 3.
fn bonus() -> SaveRecord {
    let mut src = record(&[1, 0, 3], &[50, 0, 0, 0]);
    {
        let c = &mut src.characters[0];
        c.level = 42;
        c.exp = 123_456;
        c.flags = vec![true, false, true, true];
        c.selected_class = 2;
        let l = &mut c.loadouts[2];
        l.points = 900;
        l.rank = 20;
        l.unlock_points = 77;
        l.arts = vec![Some(11), None, Some(13), None];
        l.skills = vec![None, Some(22), None];
        l.gems = vec![Some(5), None, None];
        l.accessories = vec![worn(50, 0), None, None];
    }
    {
        let c = &mut src.characters[2];
        c.level = 7;
        c.exp = 70;
        c.flags = vec![false, true, false, false];
        c.selected_class = 1;
        let l = &mut c.loadouts[1];
        l.points = 3;
        l.rank = 2;
        l.unlock_points = 1;
        l.arts = vec![None, None, None, Some(44)];
    }
    src.progression[0] = ProgressionRecord { character_id: 1, unlocked_tiers: 3, learned: 0x8000_0000_0000_0001 };
    src.progression[2] = ProgressionRecord { character_id: 3, unlocked_tiers: 1, learned: 0b1010 };
    src.presentation.selectable[0] = true;
    src.presentation.permanent[0] = true;
    src.presentation.temporary[2] = true;
    src
}

/// A base record whose roster is `[5, 2, 0]`, with content of its own in
/// some of the slots that the bonus record speaks of.
fn base() -> SaveRecord {
    let mut dst = record(&[5, 2, 0], &[8, 0, 9, 0, 0]);
    {
        let c = &mut dst.characters[0];
        c.level = 10;
        c.exp = 1000;
        c.flags = vec![false, true, false, false];
        c.selected_class = 0;
        c.loadouts[0].points = 5;
        c.loadouts[0].arts = vec![Some(1), Some(2), None, None];
        let l = &mut c.loadouts[2];
        l.points = 1;
        l.arts = vec![Some(91), Some(92), None, Some(94)];
        l.skills = vec![Some(81), Some(82), None];
        l.gems = vec![None, Some(7), None];
        l.accessories = vec![None, worn(9, 2), None];
    }
    dst.characters[1].level = 33;
    dst.progression[0] = ProgressionRecord { character_id: 1, unlocked_tiers: 1, learned: 0xff };
    dst.progression[1] = ProgressionRecord { character_id: 2, unlocked_tiers: 5, learned: 0xabc };
    dst.presentation.selectable[1] = true;
    dst.presentation.temporary[0] = true;
    dst
}

#[test]
fn merge_writes_the_source_roster_over_the_destination() {
    let src = bonus();
    let mut dst = base();
    assert_eq!(merge(&mut dst, &src), Ok(()));
    assert_eq!(dst.roster, vec![1, 2, 3]);
}

#[test]
fn merge_copies_level_experience_flags_and_class() {
    let src = bonus();
    let mut dst = base();
    assert_eq!(merge(&mut dst, &src), Ok(()));
    for slot in [0usize, 2] {
        assert_eq!(dst.characters[slot].level, src.characters[slot].level);
        assert_eq!(dst.characters[slot].exp, src.characters[slot].exp);
        assert_eq!(dst.characters[slot].flags, src.characters[slot].flags);
        assert_eq!(dst.characters[slot].selected_class, src.characters[slot].selected_class);
    }
    assert_eq!(dst.characters[0].level, 42);
    assert_eq!(dst.characters[0].exp, 123_456);
    assert_eq!(dst.characters[0].flags, vec![true, false, true, true]);
    assert_eq!(dst.characters[0].selected_class, 2);
}

#[test]
fn merge_overwrites_class_progress() {
    let src = bonus();
    let mut dst = base();
    assert_eq!(merge(&mut dst, &src), Ok(()));
    let l = &dst.characters[0].loadouts[2];
    assert_eq!((l.points, l.rank, l.unlock_points), (900, 20, 77));
}

#[test]
fn merge_keeps_destination_slots_where_the_source_is_empty() {
    let src = bonus();
    let mut dst = base();
    assert_eq!(merge(&mut dst, &src), Ok(()));
    let l = &dst.characters[0].loadouts[2];
    assert_eq!(l.arts[1], Some(92));
    assert_eq!(l.arts[3], Some(94));
    assert_eq!(l.skills[0], Some(81));
    assert_eq!(l.skills[2], None);
    assert_eq!(l.gems[1], Some(7));
    assert_eq!(l.accessories[1], worn(9, 2));
    assert_eq!(l.accessories[2], None);
}

#[test]
fn merge_overwrites_destination_slots_where_the_source_is_occupied() {
    let src = bonus();
    let mut dst = base();
    assert_eq!(merge(&mut dst, &src), Ok(()));
    let l = &dst.characters[0].loadouts[2];
    assert_eq!(l.arts, vec![Some(11), Some(92), Some(13), Some(94)]);
    assert_eq!(l.skills, vec![Some(81), Some(22), None]);
    assert_eq!(l.gems, vec![Some(5), Some(7), None]);
    assert_eq!(dst.characters[2].loadouts[1].arts, vec![None, None, None, Some(44)]);
}

#[test]
fn merge_leaves_the_other_loadouts_alone() {
    let src = bonus();
    let mut dst = base();
    let before = dst.clone();
    assert_eq!(merge(&mut dst, &src), Ok(()));
    assert_eq!(dst.characters[0].loadouts[0], before.characters[0].loadouts[0]);
    assert_eq!(dst.characters[0].loadouts[1], before.characters[0].loadouts[1]);
    assert_eq!(dst.characters[2].loadouts[0], before.characters[2].loadouts[0]);
    assert_eq!(dst.characters[2].loadouts[2], before.characters[2].loadouts[2]);
}

#[test]
fn merge_creates_worn_accessories_in_the_first_empty_slot() {
    let src = bonus();
    let mut dst = base();
    assert_eq!(merge(&mut dst, &src), Ok(()));
    assert_eq!(dst.inventory.accessories, slots(&[8, 50, 9, 0, 0]));
    assert_eq!(dst.characters[0].loadouts[2].accessories[0], worn(50, 1));
}

#[test]
fn merge_touches_no_other_partition_of_the_inventory() {
    let src = bonus();
    let mut dst = base();
    let before = dst.clone();
    assert_eq!(merge(&mut dst, &src), Ok(()));
    let mut expected = before.inventory.clone();
    expected.accessories = slots(&[8, 50, 9, 0, 0]);
    assert_eq!(dst.inventory, expected);
}

#[test]
fn merge_gives_every_accessory_a_slot_of_its_own() {
    let mut src = bonus();
    src.characters[0].loadouts[2].accessories = vec![worn(50, 0), worn(51, 1), worn(50, 2)];
    src.characters[2].loadouts[1].accessories = vec![None, worn(60, 3), None];
    let mut dst = base();
    dst.inventory.accessories = slots(&[8, 0, 9, 0, 0, 7, 0, 0]);
    assert_eq!(merge(&mut dst, &src), Ok(()));
    assert_eq!(dst.inventory.accessories, slots(&[8, 50, 9, 51, 50, 7, 60, 0]));
    assert_eq!(
        dst.characters[0].loadouts[2].accessories,
        vec![worn(50, 1), worn(51, 3), worn(50, 4)]
    );
    assert_eq!(dst.characters[2].loadouts[1].accessories, vec![None, worn(60, 6), None]);
}

#[test]
fn merge_fails_when_the_accessory_partition_is_full() {
    let src = bonus();
    let mut dst = base();
    dst.inventory.accessories = slots(&[8, 3, 9]);
    assert_eq!(
        merge(&mut dst, &src),
        Err(MergeError::NoFreeInventorySlot { item_type: ItemType::Accessory })
    );
}

#[test]
fn merge_fails_when_the_inventory_runs_out_midway() {
    let mut src = bonus();
    src.characters[2].loadouts[1].accessories = vec![worn(60, 0), worn(61, 1), None];
    let mut dst = base();
    dst.inventory.accessories = slots(&[8, 0, 9, 0]);
    assert_eq!(
        merge(&mut dst, &src),
        Err(MergeError::NoFreeInventorySlot { item_type: ItemType::Accessory })
    );
}

#[test]
fn merge_succeeds_with_a_full_inventory_when_nothing_is_worn() {
    let mut src = bonus();
    src.characters[0].loadouts[2].accessories = vec![None, None, None];
    let mut dst = base();
    dst.inventory.accessories = slots(&[8, 3, 9]);
    assert_eq!(merge(&mut dst, &src), Ok(()));
    assert_eq!(dst.inventory.accessories, slots(&[8, 3, 9]));
}

#[test]
fn merge_fails_when_the_source_lacks_a_progression_record() {
    let mut src = bonus();
    src.progression.remove(2);
    let mut dst = base();
    assert_eq!(merge(&mut dst, &src), Err(MergeError::MissingProgressionRecord { character_id: 3 }));
}

#[test]
fn merge_fails_when_the_destination_lacks_a_progression_record() {
    let src = bonus();
    let mut dst = base();
    dst.progression.remove(0);
    assert_eq!(merge(&mut dst, &src), Err(MergeError::MissingProgressionRecord { character_id: 1 }));
}

#[test]
fn merge_reports_the_inventory_before_the_progression_of_one_character() {
    let src = bonus();
    let mut dst = base();
    dst.inventory.accessories = slots(&[8, 3, 9]);
    dst.progression.remove(0);
    assert_eq!(
        merge(&mut dst, &src),
        Err(MergeError::NoFreeInventorySlot { item_type: ItemType::Accessory })
    );
}

#[test]
fn merge_returns_the_first_error_in_roster_order() {
    let mut src = bonus();
    src.characters[0].loadouts[2].accessories = vec![None, None, None];
    src.characters[2].loadouts[1].accessories = vec![worn(60, 0), None, None];
    let mut dst = base();
    dst.inventory.accessories = slots(&[8, 3, 9]);
    dst.progression.remove(0);
    assert_eq!(merge(&mut dst, &src), Err(MergeError::MissingProgressionRecord { character_id: 1 }));
}

#[test]
fn merge_copies_tiers_and_every_learned_bit() {
    let src = bonus();
    let mut dst = base();
    assert_eq!(merge(&mut dst, &src), Ok(()));
    assert_eq!(
        dst.progression[0],
        ProgressionRecord { character_id: 1, unlocked_tiers: 3, learned: 0x8000_0000_0000_0001 }
    );
    assert_eq!(dst.progression[2], ProgressionRecord { character_id: 3, unlocked_tiers: 1, learned: 0b1010 });
    for node in 1..=64usize {
        assert_eq!(dst.progression[0].is_learned(node), src.progression[0].is_learned(node));
    }
    assert!(dst.progression[0].is_learned(1));
    assert!(dst.progression[0].is_learned(64));
    assert!(!dst.progression[0].is_learned(2));
}

#[test]
fn merge_finds_progression_records_in_any_order() {
    let mut src = bonus();
    src.progression.reverse();
    let mut dst = base();
    dst.progression.swap(0, 4);
    assert_eq!(merge(&mut dst, &src), Ok(()));
    assert_eq!(
        dst.progression[4],
        ProgressionRecord { character_id: 1, unlocked_tiers: 3, learned: 0x8000_0000_0000_0001 }
    );
    assert_eq!(dst.progression[2], ProgressionRecord { character_id: 3, unlocked_tiers: 1, learned: 0b1010 });
}

#[test]
fn merge_leaves_the_records_of_other_characters_alone() {
    let src = bonus();
    let mut dst = base();
    assert_eq!(merge(&mut dst, &src), Ok(()));
    assert_eq!(dst.progression[1], ProgressionRecord { character_id: 2, unlocked_tiers: 5, learned: 0xabc });
    assert_eq!(dst.progression.len(), CHARACTERS);
}

#[test]
fn merge_copies_the_visibility_bits_of_roster_characters() {
    let src = bonus();
    let mut dst = base();
    assert_eq!(merge(&mut dst, &src), Ok(()));
    assert_eq!(dst.presentation.selectable, vec![true, true, false, false, false, false]);
    assert_eq!(dst.presentation.permanent, vec![true, false, false, false, false, false]);
    assert_eq!(dst.presentation.temporary, vec![false, false, true, false, false, false]);
}

#[test]
fn merge_leaves_characters_outside_the_source_roster_alone() {
    let src = bonus();
    let mut dst = base();
    let before = dst.clone();
    assert_eq!(merge(&mut dst, &src), Ok(()));
    for slot in [1usize, 3, 4, 5] {
        assert_eq!(dst.characters[slot], before.characters[slot]);
    }
    assert_eq!(dst.characters[1].level, 33);
}

#[test]
fn merge_of_an_empty_roster_changes_nothing() {
    let mut src = bonus();
    src.roster = vec![0, 0, 0];
    let mut dst = base();
    let before = dst.clone();
    assert_eq!(merge(&mut dst, &src), Ok(()));
    assert_eq!(dst, before);
}

#[test]
fn merge_twice_is_merge_once_when_nothing_is_worn() {
    let mut src = bonus();
    src.characters[0].loadouts[2].accessories = vec![None, None, None];
    let mut dst = base();
    assert_eq!(merge(&mut dst, &src), Ok(()));
    let once = dst.clone();
    assert_eq!(merge(&mut dst, &src), Ok(()));
    assert_eq!(dst, once);
}

#[test]
fn merge_twice_creates_worn_accessories_twice() {
    let src = bonus();
    let mut dst = base();
    assert_eq!(merge(&mut dst, &src), Ok(()));
    assert_eq!(merge(&mut dst, &src), Ok(()));
    assert_eq!(dst.inventory.accessories, slots(&[8, 50, 9, 50, 0]));
    assert_eq!(dst.characters[0].loadouts[2].accessories[0], worn(50, 3));
}

#[test]
fn merge_handles_a_character_listed_twice() {
    let mut src = bonus();
    src.roster = vec![1, 1, 0];
    let mut dst = base();
    assert_eq!(merge(&mut dst, &src), Ok(()));
    assert_eq!(dst.roster, vec![1, 1, 0]);
    assert_eq!(dst.inventory.accessories, slots(&[8, 50, 9, 50, 0]));
    assert_eq!(dst.characters[0].loadouts[2].accessories[0], worn(50, 3));
    assert_eq!(dst.characters[0].level, 42);
}

#[test]
fn merge_does_not_change_the_source() {
    let src = bonus();
    let kept = src.clone();
    let mut dst = base();
    assert_eq!(merge(&mut dst, &src), Ok(()));
    assert_eq!(src, kept);
}

#[test]
fn transplant_character_does_not_write_the_roster() {
    let src = bonus();
    let mut dst = base();
    assert_eq!(transplant_character(&mut dst, &src, 1), Ok(()));
    assert_eq!(dst.roster, vec![5, 2, 0]);
    assert_eq!(dst.characters[0].level, 42);
    assert_eq!(dst.characters[2].level, 1);
}

#[test]
fn mergeable_pair_is_accepted() {
    assert!(is_mergeable(&base(), &bonus()));
    assert!(is_transplantable(&base(), &bonus(), 1));
}

#[test]
fn empty_identity_is_not_transplantable() {
    assert!(!is_transplantable(&base(), &bonus(), 0));
}

#[test]
fn rosters_of_different_length_are_not_mergeable() {
    let mut src = bonus();
    src.roster.push(0);
    assert!(!is_mergeable(&base(), &src));
}

#[test]
fn roster_entry_without_character_slot_is_not_mergeable() {
    let mut src = bonus();
    src.roster[1] = 7;
    assert!(!is_mergeable(&base(), &src));
}

#[test]
fn selected_class_without_loadout_is_not_mergeable() {
    let mut src = bonus();
    src.characters[2].selected_class = 3;
    assert!(!is_mergeable(&base(), &src));
}

#[test]
fn loadouts_of_different_capacity_are_not_mergeable() {
    let mut dst = base();
    dst.characters[0].loadouts[2].accessories.pop();
    assert!(!is_mergeable(&dst, &bonus()));
}

#[test]
fn missing_visibility_bits_are_not_mergeable() {
    let mut dst = base();
    dst.presentation.temporary.truncate(2);
    assert!(!is_mergeable(&dst, &bonus()));
}

#[test]
fn shape_of_characters_outside_the_roster_does_not_matter() {
    let mut dst = base();
    dst.characters[4].loadouts.clear();
    dst.characters[4].flags.clear();
    assert!(is_mergeable(&dst, &bonus()));
}

#[test]
fn merge_creates_no_item_for_an_accessory_without_identity() {
    let mut src = bonus();
    src.characters[0].loadouts[2].accessories = vec![worn(0, 0), None, None];
    let mut dst = base();
    let stock = dst.inventory.clone();
    assert_eq!(merge(&mut dst, &src), Ok(()));
    assert_eq!(dst.inventory, stock);
    assert_eq!(dst.characters[0].loadouts[2].accessories[0], worn(0, 1));
    let once = dst.clone();
    assert_eq!(merge(&mut dst, &src), Ok(()));
    assert_eq!(dst, once);
}
