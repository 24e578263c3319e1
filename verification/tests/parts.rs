use save_merge::character::{copy_flags, transplant, Character};
use save_merge::error::MergeError;
use save_merge::inventory::{find_free_slot, Inventory, InventorySlot, InventorySlotRef, ItemType};
use save_merge::loadout::{copy_occupied_slots, equip_accessories, transplant_loadout, EquippedAccessory, Loadout};
use save_merge::progression::{copy_progress, copy_progression, find_record, ProgressionRecord, NODE_COUNT};
use save_merge::record::{copy_presentation, PresentationSets, SaveRecord};

fn slots(ids: &[u16]) -> Vec<InventorySlot> {
    ids.iter().map(|id| InventorySlot { item_id: *id }).collect()
}

fn inventory(accessories: &[u16]) -> Inventory {
    Inventory {
        cylinders: slots(&[0]),
        gems: slots(&[0]),
        collectibles: slots(&[0]),
        collectopedia: slots(&[0]),
        infos: slots(&[0]),
        accessories: slots(accessories),
        key_items: slots(&[0]),
        exchange: slots(&[0]),
        extra: slots(&[0]),
    }
}

fn worn(item_id: u16, index: usize) -> Option<EquippedAccessory> {
    Some(EquippedAccessory { item_id, slot: InventorySlotRef { item_type: ItemType::Accessory, index } })
}

fn loadout(points: u32, arts: Vec<Option<u16>>, accessories: Vec<Option<EquippedAccessory>>) -> Loadout {
    Loadout {
        points,
        rank: (points % 20) as u8,
        unlock_points: (points % 7) as u16,
        arts,
        skills: vec![None, Some(points as u16)],
        gems: vec![Some(1), None],
        accessories,
    }
}

fn record_with(progression: Vec<ProgressionRecord>) -> SaveRecord {
    SaveRecord {
        roster: vec![1],
        characters: vec![],
        inventory: inventory(&[]),
        progression,
        presentation: PresentationSets { selectable: vec![], permanent: vec![], temporary: vec![] },
    }
}

#[test]
fn find_free_slot_returns_the_lowest() {
    assert_eq!(find_free_slot(&slots(&[4, 0, 0])), Some(1));
    assert_eq!(find_free_slot(&slots(&[0])), Some(0));
}

#[test]
fn find_free_slot_in_a_full_or_empty_partition() {
    assert_eq!(find_free_slot(&slots(&[4, 5])), None);
    assert_eq!(find_free_slot(&slots(&[])), None);
}

#[test]
fn inventory_put_writes_one_slot_of_one_partition() {
    let mut inv = inventory(&[0, 0]);
    inv.put(ItemType::Gem, 0, 12);
    assert_eq!(inv.gems, slots(&[12]));
    assert_eq!(inv.accessories, slots(&[0, 0]));
    assert_eq!(inv.slots(ItemType::Gem), &slots(&[12]));
    assert_eq!(inv.slots(ItemType::Extra), &slots(&[0]));
}

#[test]
fn copy_occupied_slots_is_sparse() {
    let mut dst = vec![Some(1u16), Some(2), None, None];
    copy_occupied_slots(&mut dst, &vec![None, Some(20), Some(30), None]);
    assert_eq!(dst, vec![Some(1), Some(20), Some(30), None]);
}

#[test]
fn copy_occupied_slots_ignores_positions_the_destination_lacks() {
    let mut dst = vec![Some(1u8)];
    copy_occupied_slots(&mut dst, &vec![None, Some(20)]);
    assert_eq!(dst, vec![Some(1)]);
    let mut longer = vec![None, Some(2u8), Some(3)];
    copy_occupied_slots(&mut longer, &vec![Some(9)]);
    assert_eq!(longer, vec![Some(9), Some(2), Some(3)]);
}

#[test]
fn equip_accessories_binds_to_new_items() {
    let mut inv = inventory(&[0, 5, 0]);
    let mut dst = vec![worn(5, 1), None, None];
    let src = vec![worn(30, 7), None, worn(31, 2)];
    assert_eq!(equip_accessories(&mut dst, &src, &mut inv), Ok(()));
    assert_eq!(dst, vec![worn(30, 0), None, worn(31, 2)]);
    assert_eq!(inv.accessories, slots(&[30, 5, 31]));
}

#[test]
fn equip_accessories_fails_at_the_first_item_without_room() {
    let mut inv = inventory(&[0, 5]);
    let mut dst = vec![None, None, None];
    let src = vec![worn(30, 0), worn(31, 1), worn(32, 2)];
    assert_eq!(
        equip_accessories(&mut dst, &src, &mut inv),
        Err(MergeError::NoFreeInventorySlot { item_type: ItemType::Accessory })
    );
}

#[test]
fn transplant_loadout_overwrites_progress_and_copies_sparsely() {
    let mut inv = inventory(&[0, 0]);
    let mut dst = loadout(5, vec![Some(1), Some(2)], vec![None, worn(9, 4)]);
    let src = loadout(39, vec![None, Some(8)], vec![worn(70, 0), None]);
    assert_eq!(transplant_loadout(&mut dst, &src, &mut inv), Ok(()));
    assert_eq!(dst.points, 39);
    assert_eq!(dst.rank, 19);
    assert_eq!(dst.unlock_points, 4);
    assert_eq!(dst.arts, vec![Some(1), Some(8)]);
    assert_eq!(dst.skills, vec![None, Some(39)]);
    assert_eq!(dst.gems, vec![Some(1), None]);
    assert_eq!(dst.accessories, vec![worn(70, 0), worn(9, 4)]);
    assert_eq!(inv.accessories, slots(&[70, 0]));
}

#[test]
fn copy_flags_copies_every_flag() {
    let src = Character {
        level: 9,
        exp: 9,
        flags: vec![true, false, true],
        selected_class: 1,
        loadouts: vec![],
    };
    let mut dst = Character {
        level: 1,
        exp: 2,
        flags: vec![false, true, false],
        selected_class: 0,
        loadouts: vec![],
    };
    copy_flags(&mut dst, &src);
    assert_eq!(dst.flags, vec![true, false, true]);
    assert_eq!((dst.level, dst.exp, dst.selected_class), (1, 2, 0));
    assert!(dst.is_flag_set(0));
    dst.set_flag(0, false);
    assert_eq!(dst.flags, vec![false, false, true]);
}

#[test]
fn transplant_takes_the_class_and_its_loadout_only() {
    let mut inv = inventory(&[0]);
    let src = Character {
        level: 50,
        exp: 500,
        flags: vec![true],
        selected_class: 1,
        loadouts: vec![loadout(1, vec![Some(1)], vec![None]), loadout(2, vec![Some(2)], vec![worn(6, 0)])],
    };
    let mut dst = Character {
        level: 3,
        exp: 30,
        flags: vec![false],
        selected_class: 0,
        loadouts: vec![loadout(7, vec![Some(7)], vec![None]), loadout(8, vec![None], vec![None])],
    };
    assert_eq!(transplant(&mut dst, &src, 1, &mut inv), Ok(()));
    assert_eq!(dst.selected_class, 1);
    assert_eq!((dst.level, dst.exp), (3, 30));
    assert_eq!(dst.flags, vec![false]);
    assert_eq!(dst.loadouts[0], loadout(7, vec![Some(7)], vec![None]));
    assert_eq!(dst.loadouts[1], loadout(2, vec![Some(2)], vec![worn(6, 0)]));
    assert_eq!(inv.accessories, slots(&[6]));
}

#[test]
fn learned_nodes_are_counted_from_one() {
    let mut r = ProgressionRecord { character_id: 1, unlocked_tiers: 0, learned: 0 };
    r.set_learned(1, true);
    assert_eq!(r.learned, 1);
    r.set_learned(NODE_COUNT, true);
    assert_eq!(r.learned, 0x8000_0000_0000_0001);
    assert!(r.is_learned(1) && r.is_learned(64) && !r.is_learned(33));
    r.set_learned(1, false);
    assert_eq!(r.learned, 0x8000_0000_0000_0000);
    r.set_learned(33, true);
    assert_eq!(r.learned, 0x8000_0001_0000_0000);
}

#[test]
fn copy_progress_keeps_the_owner() {
    let mut dst = ProgressionRecord { character_id: 4, unlocked_tiers: 1, learned: 0xf0f0 };
    let src = ProgressionRecord { character_id: 9, unlocked_tiers: 6, learned: 0xffff_0000_ffff_0001 };
    copy_progress(&mut dst, &src);
    assert_eq!(dst, ProgressionRecord { character_id: 4, unlocked_tiers: 6, learned: 0xffff_0000_ffff_0001 });
}

#[test]
fn find_record_takes_the_first_match() {
    let records = vec![
        ProgressionRecord { character_id: 3, unlocked_tiers: 0, learned: 0 },
        ProgressionRecord { character_id: 1, unlocked_tiers: 1, learned: 0 },
        ProgressionRecord { character_id: 1, unlocked_tiers: 2, learned: 0 },
    ];
    assert_eq!(find_record(&records, 1), Some(1));
    assert_eq!(find_record(&records, 3), Some(0));
    assert_eq!(find_record(&records, 2), None);
}

#[test]
fn copy_progression_updates_the_matching_record() {
    let src = record_with(vec![
        ProgressionRecord { character_id: 2, unlocked_tiers: 9, learned: 0x99 },
        ProgressionRecord { character_id: 1, unlocked_tiers: 4, learned: 0x41 },
    ]);
    let mut dst = record_with(vec![
        ProgressionRecord { character_id: 1, unlocked_tiers: 0, learned: 0x02 },
        ProgressionRecord { character_id: 2, unlocked_tiers: 0, learned: 0 },
    ]);
    assert_eq!(copy_progression(&mut dst, &src, 1), Ok(()));
    assert_eq!(
        dst.progression,
        vec![
            ProgressionRecord { character_id: 1, unlocked_tiers: 4, learned: 0x41 },
            ProgressionRecord { character_id: 2, unlocked_tiers: 0, learned: 0 },
        ]
    );
}

#[test]
fn copy_progression_without_record_changes_nothing() {
    let src = record_with(vec![ProgressionRecord { character_id: 1, unlocked_tiers: 4, learned: 0x41 }]);
    let mut dst = record_with(vec![ProgressionRecord { character_id: 2, unlocked_tiers: 0, learned: 0 }]);
    let before = dst.clone();
    assert_eq!(copy_progression(&mut dst, &src, 1), Err(MergeError::MissingProgressionRecord { character_id: 1 }));
    assert_eq!(copy_progression(&mut dst, &src, 2), Err(MergeError::MissingProgressionRecord { character_id: 2 }));
    assert_eq!(dst, before);
}

#[test]
fn copy_presentation_copies_three_bits_of_one_slot() {
    let src = PresentationSets {
        selectable: vec![true, true],
        permanent: vec![false, true],
        temporary: vec![true, false],
    };
    let mut dst = PresentationSets {
        selectable: vec![false, false],
        permanent: vec![true, false],
        temporary: vec![false, true],
    };
    copy_presentation(&mut dst, &src, 1);
    assert_eq!(dst.selectable, vec![false, true]);
    assert_eq!(dst.permanent, vec![true, true]);
    assert_eq!(dst.temporary, vec![false, false]);
}

#[test]
fn receivable_needs_the_same_flags_and_slots() {
    let src = Character {
        level: 1,
        exp: 1,
        flags: vec![true, false],
        selected_class: 1,
        loadouts: vec![loadout(1, vec![None], vec![None]), loadout(2, vec![None, None], vec![None])],
    };
    let mut dst = src.clone();
    dst.selected_class = 0;
    assert!(save_merge::record::is_receivable(&dst, &src));
    dst.loadouts[0].arts.clear();
    assert!(save_merge::record::is_receivable(&dst, &src));
    dst.loadouts[1].arts.pop();
    assert!(!save_merge::record::is_receivable(&dst, &src));
    let mut fewer_flags = src.clone();
    fewer_flags.flags.pop();
    assert!(!save_merge::record::is_receivable(&fewer_flags, &src));
    let mut fewer_classes = src.clone();
    fewer_classes.loadouts.pop();
    assert!(!save_merge::record::is_receivable(&fewer_classes, &src));
}

#[test]
fn presentation_bits_must_be_in_all_three_sets() {
    let sets = PresentationSets { selectable: vec![true, true], permanent: vec![false, true], temporary: vec![true] };
    assert!(save_merge::record::has_presentation_bits(&sets, 0));
    assert!(!save_merge::record::has_presentation_bits(&sets, 1));
    assert!(!save_merge::record::has_presentation_bits(&sets, 2));
}
