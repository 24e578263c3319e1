use save_merge::error::MergeError;
use save_merge::inventory::{allocate, Inventory, InventorySlot, InventorySlotRef, ItemType};

fn slots(ids: &[u16]) -> Vec<InventorySlot> {
    ids.iter().map(|id| InventorySlot { item_id: *id }).collect()
}

fn inventory_with_accessories(ids: &[u16]) -> Inventory {
    Inventory {
        cylinders: slots(&[]),
        gems: slots(&[0, 0]),
        collectibles: slots(&[]),
        collectopedia: slots(&[]),
        infos: slots(&[]),
        accessories: slots(ids),
        key_items: slots(&[]),
        exchange: slots(&[]),
        extra: slots(&[]),
    }
}

#[test]
fn allocate_takes_the_lowest_empty_slot() {
    let mut inv = inventory_with_accessories(&[7, 0, 9, 0]);
    let got = allocate(&mut inv, ItemType::Accessory, 42);
    assert_eq!(got, Ok(InventorySlotRef { item_type: ItemType::Accessory, index: 1 }));
    assert_eq!(inv.accessories, slots(&[7, 42, 9, 0]));
    assert_eq!(inv.gems, slots(&[0, 0]));
}

#[test]
fn allocate_fails_when_every_slot_is_taken() {
    let mut inv = inventory_with_accessories(&[7, 8]);
    let got = allocate(&mut inv, ItemType::Accessory, 42);
    assert_eq!(got, Err(MergeError::NoFreeInventorySlot { item_type: ItemType::Accessory }));
    assert_eq!(inv.accessories, slots(&[7, 8]));
}
