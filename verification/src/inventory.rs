//! The item inventory and its first-fit slot allocator.

use vstd::prelude::*;
use crate::error::MergeError;

verus! {

/// The partitions of the inventory.
#[derive(Clone, Copy, PartialEq, Eq, Structural, Debug)]
pub enum ItemType {
    Cylinder,
    Gem,
    Collection,
    Collectopedia,
    Info,
    Accessory,
    Precious,
    Exchange,
    Extra,
}

/// One slot of the inventory. Item identity 0 marks the slot as empty.
#[derive(Clone, Copy, PartialEq, Eq, Structural, Debug)]
pub struct InventorySlot {
    pub item_id: u16,
}

/// A non-owning reference to one slot of the inventory.
#[derive(Clone, Copy, PartialEq, Eq, Structural, Debug)]
pub struct InventorySlotRef {
    pub item_type: ItemType,
    pub index: usize,
}

/// The inventory of one save record, partitioned by item type.
#[derive(Clone, PartialEq, Eq, Debug)]
pub struct Inventory {
    pub cylinders: Vec<InventorySlot>,
    pub gems: Vec<InventorySlot>,
    pub collectibles: Vec<InventorySlot>,
    pub collectopedia: Vec<InventorySlot>,
    pub infos: Vec<InventorySlot>,
    pub accessories: Vec<InventorySlot>,
    pub key_items: Vec<InventorySlot>,
    pub exchange: Vec<InventorySlot>,
    pub extra: Vec<InventorySlot>,
}

/// The mathematical value of an [`Inventory`].
pub struct InventoryView {
    pub cylinders: Seq<InventorySlot>,
    pub gems: Seq<InventorySlot>,
    pub collectibles: Seq<InventorySlot>,
    pub collectopedia: Seq<InventorySlot>,
    pub infos: Seq<InventorySlot>,
    pub accessories: Seq<InventorySlot>,
    pub key_items: Seq<InventorySlot>,
    pub exchange: Seq<InventorySlot>,
    pub extra: Seq<InventorySlot>,
}

impl InventoryView {
    /// The slots of one partition.
    pub open spec fn slots(self, item_type: ItemType) -> Seq<InventorySlot> {
        match item_type {
            ItemType::Cylinder => self.cylinders,
            ItemType::Gem => self.gems,
            ItemType::Collection => self.collectibles,
            ItemType::Collectopedia => self.collectopedia,
            ItemType::Info => self.infos,
            ItemType::Accessory => self.accessories,
            ItemType::Precious => self.key_items,
            ItemType::Exchange => self.exchange,
            ItemType::Extra => self.extra,
        }
    }

    /// This inventory with one partition replaced.
    pub open spec fn with_slots(self, item_type: ItemType, slots: Seq<InventorySlot>) -> InventoryView {
        match item_type {
            ItemType::Cylinder => InventoryView { cylinders: slots, ..self },
            ItemType::Gem => InventoryView { gems: slots, ..self },
            ItemType::Collection => InventoryView { collectibles: slots, ..self },
            ItemType::Collectopedia => InventoryView { collectopedia: slots, ..self },
            ItemType::Info => InventoryView { infos: slots, ..self },
            ItemType::Accessory => InventoryView { accessories: slots, ..self },
            ItemType::Precious => InventoryView { key_items: slots, ..self },
            ItemType::Exchange => InventoryView { exchange: slots, ..self },
            ItemType::Extra => InventoryView { extra: slots, ..self },
        }
    }
}

impl View for Inventory {
    type V = InventoryView;

    open spec fn view(&self) -> InventoryView {
        InventoryView {
            cylinders: self.cylinders@,
            gems: self.gems@,
            collectibles: self.collectibles@,
            collectopedia: self.collectopedia@,
            infos: self.infos@,
            accessories: self.accessories@,
            key_items: self.key_items@,
            exchange: self.exchange@,
            extra: self.extra@,
        }
    }
}

/// Whether `index` is the lowest position of `slots` that holds no item.
pub open spec fn is_first_empty(slots: Seq<InventorySlot>, index: int) -> bool {
    &&& 0 <= index < slots.len()
    &&& slots[index].item_id == 0
    &&& forall|j: int| 0 <= j < index ==> (#[trigger] slots[j]).item_id != 0
}

/// Whether no position of `slots` is empty.
pub open spec fn is_full(slots: Seq<InventorySlot>) -> bool {
    forall|j: int| 0 <= j < slots.len() ==> (#[trigger] slots[j]).item_id != 0
}

/// The lowest empty position of `slots`, if there is one.
pub open spec fn first_empty(slots: Seq<InventorySlot>) -> Option<int> {
    if is_full(slots) {
        None
    } else {
        Some(choose|i: int| is_first_empty(slots, i))
    }
}

/// Scans `slots` in ascending order for the first empty one.
pub fn find_free_slot(slots: &Vec<InventorySlot>) -> (found: Option<usize>)
    ensures
        match found {
            Some(i) => is_first_empty(slots@, i as int) && first_empty(slots@) == Some(i as int),
            None => is_full(slots@) && first_empty(slots@) is None,
        },
{
    let mut i: usize = 0;
    while i < slots.len()
        invariant
            i <= slots.len(),
            forall|j: int| 0 <= j < i ==> (#[trigger] slots@[j]).item_id != 0,
        decreases slots.len() - i,
    {
        if slots[i].item_id == 0 {
            proof {
                assert(is_first_empty(slots@, i as int));
                lemma_first_empty(slots@);
            }
            return Some(i);
        }
        i += 1;
    }
    proof {
        assert(is_full(slots@));
        lemma_first_empty(slots@);
    }
    None
}

impl Inventory {
    /// The slots of one partition.
    pub fn slots(&self, item_type: ItemType) -> (slots: &Vec<InventorySlot>)
        ensures
            slots@ == self@.slots(item_type),
    {
        match item_type {
            ItemType::Cylinder => &self.cylinders,
            ItemType::Gem => &self.gems,
            ItemType::Collection => &self.collectibles,
            ItemType::Collectopedia => &self.collectopedia,
            ItemType::Info => &self.infos,
            ItemType::Accessory => &self.accessories,
            ItemType::Precious => &self.key_items,
            ItemType::Exchange => &self.exchange,
            ItemType::Extra => &self.extra,
        }
    }

    /// Writes `item_id` into the slot at `index` of one partition.
    pub fn put(&mut self, item_type: ItemType, index: usize, item_id: u16)
        requires
            index < old(self)@.slots(item_type).len(),
        ensures
            final(self)@ == old(self)@.with_slots(
                item_type,
                old(self)@.slots(item_type).update(index as int, InventorySlot { item_id }),
            ),
    {
        let slot = InventorySlot { item_id };
        match item_type {
            ItemType::Cylinder => { self.cylinders[index] = slot; },
            ItemType::Gem => { self.gems[index] = slot; },
            ItemType::Collection => { self.collectibles[index] = slot; },
            ItemType::Collectopedia => { self.collectopedia[index] = slot; },
            ItemType::Info => { self.infos[index] = slot; },
            ItemType::Accessory => { self.accessories[index] = slot; },
            ItemType::Precious => { self.key_items[index] = slot; },
            ItemType::Exchange => { self.exchange[index] = slot; },
            ItemType::Extra => { self.extra[index] = slot; },
        }
    }
}

/// What a first-fit allocation of `item_id` does to `slots`: the lowest empty
/// position and the slots with the item placed there, or `None` when no
/// position is empty.
pub open spec fn place_item(slots: Seq<InventorySlot>, item_id: u16) -> Option<(int, Seq<InventorySlot>)> {
    match first_empty(slots) {
        None => None,
        Some(i) => Some((i, slots.update(i, InventorySlot { item_id }))),
    }
}

/// What [`allocate`] returns and leaves behind, as a function of the
/// inventory before the call.
pub open spec fn allocate_spec(inventory: InventoryView, item_type: ItemType, item_id: u16) -> Result<
    (InventorySlotRef, InventoryView),
    MergeError,
> {
    match place_item(inventory.slots(item_type), item_id) {
        None => Err(MergeError::NoFreeInventorySlot { item_type }),
        Some((i, slots)) => Ok(
            (InventorySlotRef { item_type, index: i as usize }, inventory.with_slots(item_type, slots)),
        ),
    }
}

/// Finds room for a new item of the given type and places it there.
///
/// The slots of the type are scanned in ascending order for the first one
/// that holds no item. The item is placed in that slot and a reference to it
/// is returned; all other slots stay as they were. When every slot of the
/// type is occupied the inventory is left unchanged and the call fails.
pub fn allocate(inventory: &mut Inventory, item_type: ItemType, item_id: u16) -> (result: Result<
    InventorySlotRef,
    MergeError,
>)
    ensures
        match result {
            Ok(slot) => {
                &&& slot.item_type == item_type
                &&& is_first_empty(old(inventory)@.slots(item_type), slot.index as int)
                &&& final(inventory)@ == old(inventory)@.with_slots(
                    item_type,
                    old(inventory)@.slots(item_type).update(slot.index as int, InventorySlot { item_id }),
                )
            },
            Err(e) => {
                &&& e == MergeError::NoFreeInventorySlot { item_type }
                &&& is_full(old(inventory)@.slots(item_type))
                &&& final(inventory)@ == old(inventory)@
            },
        },
        match allocate_spec(old(inventory)@, item_type, item_id) {
            Ok((slot, after)) => result == Ok::<InventorySlotRef, MergeError>(slot) && final(inventory)@ == after,
            Err(e) => result == Err::<InventorySlotRef, MergeError>(e),
        },
{
    match find_free_slot(inventory.slots(item_type)) {
        None => Err(MergeError::NoFreeInventorySlot { item_type }),
        Some(index) => {
            inventory.put(item_type, index, item_id);
            Ok(InventorySlotRef { item_type, index })
        },
    }
}

/// There is at most one lowest empty position.
pub proof fn lemma_first_empty_unique(slots: Seq<InventorySlot>, i: int, j: int)
    requires
        is_first_empty(slots, i),
        is_first_empty(slots, j),
    ensures
        i == j,
{
    if i < j {
        assert(slots[i].item_id != 0);
    } else if j < i {
        assert(slots[j].item_id != 0);
    }
}

/// `first_empty` is `Some(i)` exactly for the lowest empty position `i`, and
/// `None` exactly when every position is occupied.
pub proof fn lemma_first_empty(slots: Seq<InventorySlot>)
    ensures
        is_full(slots) <==> first_empty(slots) is None,
        forall|i: int| is_first_empty(slots, i) <==> first_empty(slots) == Some(i),
{
    if !is_full(slots) {
        let k = choose|k: int| 0 <= k < slots.len() && slots[k].item_id == 0;
        lemma_lowest_empty_exists(slots, k);
        let w = choose|i: int| is_first_empty(slots, i);
        assert forall|i: int| is_first_empty(slots, i) implies first_empty(slots) == Some(i) by {
            lemma_first_empty_unique(slots, i, w);
        }
    } else {
        assert forall|i: int| !is_first_empty(slots, i) by {
            if 0 <= i < slots.len() {
                assert(slots[i].item_id != 0);
            }
        }
    }
}

proof fn lemma_lowest_empty_exists(slots: Seq<InventorySlot>, k: int)
    requires
        0 <= k < slots.len(),
        slots[k].item_id == 0,
    ensures
        exists|i: int| is_first_empty(slots, i),
    decreases k,
{
    if forall|j: int| 0 <= j < k ==> (#[trigger] slots[j]).item_id != 0 {
        assert(is_first_empty(slots, k));
    } else {
        let j = choose|j: int| 0 <= j < k && (#[trigger] slots[j]).item_id == 0;
        lemma_lowest_empty_exists(slots, j);
    }
}

/// First-fit placement of a list of items, one after the other: the positions
/// taken, in the order of the items, and the slots with all items placed, or
/// `None` when an item finds no empty position.
pub open spec fn place_all(slots: Seq<InventorySlot>, items: Seq<u16>) -> Option<(Seq<int>, Seq<InventorySlot>)>
    decreases items.len(),
{
    if items.len() == 0 {
        Some((Seq::empty(), slots))
    } else {
        match place_all(slots, items.drop_last()) {
            None => None,
            Some((taken, filled)) => match place_item(filled, items.last()) {
                None => None,
                Some((i, after)) => Some((taken.push(i), after)),
            },
        }
    }
}

/// Whether every item of the list has an identity other than 0, the mark of
/// an empty slot.
pub open spec fn all_named(items: Seq<u16>) -> bool {
    forall|k: int| 0 <= k < items.len() ==> #[trigger] items[k] != 0
}

/// Allocations never share a slot.
///
/// When a list of items is placed one after the other, each item takes a
/// position that was empty before the first placement and holds the item
/// after the last. The positions taken are strictly ascending, so no two
/// placements return the same position. The number of slots stays the same
/// and every position that is not taken keeps its content.
pub proof fn lemma_placements_are_distinct(slots: Seq<InventorySlot>, items: Seq<u16>)
    requires
        all_named(items),
    ensures
        place_all(slots, items) matches Some((taken, filled)) ==> {
            &&& taken.len() == items.len()
            &&& filled.len() == slots.len()
            &&& forall|k: int|
                0 <= k < taken.len() ==> {
                    &&& 0 <= #[trigger] taken[k] < slots.len()
                    &&& slots[taken[k]].item_id == 0
                    &&& filled[taken[k]].item_id == items[k]
                }
            &&& forall|j: int, k: int| 0 <= j < k < taken.len() ==> #[trigger] taken[j] < #[trigger] taken[k]
            &&& forall|i: int|
                0 <= i < slots.len() && (forall|k: int| 0 <= k < taken.len() ==> #[trigger] taken[k] != i)
                    ==> #[trigger] filled[i] == slots[i]
        },
{
    lemma_placements(slots, items);
}

proof fn lemma_placements(slots: Seq<InventorySlot>, items: Seq<u16>)
    requires
        all_named(items),
    ensures
        place_all(slots, items) matches Some((taken, filled)) ==> {
            &&& taken.len() == items.len()
            &&& filled.len() == slots.len()
            &&& forall|k: int|
                0 <= k < taken.len() ==> {
                    &&& 0 <= #[trigger] taken[k] < slots.len()
                    &&& slots[taken[k]].item_id == 0
                    &&& filled[taken[k]].item_id == items[k]
                }
            &&& forall|j: int, k: int| 0 <= j < k < taken.len() ==> #[trigger] taken[j] < #[trigger] taken[k]
            &&& forall|i: int|
                0 <= i < slots.len() && (forall|k: int| 0 <= k < taken.len() ==> #[trigger] taken[k] != i)
                    ==> #[trigger] filled[i] == slots[i]
            &&& forall|k: int, i: int|
                0 <= k < taken.len() && 0 <= i <= #[trigger] taken[k] ==> (#[trigger] filled[i]).item_id != 0
        },
    decreases items.len(),
{
    if items.len() > 0 {
        let earlier = items.drop_last();
        assert(all_named(earlier)) by {
            assert forall|k: int| 0 <= k < earlier.len() implies #[trigger] earlier[k] != 0 by {
                assert(items[k] != 0);
            }
        }
        lemma_placements(slots, earlier);
        if let Some((taken, filled)) = place_all(slots, earlier) {
            lemma_first_empty(filled);
            if let Some((i, after)) = place_item(filled, items.last()) {
                assert(is_first_empty(filled, i));
                assert(items[items.len() - 1] != 0);
                let all = taken.push(i);
                assert forall|k: int| 0 <= k < taken.len() implies taken[k] < i by {
                    assert(filled[taken[k]].item_id != 0);
                    if i < taken[k] {
                        assert(filled[i].item_id != 0);
                    }
                }
                assert(forall|k: int| 0 <= k < taken.len() ==> all[k] == taken[k]);
                assert(slots[i] == filled[i]) by {
                    assert(forall|k: int| 0 <= k < taken.len() ==> #[trigger] taken[k] != i);
                }
                assert forall|k: int| 0 <= k < all.len() implies ({
                    &&& 0 <= #[trigger] all[k] < slots.len()
                    &&& slots[all[k]].item_id == 0
                    &&& after[all[k]].item_id == items[k]
                }) by {
                    if k < taken.len() {
                        assert(all[k] == taken[k]);
                        assert(earlier[k] == items[k]);
                    }
                }
                assert forall|j: int, k: int| 0 <= j < k < all.len() implies #[trigger] all[j]
                    < #[trigger] all[k] by {
                    if k < taken.len() {
                        assert(taken[j] < taken[k]);
                    } else {
                        assert(taken[j] < i);
                    }
                }
                assert forall|idx: int|
                    0 <= idx < slots.len() && (forall|k: int| 0 <= k < all.len() ==> #[trigger] all[k] != idx)
                    implies #[trigger] after[idx] == slots[idx] by {
                    assert(all[taken.len() as int] != idx);
                    assert forall|k: int| 0 <= k < taken.len() implies #[trigger] taken[k] != idx by {
                        assert(all[k] != idx);
                    }
                    assert(filled[idx] == slots[idx]);
                }
                assert forall|k: int, idx: int| 0 <= k < all.len() && 0 <= idx <= #[trigger] all[k] implies (
                #[trigger] after[idx]).item_id != 0 by {
                    if idx < i {
                        assert(filled[idx].item_id != 0);
                    }
                }
            }
        }
    }
}

/// Placing one list of items and then another is placing the two lists as
/// one.
pub proof fn lemma_place_all_in_turn(slots: Seq<InventorySlot>, first: Seq<u16>, second: Seq<u16>)
    ensures
        place_all(slots, first + second) == match place_all(slots, first) {
            None => None::<(Seq<int>, Seq<InventorySlot>)>,
            Some((taken, filled)) => match place_all(filled, second) {
                None => None,
                Some((more, after)) => Some((taken + more, after)),
            },
        },
    decreases second.len(),
{
    if second.len() == 0 {
        assert(first + second =~= first);
        if let Some((taken, filled)) = place_all(slots, first) {
            assert(taken + Seq::<int>::empty() =~= taken);
        }
    } else {
        let both = first + second;
        assert(both.drop_last() =~= first + second.drop_last());
        assert(both.last() == second.last());
        lemma_place_all_in_turn(slots, first, second.drop_last());
        if let Some((taken, filled)) = place_all(slots, first) {
            if let Some((more, mid)) = place_all(filled, second.drop_last()) {
                if let Some((i, after)) = place_item(mid, second.last()) {
                    assert((taken + more).push(i) =~= taken + more.push(i));
                }
            }
        }
    }
}

/// Placing at least one item succeeds only where a slot is empty.
pub proof fn lemma_placement_needs_room(slots: Seq<InventorySlot>, items: Seq<u16>)
    requires
        items.len() > 0,
        is_full(slots),
    ensures
        place_all(slots, items) is None,
    decreases items.len(),
{
    lemma_first_empty(slots);
    if items.len() > 1 {
        lemma_placement_needs_room(slots, items.drop_last());
    } else {
        let none = items.drop_last();
        assert(place_all(slots, none) == Some((Seq::<int>::empty(), slots)));
    }
}

} // verus!
