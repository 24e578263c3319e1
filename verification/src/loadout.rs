//! A character's build for one class, and how it is transplanted.

use vstd::prelude::*;
use crate::error::MergeError;
use crate::inventory::{
    all_named, allocate, allocate_spec, first_empty, is_first_empty, is_full, lemma_first_empty, place_all,
    Inventory, InventorySlot, InventorySlotRef, InventoryView, ItemType,
};

verus! {

/// An accessory worn in a loadout: the item's identity and the inventory slot
/// that holds this instance of it.
#[derive(Clone, Copy, PartialEq, Eq, Structural, Debug)]
pub struct EquippedAccessory {
    pub item_id: u16,
    pub slot: InventorySlotRef,
}

/// The contents of the accessory slots of a loadout.
pub type AccessorySlots = Seq<Option<EquippedAccessory>>;

/// A character's build for one class: the class progress and the equipped
/// arts, skills, gems and accessories. Each slot is empty or names a content
/// identity; the number of slots of each kind is fixed by the save format.
#[derive(Clone, PartialEq, Eq, Debug)]
pub struct Loadout {
    pub points: u32,
    pub rank: u8,
    pub unlock_points: u16,
    pub arts: Vec<Option<u16>>,
    pub skills: Vec<Option<u16>>,
    pub gems: Vec<Option<u8>>,
    pub accessories: Vec<Option<EquippedAccessory>>,
}

/// The mathematical value of a [`Loadout`].
pub struct LoadoutView {
    pub points: u32,
    pub rank: u8,
    pub unlock_points: u16,
    pub arts: Seq<Option<u16>>,
    pub skills: Seq<Option<u16>>,
    pub gems: Seq<Option<u8>>,
    pub accessories: AccessorySlots,
}

impl View for Loadout {
    type V = LoadoutView;

    open spec fn view(&self) -> LoadoutView {
        LoadoutView {
            points: self.points,
            rank: self.rank,
            unlock_points: self.unlock_points,
            arts: self.arts@,
            skills: self.skills@,
            gems: self.gems@,
            accessories: self.accessories@,
        }
    }
}

impl LoadoutView {
    /// Whether two loadouts have the same number of slots of each kind.
    pub open spec fn same_capacity(self, other: LoadoutView) -> bool {
        &&& self.arts.len() == other.arts.len()
        &&& self.skills.len() == other.skills.len()
        &&& self.gems.len() == other.gems.len()
        &&& self.accessories.len() == other.accessories.len()
    }
}

/// The one-directional, sparse copy of a row of slots: a position that is
/// occupied in `src` takes the source's content, every other position keeps
/// what `dst` held.
pub open spec fn sparse_copy<T>(dst: Seq<Option<T>>, src: Seq<Option<T>>) -> Seq<Option<T>> {
    Seq::new(
        dst.len(),
        |p: int|
            if p < src.len() && src[p] is Some {
                src[p]
            } else {
                dst[p]
            },
    )
}

/// Copies the occupied slots of `src` over the slots of `dst` at the same
/// positions and leaves the other slots of `dst` as they are.
pub fn copy_occupied_slots<T: Copy>(dst: &mut Vec<Option<T>>, src: &Vec<Option<T>>)
    ensures
        final(dst)@ == sparse_copy(old(dst)@, src@),
{
    let mut p: usize = 0;
    while p < dst.len() && p < src.len()
        invariant
            dst@.len() == old(dst)@.len(),
            p <= dst@.len(),
            p <= src@.len(),
            forall|k: int| 0 <= k < p ==> dst@[k] == sparse_copy(old(dst)@, src@)[k],
            forall|k: int| p <= k < dst@.len() ==> dst@[k] == old(dst)@[k],
        decreases dst@.len() - p,
    {
        match src[p] {
            Some(content) => {
                dst[p] = Some(content);
            },
            None => {},
        }
        p += 1;
    }
    assert(dst@ =~= sparse_copy(old(dst)@, src@));
}

/// What equipping one source slot does: an empty source slot changes nothing;
/// an occupied one takes the first empty accessory slot of the inventory for
/// its item and binds position `p` to it.
pub open spec fn equip_slot(
    worn: AccessorySlots,
    inventory: InventoryView,
    p: int,
    wanted: Option<EquippedAccessory>,
) -> Result<(AccessorySlots, InventoryView), MergeError> {
    match wanted {
        None => Ok((worn, inventory)),
        Some(accessory) => match allocate_spec(inventory, ItemType::Accessory, accessory.item_id) {
            Err(e) => Err(e),
            Ok((slot, after)) => Ok(
                (worn.update(p, Some(EquippedAccessory { item_id: accessory.item_id, slot })), after),
            ),
        },
    }
}

/// What equipping the first `n` source slots, in ascending order, does to the
/// destination's accessory slots and inventory, or the first failure.
pub open spec fn equip_prefix(
    dst: AccessorySlots,
    src: AccessorySlots,
    inventory: InventoryView,
    n: nat,
) -> Result<(AccessorySlots, InventoryView), MergeError>
    decreases n,
{
    if n == 0 {
        Ok((dst, inventory))
    } else {
        match equip_prefix(dst, src, inventory, (n - 1) as nat) {
            Err(e) => Err(e),
            Ok((worn, stock)) => equip_slot(worn, stock, n - 1, src[n - 1]),
        }
    }
}

/// What equipping all source slots does.
pub open spec fn equip_all(dst: AccessorySlots, src: AccessorySlots, inventory: InventoryView) -> Result<
    (AccessorySlots, InventoryView),
    MergeError,
> {
    equip_prefix(dst, src, inventory, src.len())
}

/// Creates the accessories that `src` wears in the destination inventory and
/// binds the destination's slots to them.
///
/// The source slots are visited in ascending order. For an occupied one a new
/// item with the same identity is allocated in the accessory partition of the
/// inventory, and the destination slot at the same position is bound to it.
/// Empty source slots leave the destination slot untouched. The first
/// allocation that finds no room ends the call with its error.
pub fn equip_accessories(
    dst: &mut Vec<Option<EquippedAccessory>>,
    src: &Vec<Option<EquippedAccessory>>,
    inventory: &mut Inventory,
) -> (result: Result<(), MergeError>)
    requires
        src@.len() <= old(dst)@.len(),
    ensures
        match equip_all(old(dst)@, src@, old(inventory)@) {
            Ok((worn, stock)) => result is Ok && final(dst)@ == worn && final(inventory)@ == stock,
            Err(e) => result == Err::<(), MergeError>(e),
        },
{
    let mut p: usize = 0;
    while p < src.len()
        invariant
            p <= src@.len() <= dst@.len(),
            equip_prefix(old(dst)@, src@, old(inventory)@, p as nat) == Ok::<
                (AccessorySlots, InventoryView),
                MergeError,
            >((dst@, inventory@)),
        decreases src@.len() - p,
    {
        match src[p] {
            None => {},
            Some(accessory) => {
                match allocate(inventory, ItemType::Accessory, accessory.item_id) {
                    Err(e) => {
                        proof {
                            lemma_equip_failure_persists(
                                old(dst)@,
                                src@,
                                old(inventory)@,
                                (p + 1) as nat,
                                src@.len(),
                            );
                        }
                        return Err(e);
                    },
                    Ok(slot) => {
                        dst[p] = Some(EquippedAccessory { item_id: accessory.item_id, slot });
                    },
                }
            },
        }
        p += 1;
    }
    Ok(())
}

/// What transplanting a loadout does: the class progress is taken from the
/// source, arts, skills and gems are copied sparsely, and the accessories are
/// equipped from the inventory.
pub open spec fn transplant_loadout_spec(dst: LoadoutView, src: LoadoutView, inventory: InventoryView) -> Result<
    (LoadoutView, InventoryView),
    MergeError,
> {
    match equip_all(dst.accessories, src.accessories, inventory) {
        Err(e) => Err(e),
        Ok((accessories, stock)) => Ok(
            (
                LoadoutView {
                    points: src.points,
                    rank: src.rank,
                    unlock_points: src.unlock_points,
                    arts: sparse_copy(dst.arts, src.arts),
                    skills: sparse_copy(dst.skills, src.skills),
                    gems: sparse_copy(dst.gems, src.gems),
                    accessories,
                },
                stock,
            ),
        ),
    }
}

/// Copies one class's build from `src` into `dst`.
///
/// Points, rank and unlock points are overwritten. Arts, skills and gems are
/// copied slot by slot where the source slot is occupied; content that only
/// the destination has stays. Accessories are created in `inventory` and
/// equipped as [`equip_accessories`] describes.
pub fn transplant_loadout(dst: &mut Loadout, src: &Loadout, inventory: &mut Inventory) -> (result: Result<
    (),
    MergeError,
>)
    requires
        src@.accessories.len() <= old(dst)@.accessories.len(),
    ensures
        match transplant_loadout_spec(old(dst)@, src@, old(inventory)@) {
            Ok((loadout, stock)) => result is Ok && final(dst)@ == loadout && final(inventory)@ == stock,
            Err(e) => result == Err::<(), MergeError>(e),
        },
{
    dst.points = src.points;
    dst.rank = src.rank;
    dst.unlock_points = src.unlock_points;
    copy_occupied_slots(&mut dst.arts, &src.arts);
    copy_occupied_slots(&mut dst.skills, &src.skills);
    copy_occupied_slots(&mut dst.gems, &src.gems);
    equip_accessories(&mut dst.accessories, &src.accessories, inventory)
}

/// Once a prefix has failed, every longer prefix fails in the same way.
pub proof fn lemma_equip_failure_persists(
    dst: AccessorySlots,
    src: AccessorySlots,
    inventory: InventoryView,
    k: nat,
    n: nat,
)
    requires
        k <= n,
        equip_prefix(dst, src, inventory, k) is Err,
    ensures
        equip_prefix(dst, src, inventory, n) == equip_prefix(dst, src, inventory, k),
    decreases n,
{
    if k < n {
        lemma_equip_failure_persists(dst, src, inventory, k, (n - 1) as nat);
    }
}

/// Equipping keeps the number of accessory slots, and every slot that the
/// source leaves empty or that has not been visited yet keeps its content.
pub proof fn lemma_equip_keeps_slots(dst: AccessorySlots, src: AccessorySlots, inventory: InventoryView, n: nat)
    requires
        n <= src.len() <= dst.len(),
    ensures
        equip_prefix(dst, src, inventory, n) matches Ok((worn, stock)) ==> {
            &&& worn.len() == dst.len()
            &&& forall|p: int| n <= p < dst.len() ==> #[trigger] worn[p] == dst[p]
            &&& forall|p: int| 0 <= p < n && src[p] is None ==> #[trigger] worn[p] == dst[p]
        },
    decreases n,
{
    if n > 0 {
        lemma_equip_keeps_slots(dst, src, inventory, (n - 1) as nat);
    }
}

/// What equipping leaves alone and what it changes.
///
/// The loadout keeps its number of accessory slots. A position that the
/// source leaves empty, or that has not been visited yet, keeps its content.
/// A position that the source occupies wears the same item afterwards, bound
/// to an accessory slot of the inventory that was empty before. The inventory
/// changes in its accessory partition only, keeps its size, and no slot that
/// held an item before is touched.
pub proof fn lemma_equip_effect(dst: AccessorySlots, src: AccessorySlots, inventory: InventoryView, n: nat)
    requires
        n <= src.len() <= dst.len(),
        inventory.accessories.len() <= usize::MAX,
    ensures
        equip_prefix(dst, src, inventory, n) matches Ok((worn, stock)) ==> {
            &&& worn.len() == dst.len()
            &&& forall|p: int| n <= p < dst.len() ==> worn[p] == dst[p]
            &&& forall|p: int| 0 <= p < n && src[p] is None ==> worn[p] == dst[p]
            &&& forall|p: int|
                0 <= p < n && src[p] is Some ==> {
                    &&& (#[trigger] worn[p]) matches Some(bound)
                    &&& bound.item_id == src[p]->0.item_id
                    &&& bound.slot.item_type == ItemType::Accessory
                    &&& bound.slot.index < inventory.accessories.len()
                    &&& inventory.accessories[bound.slot.index as int].item_id == 0
                }
            &&& stock == InventoryView { accessories: stock.accessories, ..inventory }
            &&& stock.accessories.len() == inventory.accessories.len()
            &&& forall|k: int|
                0 <= k < inventory.accessories.len() && (#[trigger] inventory.accessories[k]).item_id != 0
                    ==> stock.accessories[k] == inventory.accessories[k]
        },
    decreases n,
{
    if n > 0 {
        let m = (n - 1) as nat;
        lemma_equip_effect(dst, src, inventory, m);
        if let Ok((worn, stock)) = equip_prefix(dst, src, inventory, m) {
            lemma_first_empty(stock.accessories);
            if let Some(i) = first_empty(stock.accessories) {
                assert(is_first_empty(stock.accessories, i));
                if inventory.accessories[i].item_id != 0 {
                    assert(stock.accessories[i] == inventory.accessories[i]);
                }
            }
        }
    }
}

/// Whether every accessory worn in these slots names an item: identity 0
/// stands for the empty inventory slot and cannot be worn.
pub open spec fn names_items(worn: AccessorySlots) -> bool {
    forall|p: int| 0 <= p < worn.len() && worn[p] is Some ==> (#[trigger] worn[p])->0.item_id != 0
}

/// After equipping, every accessory that the source wears has an inventory
/// slot of its own: the slot holds the accessory's item, and no two positions
/// are bound to the same slot.
pub proof fn lemma_equip_bindings(dst: AccessorySlots, src: AccessorySlots, inventory: InventoryView, n: nat)
    requires
        n <= src.len() <= dst.len(),
        inventory.accessories.len() <= usize::MAX,
        names_items(src),
    ensures
        equip_prefix(dst, src, inventory, n) matches Ok((worn, stock)) ==> {
            &&& forall|p: int|
                0 <= p < n && src[p] is Some ==> {
                    &&& (#[trigger] worn[p]) matches Some(bound)
                    &&& bound.slot.index < stock.accessories.len()
                    &&& stock.accessories[bound.slot.index as int].item_id == bound.item_id
                }
            &&& forall|p: int, q: int|
                0 <= p < q < n && src[p] is Some && src[q] is Some ==> (#[trigger] worn[p])->0.slot.index != (
                #[trigger] worn[q])->0.slot.index
        },
    decreases n,
{
    if n > 0 {
        let m = (n - 1) as nat;
        lemma_equip_bindings(dst, src, inventory, m);
        lemma_equip_effect(dst, src, inventory, m);
        lemma_equip_effect(dst, src, inventory, n);
        if let Ok((before, stock)) = equip_prefix(dst, src, inventory, m) {
            if let Ok((worn, after)) = equip_prefix(dst, src, inventory, n) {
                lemma_first_empty(stock.accessories);
                if let Some(accessory) = src[m as int] {
                    let i = first_empty(stock.accessories)->0;
                    assert(is_first_empty(stock.accessories, i));
                    assert(src[m as int]->0.item_id != 0);
                    assert forall|p: int| 0 <= p < n && src[p] is Some implies ({
                        &&& (#[trigger] worn[p]) matches Some(bound)
                        &&& bound.slot.index < after.accessories.len()
                        &&& after.accessories[bound.slot.index as int].item_id == bound.item_id
                    }) by {
                        if p < m {
                            assert(before[p] is Some);
                            assert(src[p]->0.item_id != 0);
                        }
                    }
                    assert forall|p: int, q: int|
                        0 <= p < q < n && src[p] is Some && src[q] is Some implies (#[trigger] worn[p])->0.slot.index
                        != (#[trigger] worn[q])->0.slot.index by {
                        assert(before[p] is Some);
                        assert(src[p]->0.item_id != 0);
                        if q < m {
                            assert(before[q] is Some);
                        }
                    }
                }
            }
        }
    }
}

/// The binding that equipping gives an accessory that names no item: no
/// item is created for identity 0, so the slot that the allocator finds
/// stays empty and is found again by the next allocation.
pub open spec fn unnamed_binding(inventory: InventoryView) -> EquippedAccessory {
    EquippedAccessory {
        item_id: 0,
        slot: InventorySlotRef {
            item_type: ItemType::Accessory,
            index: first_empty(inventory.accessories)->0 as usize,
        },
    }
}

/// Equipping from a source whose accessories name no item leaves the
/// inventory as it is. Positions that the source leaves empty keep their
/// content, and every other position gets the same binding.
pub proof fn lemma_equip_unnamed(dst: AccessorySlots, src: AccessorySlots, inventory: InventoryView, n: nat)
    requires
        n <= src.len() <= dst.len(),
        forall|p: int| 0 <= p < n && src[p] is Some ==> (#[trigger] src[p])->0.item_id == 0,
    ensures
        equip_prefix(dst, src, inventory, n) matches Ok((worn, stock)) ==> {
            &&& stock == inventory
            &&& worn.len() == dst.len()
            &&& forall|p: int| n <= p < dst.len() ==> #[trigger] worn[p] == dst[p]
            &&& forall|p: int| 0 <= p < n && src[p] is None ==> #[trigger] worn[p] == dst[p]
            &&& forall|p: int| 0 <= p < n && src[p] is Some ==> #[trigger] worn[p] == Some(unnamed_binding(inventory))
        },
        (forall|p: int| 0 <= p < n ==> (#[trigger] src[p]) is None) || !is_full(inventory.accessories)
            ==> equip_prefix(dst, src, inventory, n) is Ok,
    decreases n,
{
    if n > 0 {
        let m = (n - 1) as nat;
        lemma_equip_unnamed(dst, src, inventory, m);
        lemma_first_empty(inventory.accessories);
        if let Ok((worn, stock)) = equip_prefix(dst, src, inventory, m) {
            if let Some(accessory) = src[m as int] {
                assert(src[m as int]->0.item_id == 0);
                if let Some(i) = first_empty(inventory.accessories) {
                    assert(is_first_empty(inventory.accessories, i));
                    assert(inventory.accessories.update(i, InventorySlot { item_id: 0 }) =~= inventory.accessories);
                }
            }
        }
    }
}

/// The items of the accessories worn in the first `n` slots, in slot order.
pub open spec fn worn_items(worn: AccessorySlots, n: nat) -> Seq<u16>
    decreases n,
{
    if n == 0 {
        Seq::empty()
    } else {
        let earlier = worn_items(worn, (n - 1) as nat);
        match worn[n - 1] {
            Some(accessory) => earlier.push(accessory.item_id),
            None => earlier,
        }
    }
}

/// Equipping is first-fit placement of the worn items in the accessory
/// partition: it succeeds exactly when the placement does, leaves the
/// inventory that the placement leaves, and fails with `NoFreeInventorySlot`
/// otherwise.
pub proof fn lemma_equip_is_placement(dst: AccessorySlots, src: AccessorySlots, inventory: InventoryView, n: nat)
    requires
        n <= src.len(),
    ensures
        match equip_prefix(dst, src, inventory, n) {
            Ok((worn, stock)) => {
                &&& place_all(inventory.accessories, worn_items(src, n)) matches Some((taken, filled))
                &&& stock == InventoryView { accessories: filled, ..inventory }
            },
            Err(e) => {
                &&& e == MergeError::NoFreeInventorySlot { item_type: ItemType::Accessory }
                &&& place_all(inventory.accessories, worn_items(src, n)) is None
            },
        },
    decreases n,
{
    if n > 0 {
        let m = (n - 1) as nat;
        lemma_equip_is_placement(dst, src, inventory, m);
        if let Some(accessory) = src[m as int] {
            let earlier = worn_items(src, m);
            let items = worn_items(src, n);
            assert(items.drop_last() =~= earlier);
            assert(items.last() == accessory.item_id);
        }
    }
}

/// A source that wears an accessory wants at least one item.
pub proof fn lemma_worn_items_counted(worn: AccessorySlots, n: nat, p: int)
    requires
        0 <= p < n <= worn.len(),
        worn[p] is Some,
    ensures
        worn_items(worn, n).len() > 0,
    decreases n,
{
    if p < n - 1 {
        lemma_worn_items_counted(worn, (n - 1) as nat, p);
    }
}

/// Where every worn accessory names an item, every wanted item is named.
pub proof fn lemma_worn_items_named(worn: AccessorySlots, n: nat)
    requires
        n <= worn.len(),
        names_items(worn),
    ensures
        all_named(worn_items(worn, n)),
    decreases n,
{
    if n > 0 {
        lemma_worn_items_named(worn, (n - 1) as nat);
        if let Some(accessory) = worn[n - 1] {
            assert(worn[n - 1]->0.item_id != 0);
        }
    }
}

} // verus!
