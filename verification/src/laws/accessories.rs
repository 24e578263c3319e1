//! The accessories and the inventory after a merge.

use vstd::prelude::*;
use crate::error::MergeError;
use crate::inventory::{
    all_named, is_full, lemma_place_all_in_turn, lemma_placement_needs_room, lemma_placements_are_distinct,
    place_all, InventorySlot, InventoryView, ItemType,
};
use crate::laws::progress::{lemma_same_owners_same_index, same_owners};
use crate::laws::{lemma_prefix_keeps_mergeable, receiving_build, source_build, wears_at, worn_after};
use crate::loadout::{
    equip_all, lemma_equip_bindings, lemma_equip_effect, lemma_equip_is_placement, lemma_equip_unnamed,
    lemma_worn_items_counted, lemma_worn_items_named, names_items, worn_items, AccessorySlots,
};
use crate::merge::{lemma_merge_failure_persists, merge_position, merge_prefix, merge_result};
use crate::progression::{is_first_record, lemma_record_index, record_index};
use crate::record::{can_transplant, mergeable, slot_of, SaveRecordView};

verus! {

/// The items of all accessories that the merge has to create for the first
/// `n` roster positions of the source: for each character of the roster, in
/// display order, the accessories of its build in slot order.
pub open spec fn wanted_items(src: SaveRecordView, n: nat) -> Seq<u16>
    decreases n,
{
    if n == 0 {
        Seq::empty()
    } else {
        let earlier = wanted_items(src, (n - 1) as nat);
        let character_id = src.roster[n - 1];
        if character_id == 0 {
            earlier
        } else {
            let worn = source_build(src, slot_of(character_id)).accessories;
            earlier + worn_items(worn, worn.len())
        }
    }
}

proof fn lemma_inventory_prefix(dst: SaveRecordView, src: SaveRecordView, n: nat)
    requires
        mergeable(dst, src),
        n <= src.roster.len(),
    ensures
        merge_prefix(dst, src, n) matches Ok(so_far) ==> {
            &&& place_all(dst.inventory.accessories, wanted_items(src, n)) matches Some((taken, filled))
            &&& so_far.inventory == InventoryView { accessories: filled, ..dst.inventory }
        },
    decreases n,
{
    if n > 0 {
        let m = (n - 1) as nat;
        lemma_inventory_prefix(dst, src, m);
        lemma_prefix_keeps_mergeable(dst, src, m);
        if let Ok(before) = merge_prefix(dst, src, m) {
            let character_id = src.roster[m as int];
            if character_id != 0 {
                if let Ok(after) = merge_position(before, src, m as int) {
                    let slot = slot_of(character_id);
                    let worn = source_build(src, slot).accessories;
                    assert(can_transplant(before, src, character_id));
                    lemma_equip_is_placement(
                        receiving_build(before, src, slot).accessories,
                        worn,
                        before.inventory,
                        worn.len(),
                    );
                    lemma_place_all_in_turn(
                        dst.inventory.accessories,
                        wanted_items(src, m),
                        worn_items(worn, worn.len()),
                    );
                }
            }
        }
    }
}

/// Whether every accessory that the merge has to transplant names an item.
pub open spec fn wears_named_items(src: SaveRecordView) -> bool {
    forall|i: int|
        0 <= i < src.roster.len() && src.roster[i] != 0 ==> names_items(
            source_build(src, slot_of(#[trigger] src.roster[i])).accessories,
        )
}

/// Where every worn accessory names an item, so does the list of wanted
/// items.
pub proof fn lemma_wanted_items_named(src: SaveRecordView, n: nat)
    requires
        n <= src.roster.len(),
        wears_named_items(src),
    ensures
        all_named(wanted_items(src, n)),
    decreases n,
{
    if n > 0 {
        lemma_wanted_items_named(src, (n - 1) as nat);
        let character_id = src.roster[n - 1];
        if character_id != 0 {
            let worn = source_build(src, slot_of(character_id)).accessories;
            lemma_worn_items_named(worn, worn.len());
        }
    }
}

/// The merge fills the inventory first-fit, and no allocation reuses a slot.
///
/// The accessory partition after the merge is the one before it with the
/// wanted items placed one after the other, each in the lowest slot that is
/// empty at its turn. Every slot taken was empty before the merge, the
/// slots taken are strictly ascending in the order of the allocations, hence
/// pairwise distinct, and each holds its item afterwards. No other slot of
/// the inventory changes.
pub proof fn lemma_merge_places_accessories(dst: SaveRecordView, src: SaveRecordView, merged: SaveRecordView)
    requires
        mergeable(dst, src),
        merge_result(dst, src) == Ok::<SaveRecordView, MergeError>(merged),
        wears_named_items(src),
    ensures
        ({
            let items = wanted_items(src, src.roster.len());
            &&& place_all(dst.inventory.accessories, items) matches Some((taken, filled))
            &&& merged.inventory == InventoryView { accessories: filled, ..dst.inventory }
            &&& taken.len() == items.len()
            &&& filled.len() == dst.inventory.accessories.len()
            &&& forall|k: int|
                0 <= k < taken.len() ==> {
                    &&& 0 <= #[trigger] taken[k] < filled.len()
                    &&& dst.inventory.accessories[taken[k]].item_id == 0
                    &&& filled[taken[k]].item_id == items[k]
                }
            &&& forall|j: int, k: int| 0 <= j < k < taken.len() ==> #[trigger] taken[j] < #[trigger] taken[k]
            &&& forall|i: int|
                0 <= i < filled.len() && (forall|k: int| 0 <= k < taken.len() ==> #[trigger] taken[k] != i)
                    ==> #[trigger] filled[i] == dst.inventory.accessories[i]
        }),
{
    lemma_inventory_prefix(dst, src, src.roster.len());
    lemma_wanted_items_named(src, src.roster.len());
    lemma_placements_are_distinct(dst.inventory.accessories, wanted_items(src, src.roster.len()));
}

/// Whether `now` wears the source's accessory of the given roster position
/// and slot, bound to an accessory slot of its inventory that holds the item
/// and that was empty in `stock_before`.
pub open spec fn is_bound(
    now: SaveRecordView,
    stock_before: Seq<InventorySlot>,
    src: SaveRecordView,
    position: int,
    p: int,
) -> bool {
    let wanted = source_build(src, slot_of(src.roster[position])).accessories[p]->0;
    &&& worn_after(now, src, position, p) matches Some(bound)
    &&& bound.item_id == wanted.item_id
    &&& bound.slot.item_type == ItemType::Accessory
    &&& bound.slot.index < now.inventory.accessories.len()
    &&& now.inventory.accessories[bound.slot.index as int].item_id == wanted.item_id
    &&& stock_before[bound.slot.index as int].item_id == 0
}

/// One step of the merge binds the accessories of the transplanted character
/// to slots that were empty, and leaves the bindings of the others intact.
proof fn lemma_binding_step(
    dst: SaveRecordView,
    src: SaveRecordView,
    before: SaveRecordView,
    after: SaveRecordView,
    m: nat,
    i: int,
    p: int,
)
    requires
        mergeable(before, src),
        m < src.roster.len(),
        src.roster[m as int] != 0,
        wears_named_items(src),
        before.inventory.accessories.len() == dst.inventory.accessories.len(),
        dst.inventory.accessories.len() <= usize::MAX,
        forall|k: int|
            0 <= k < dst.inventory.accessories.len() && (#[trigger] dst.inventory.accessories[k]).item_id != 0
                ==> before.inventory.accessories[k] == dst.inventory.accessories[k],
        merge_position(before, src, m as int) == Ok::<SaveRecordView, MergeError>(after),
        0 <= i <= m,
        wears_at(src, i, p),
        i < m ==> is_bound(before, dst.inventory.accessories, src, i, p),
    ensures
        is_bound(after, dst.inventory.accessories, src, i, p),
        slot_of(src.roster[i]) == slot_of(src.roster[m as int]) ==> before.inventory.accessories[worn_after(
            after,
            src,
            i,
            p,
        )->0.slot.index as int].item_id == 0,
        slot_of(src.roster[i]) != slot_of(src.roster[m as int]) ==> worn_after(after, src, i, p) == worn_after(
            before,
            src,
            i,
            p,
        ) && before.inventory.accessories[worn_after(after, src, i, p)->0.slot.index as int].item_id != 0,
{
    let character_id = src.roster[m as int];
    let slot = slot_of(character_id);
    let wanted = source_build(src, slot).accessories;
    let ours = receiving_build(before, src, slot).accessories;
    assert(can_transplant(before, src, character_id));
    assert(names_items(wanted));
    lemma_equip_effect(ours, wanted, before.inventory, wanted.len());
    lemma_equip_bindings(ours, wanted, before.inventory, wanted.len());
    let worn = receiving_build(after, src, slot).accessories;
    assert(equip_all(ours, wanted, before.inventory) == Ok::<(AccessorySlots, InventoryView), MergeError>(
        (worn, after.inventory),
    ));
    let t = slot_of(src.roster[i]);
    if t == slot {
        let bound = worn[p]->0;
        assert(worn[p] is Some);
        let at = bound.slot.index as int;
        if dst.inventory.accessories[at].item_id != 0 {
            assert(before.inventory.accessories[at] == dst.inventory.accessories[at]);
        }
    } else {
        assert(after.characters[t] == before.characters[t]);
        assert(names_items(source_build(src, slot_of(src.roster[i])).accessories));
        let held = source_build(src, t).accessories[p];
        assert(held->0.item_id != 0);
    }
}

proof fn lemma_bindings_prefix(dst: SaveRecordView, src: SaveRecordView, n: nat)
    requires
        mergeable(dst, src),
        n <= src.roster.len(),
        wears_named_items(src),
        dst.inventory.accessories.len() <= usize::MAX,
    ensures
        merge_prefix(dst, src, n) matches Ok(so_far) ==> {
            &&& so_far.inventory.accessories.len() == dst.inventory.accessories.len()
            &&& forall|k: int|
                0 <= k < dst.inventory.accessories.len() && (#[trigger] dst.inventory.accessories[k]).item_id != 0
                    ==> so_far.inventory.accessories[k] == dst.inventory.accessories[k]
            &&& forall|i: int, p: int|
                0 <= i < n && #[trigger] wears_at(src, i, p) ==> is_bound(
                    so_far,
                    dst.inventory.accessories,
                    src,
                    i,
                    p,
                )
            &&& forall|i: int, p: int, j: int, q: int|
                0 <= i < n && 0 <= j < n && #[trigger] wears_at(src, i, p) && #[trigger] wears_at(src, j, q) && (
                slot_of(src.roster[i]) != slot_of(src.roster[j]) || p != q) ==> worn_after(
                    so_far,
                    src,
                    i,
                    p,
                )->0.slot.index != worn_after(so_far, src, j, q)->0.slot.index
        },
    decreases n,
{
    if n > 0 {
        let m = (n - 1) as nat;
        lemma_bindings_prefix(dst, src, m);
        lemma_prefix_keeps_mergeable(dst, src, m);
        if let Ok(before) = merge_prefix(dst, src, m) {
            let character_id = src.roster[m as int];
            if character_id == 0 {
                assert forall|i: int, p: int| 0 <= i < n && #[trigger] wears_at(src, i, p) implies i < m by {}
            } else {
                if let Ok(after) = merge_position(before, src, m as int) {
                    let slot = slot_of(character_id);
                    let wanted = source_build(src, slot).accessories;
                    let ours = receiving_build(before, src, slot).accessories;
                    let stock_before = dst.inventory.accessories;
                    assert(can_transplant(before, src, character_id));
                    assert(names_items(wanted));
                    lemma_equip_effect(ours, wanted, before.inventory, wanted.len());
                    lemma_equip_bindings(ours, wanted, before.inventory, wanted.len());
                    let worn = receiving_build(after, src, slot).accessories;
                    assert(equip_all(ours, wanted, before.inventory) == Ok::<
                        (AccessorySlots, InventoryView),
                        MergeError,
                    >((worn, after.inventory)));
                    assert forall|k: int|
                        0 <= k < stock_before.len() && (#[trigger] stock_before[k]).item_id != 0
                        implies after.inventory.accessories[k] == stock_before[k] by {
                        assert(before.inventory.accessories[k] == stock_before[k]);
                        assert(before.inventory.accessories[k].item_id != 0);
                    }
                    assert forall|i: int, p: int| 0 <= i < n && #[trigger] wears_at(src, i, p) implies is_bound(
                        after,
                        stock_before,
                        src,
                        i,
                        p,
                    ) by {
                        lemma_binding_step(dst, src, before, after, m, i, p);
                    }
                    assert forall|i: int, p: int, j: int, q: int|
                        0 <= i < n && 0 <= j < n && #[trigger] wears_at(src, i, p) && #[trigger] wears_at(
                            src,
                            j,
                            q,
                        ) && (slot_of(src.roster[i]) != slot_of(src.roster[j]) || p != q) implies worn_after(
                        after,
                        src,
                        i,
                        p,
                    )->0.slot.index != worn_after(after, src, j, q)->0.slot.index by {
                        lemma_binding_step(dst, src, before, after, m, i, p);
                        lemma_binding_step(dst, src, before, after, m, j, q);
                        let t = slot_of(src.roster[i]);
                        let u = slot_of(src.roster[j]);
                        if t == slot && u == slot {
                            assert(worn[p] is Some && worn[q] is Some);
                            if p < q {
                                assert(worn[p]->0.slot.index != worn[q]->0.slot.index);
                            } else {
                                assert(worn[q]->0.slot.index != worn[p]->0.slot.index);
                            }
                        } else if t == slot {
                            assert(j < m);
                            assert(is_bound(before, stock_before, src, j, q));
                            assert(after.characters[u] == before.characters[u]);
                        } else if u == slot {
                            assert(i < m);
                            assert(is_bound(before, stock_before, src, i, p));
                            assert(after.characters[t] == before.characters[t]);
                        } else {
                            assert(i < m && j < m);
                            assert(after.characters[t] == before.characters[t]);
                            assert(after.characters[u] == before.characters[u]);
                        }
                    }
                }
            }
        }
    }
}

/// Every accessory that a character of the source roster wears is worn by
/// the same character in the same slot after the merge: it has the source's
/// item identity and is bound to an accessory slot of the destination
/// inventory that holds that item and that was empty before the merge.
pub proof fn lemma_merge_equips_accessories(
    dst: SaveRecordView,
    src: SaveRecordView,
    merged: SaveRecordView,
    position: int,
    p: int,
)
    requires
        mergeable(dst, src),
        merge_result(dst, src) == Ok::<SaveRecordView, MergeError>(merged),
        wears_named_items(src),
        dst.inventory.accessories.len() <= usize::MAX,
        wears_at(src, position, p),
    ensures
        is_bound(merged, dst.inventory.accessories, src, position, p),
{
    lemma_bindings_prefix(dst, src, src.roster.len());
}

/// No two accessories share an inventory slot after the merge: accessories
/// worn by different characters of the source roster, or in different slots
/// of one character, are bound to different slots of the inventory.
pub proof fn lemma_merge_binds_distinct_slots(
    dst: SaveRecordView,
    src: SaveRecordView,
    merged: SaveRecordView,
    position: int,
    p: int,
    other: int,
    q: int,
)
    requires
        mergeable(dst, src),
        merge_result(dst, src) == Ok::<SaveRecordView, MergeError>(merged),
        wears_named_items(src),
        dst.inventory.accessories.len() <= usize::MAX,
        wears_at(src, position, p),
        wears_at(src, other, q),
        slot_of(src.roster[position]) != slot_of(src.roster[other]) || p != q,
    ensures
        worn_after(merged, src, position, p)->0.slot.index != worn_after(merged, src, other, q)->0.slot.index,
{
    lemma_bindings_prefix(dst, src, src.roster.len());
}

proof fn lemma_wanted_items_counted(src: SaveRecordView, n: nat, i: int)
    requires
        0 <= i < n <= src.roster.len(),
        src.roster[i] != 0,
        worn_items(
            source_build(src, slot_of(src.roster[i])).accessories,
            source_build(src, slot_of(src.roster[i])).accessories.len(),
        ).len() > 0,
    ensures
        wanted_items(src, n).len() > 0,
    decreases n,
{
    if i < n - 1 {
        lemma_wanted_items_counted(src, (n - 1) as nat, i);
    }
}

/// With no empty accessory slot in the destination and at least one
/// accessory worn in the source roster, the merge fails.
pub proof fn lemma_full_inventory_fails_merge(dst: SaveRecordView, src: SaveRecordView, position: int, p: int)
    requires
        mergeable(dst, src),
        is_full(dst.inventory.accessories),
        wears_at(src, position, p),
    ensures
        merge_result(dst, src) is Err,
{
    let worn = source_build(src, slot_of(src.roster[position])).accessories;
    lemma_worn_items_counted(worn, worn.len(), p);
    lemma_wanted_items_counted(src, src.roster.len(), position);
    lemma_inventory_prefix(dst, src, src.roster.len());
    lemma_placement_needs_room(dst.inventory.accessories, wanted_items(src, src.roster.len()));
}

/// Whether no accessory is worn in these slots.
pub open spec fn is_bare(worn: AccessorySlots) -> bool {
    forall|p: int| 0 <= p < worn.len() ==> (#[trigger] worn[p]) is None
}

/// Whether the merge passes the roster position without creating an
/// accessory and without missing a progression record: the position is
/// empty, or its character wears nothing and has a record on both sides.
pub open spec fn passes_quietly(dst: SaveRecordView, src: SaveRecordView, position: int) -> bool {
    let character_id = src.roster[position];
    character_id != 0 ==> {
        &&& is_bare(source_build(src, slot_of(character_id)).accessories)
        &&& record_index(src.progression, character_id) is Some
        &&& record_index(dst.progression, character_id) is Some
    }
}

proof fn lemma_quiet_prefix(dst: SaveRecordView, src: SaveRecordView, n: nat)
    requires
        mergeable(dst, src),
        n <= src.roster.len(),
        forall|i: int| 0 <= i < n ==> #[trigger] passes_quietly(dst, src, i),
    ensures
        merge_prefix(dst, src, n) matches Ok(so_far) && so_far.inventory == dst.inventory && same_owners(
            so_far.progression,
            dst.progression,
        ),
    decreases n,
{
    if n > 0 {
        let m = (n - 1) as nat;
        lemma_quiet_prefix(dst, src, m);
        lemma_prefix_keeps_mergeable(dst, src, m);
        let before = merge_prefix(dst, src, m)->Ok_0;
        let character_id = src.roster[m as int];
        assert(passes_quietly(dst, src, m as int));
        if character_id != 0 {
            let slot = slot_of(character_id);
            let worn = source_build(src, slot).accessories;
            assert(can_transplant(before, src, character_id));
            lemma_equip_unnamed(receiving_build(before, src, slot).accessories, worn, before.inventory, worn.len());
            lemma_same_owners_same_index(before.progression, dst.progression, character_id);
            lemma_record_index(before.progression, character_id);
            let to = record_index(before.progression, character_id)->0;
            assert(is_first_record(before.progression, character_id, to));
        }
    }
}

/// With no empty accessory slot in the destination, the merge fails with
/// `NoFreeInventorySlot` at the first character of the source roster that
/// wears an accessory, provided that the merge gets that far: every roster
/// position before it passes quietly. Where an earlier character lacks a
/// progression record, that is the error instead.
pub proof fn lemma_full_inventory_error(dst: SaveRecordView, src: SaveRecordView, position: int)
    requires
        mergeable(dst, src),
        is_full(dst.inventory.accessories),
        0 <= position < src.roster.len(),
        src.roster[position] != 0,
        !is_bare(source_build(src, slot_of(src.roster[position])).accessories),
        forall|i: int| 0 <= i < position ==> #[trigger] passes_quietly(dst, src, i),
    ensures
        merge_result(dst, src) == Err::<SaveRecordView, MergeError>(
            MergeError::NoFreeInventorySlot { item_type: ItemType::Accessory },
        ),
{
    let character_id = src.roster[position];
    let slot = slot_of(character_id);
    let worn = source_build(src, slot).accessories;
    lemma_quiet_prefix(dst, src, position as nat);
    lemma_prefix_keeps_mergeable(dst, src, position as nat);
    let before = merge_prefix(dst, src, position as nat)->Ok_0;
    assert(can_transplant(before, src, character_id));
    let p = choose|p: int| 0 <= p < worn.len() && !((#[trigger] worn[p]) is None);
    lemma_worn_items_counted(worn, worn.len(), p);
    lemma_equip_is_placement(receiving_build(before, src, slot).accessories, worn, before.inventory, worn.len());
    lemma_placement_needs_room(before.inventory.accessories, worn_items(worn, worn.len()));
    assert(merge_position(before, src, position) == Err::<SaveRecordView, MergeError>(
        MergeError::NoFreeInventorySlot { item_type: ItemType::Accessory },
    ));
    lemma_merge_failure_persists(dst, src, (position + 1) as nat, src.roster.len());
}

} // verus!
