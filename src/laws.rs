use crate::protocol::{get_reply, list_reply};
use crate::vault::{
    cell_wf, has_item, is_first_match, item_text, lemma_total_size_remove, put_done, take_done,
    Cell, Item, VaultError,
};
use vstd::prelude::*;

verus! {

/// A first `put` of an item that fits an empty new cell, into a vault with a
/// free slot, succeeds; the cell then holds just that item, and a `GET`
/// describes it with its size and the cell's fill.
pub proof fn lemma_first_put_then_get(
    before: Map<u32, Cell>,
    capacity: usize,
    id: u32,
    item: Item,
    cell_capacity: u32,
    after: Map<u32, Cell>,
    r: Result<(), VaultError>,
)
    requires
        !before.contains_key(id),
        before.len() < capacity,
        item.size <= cell_capacity,
        put_done(before, capacity, id, item, cell_capacity, after, r),
    ensures
        r is Ok,
        after.contains_key(id),
        after[id]@.items == seq![item],
        after[id]@.used_space == item.size,
        after[id]@.capacity == cell_capacity,
        get_reply(after, id) == "Items: "@ + item_text(item) + " | Used: "@ + crate::text::decimal(
            item.size as nat,
        ) + "/"@ + crate::text::decimal(cell_capacity as nat) + "\n"@,
{
    assert(after.dom().contains(id));
    assert(seq![item] =~= Seq::<Item>::empty().push(item));
    assert(after[id]@.items.len() == 1);
}

/// A `put` of an item that does not fit the cell it goes to fails with
/// `CellFull` and leaves that cell's items and fill as they were.
pub proof fn lemma_put_into_full_cell(
    before: Map<u32, Cell>,
    capacity: usize,
    id: u32,
    item: Item,
    cell_capacity: u32,
    after: Map<u32, Cell>,
    r: Result<(), VaultError>,
)
    requires
        before.contains_key(id),
        before[id]@.used_space + item.size > before[id]@.capacity,
        put_done(before, capacity, id, item, cell_capacity, after, r),
    ensures
        r == Err::<(), VaultError>(VaultError::CellFull),
        after[id]@.items == before[id]@.items,
        after[id]@.used_space == before[id]@.used_space,
        after.dom() == before.dom(),
{
    assert(before.dom().insert(id) =~= before.dom());
}

/// Once the vault holds `capacity` ids, a `put` to a new id fails with
/// `VaultFull`; a `put` to an id it holds never does.
pub proof fn lemma_vault_full_only_for_new_ids(
    before: Map<u32, Cell>,
    capacity: usize,
    id: u32,
    item: Item,
    cell_capacity: u32,
    after: Map<u32, Cell>,
    r: Result<(), VaultError>,
)
    requires
        put_done(before, capacity, id, item, cell_capacity, after, r),
    ensures
        !before.contains_key(id) && before.len() >= capacity ==> r == Err::<(), VaultError>(
            VaultError::VaultFull,
        ),
        before.contains_key(id) ==> r != Err::<(), VaultError>(VaultError::VaultFull),
{
}

/// A `take` from a cell whose accounting holds removes exactly one item,
/// the first of that name, and lowers the fill by exactly its size.
pub proof fn lemma_take_exact(
    before: Map<u32, Cell>,
    id: u32,
    name: Seq<char>,
    after: Map<u32, Cell>,
    r: Result<Item, VaultError>,
)
    requires
        before.contains_key(id),
        cell_wf(before[id]@),
        has_item(before[id]@.items, name),
        take_done(before, id, name, after, r),
    ensures
        r is Ok,
        r->Ok_0.name@ == name,
        after[id]@.items.len() + 1 == before[id]@.items.len(),
        after[id]@.used_space + r->Ok_0.size == before[id]@.used_space,
        cell_wf(after[id]@),
{
    let c = before[id]@;
    let i = choose|i: int|
        {
            &&& #[trigger] is_first_match(c.items, name, i)
            &&& r == Ok::<Item, VaultError>(c.items[i])
            &&& after[id]@.items == c.items.remove(i)
            &&& after[id]@.capacity == c.capacity
            &&& after[id]@.used_space as int == if c.used_space >= c.items[i].size {
                c.used_space - c.items[i].size
            } else {
                0
            }
        };
    lemma_total_size_remove(c.items, i);
}

/// `take` and `get` of an id without a cell fail with `CellNotFound`; a
/// `take` of a name that the cell does not hold fails with `ItemNotFound`.
pub proof fn lemma_take_failures(
    before: Map<u32, Cell>,
    id: u32,
    name: Seq<char>,
    after: Map<u32, Cell>,
    r: Result<Item, VaultError>,
)
    requires
        take_done(before, id, name, after, r),
    ensures
        !before.contains_key(id) ==> r == Err::<Item, VaultError>(VaultError::CellNotFound)
            && get_reply(before, id) == "ERROR: cell not found\n"@,
        before.contains_key(id) && !has_item(before[id]@.items, name) ==> r == Err::<
            Item,
            VaultError,
        >(VaultError::ItemNotFound),
{
}

/// After a successful `put` to `id`, every answer to `LIST` names `id`.
pub proof fn lemma_put_then_listed(
    before: Map<u32, Cell>,
    capacity: usize,
    id: u32,
    item: Item,
    cell_capacity: u32,
    after: Map<u32, Cell>,
    text: Seq<char>,
)
    requires
        before.dom().finite(),
        put_done(before, capacity, id, item, cell_capacity, after, Ok(())),
        list_reply(after, text),
    ensures
        after.len() > 0,
        exists|ids: Seq<u32>|
            {
                &&& crate::vault::ascending(ids)
                &&& #[trigger] ids.to_set() == after.dom()
                &&& ids.contains(id)
                &&& text == crate::vault::occupied_text(ids)
            },
{
    assert(after.dom().contains(id));
    assert(after.len() > 0) by {
        vstd::set_lib::lemma_set_empty_equivalency_len(after.dom());
    }
    let ids = choose|ids: Seq<u32>|
        {
            &&& crate::vault::ascending(ids)
            &&& #[trigger] ids.to_set() == after.dom()
            &&& text == crate::vault::occupied_text(ids)
        };
    assert(ids.to_set().contains(id));
}

/// How many of the results are successes.
pub open spec fn count_ok(rs: Seq<Result<(), VaultError>>) -> nat
    decreases rs.len(),
{
    if rs.len() == 0 {
        0
    } else {
        count_ok(rs.drop_last()) + if rs.last() is Ok {
            1nat
        } else {
            0nat
        }
    }
}

/// How many of the results are `VaultFull` refusals.
pub open spec fn count_vault_full(rs: Seq<Result<(), VaultError>>) -> nat
    decreases rs.len(),
{
    if rs.len() == 0 {
        0
    } else {
        count_vault_full(rs.drop_last()) + if rs.last() == Err::<(), VaultError>(
            VaultError::VaultFull,
        ) {
            1nat
        } else {
            0nat
        }
    }
}

/// Whether `states` and `rs` record the `put`s of `items[k]` to `ids[k]`,
/// one after another, starting from an empty vault.
pub open spec fn puts_recorded(
    states: Seq<Map<u32, Cell>>,
    capacity: usize,
    ids: Seq<u32>,
    items: Seq<Item>,
    cell_capacity: u32,
    rs: Seq<Result<(), VaultError>>,
) -> bool {
    &&& states.len() == ids.len() + 1
    &&& items.len() == ids.len()
    &&& rs.len() == ids.len()
    &&& states[0] == Map::<u32, Cell>::empty()
    &&& forall|k: int|
        0 <= k < ids.len() ==> #[trigger] put_done(
            states[k],
            capacity,
            ids[k],
            items[k],
            cell_capacity,
            states[k + 1],
            rs[k],
        )
}

/// The state after the first `k` puts of distinct ids.
proof fn lemma_puts_prefix(
    states: Seq<Map<u32, Cell>>,
    capacity: usize,
    ids: Seq<u32>,
    items: Seq<Item>,
    cell_capacity: u32,
    rs: Seq<Result<(), VaultError>>,
    k: int,
)
    requires
        puts_recorded(states, capacity, ids, items, cell_capacity, rs),
        ids.no_duplicates(),
        forall|j: int| 0 <= j < items.len() ==> (#[trigger] items[j]).size <= cell_capacity,
        0 <= k <= ids.len(),
    ensures
        states[k].dom().finite(),
        states[k].dom().subset_of(ids.take(k).to_set()),
        states[k].len() == if k < capacity { k } else { capacity as int },
        count_ok(rs.take(k)) == if k < capacity { k } else { capacity as int },
        count_vault_full(rs.take(k)) == if k < capacity { 0 } else { k - capacity },
    decreases k,
{
    if k == 0 {
        assert(rs.take(0) =~= Seq::<Result<(), VaultError>>::empty());
        assert(states[0].dom() =~= Set::<u32>::empty());
    } else {
        let j = k - 1;
        lemma_puts_prefix(states, capacity, ids, items, cell_capacity, rs, j);
        assert(put_done(states[j], capacity, ids[j], items[j], cell_capacity, states[j + 1], rs[j]));
        assert(rs.take(k).drop_last() =~= rs.take(j));
        assert(rs.take(k).last() == rs[j]);
        assert(!states[j].contains_key(ids[j])) by {
            if states[j].contains_key(ids[j]) {
                assert(ids.take(j).to_set().contains(ids[j]));
                assert(ids.take(j).contains(ids[j]));
                let m = choose|m: int| 0 <= m < ids.take(j).len() && ids.take(j)[m] == ids[j];
                assert(ids[m] == ids[j]);
            }
        }
        assert forall|x: u32| states[k].dom().contains(x) implies ids.take(k).to_set().contains(x) by {
            if x == ids[j] {
                assert(ids.take(k)[j] == x);
            } else if states[j].dom().contains(x) {
                assert(ids.take(j).to_set().contains(x));
                let m = choose|m: int| 0 <= m < ids.take(j).len() && ids.take(j)[m] == x;
                assert(ids.take(k)[m] == x);
            }
        }
        if states[j].len() >= capacity {
            assert(states[k] == states[j]);
        } else {
            assert(states[k].dom() == states[j].dom().insert(ids[j]));
            assert(states[k].dom().len() == states[j].dom().len() + 1);
        }
    }
}

/// `put`s of `n` distinct new ids, each with an item that fits an empty
/// cell, into an empty vault of `capacity < n` ids, taken in any order in
/// which the vault's lock admits them: exactly `capacity` succeed, the other
/// `n - capacity` fail with `VaultFull`, and the vault then holds exactly
/// `capacity` cells.
pub proof fn lemma_distinct_puts_fill_vault(
    states: Seq<Map<u32, Cell>>,
    capacity: usize,
    ids: Seq<u32>,
    items: Seq<Item>,
    cell_capacity: u32,
    rs: Seq<Result<(), VaultError>>,
)
    requires
        puts_recorded(states, capacity, ids, items, cell_capacity, rs),
        ids.no_duplicates(),
        forall|j: int| 0 <= j < items.len() ==> (#[trigger] items[j]).size <= cell_capacity,
        capacity < ids.len(),
    ensures
        count_ok(rs) == capacity,
        count_vault_full(rs) == ids.len() - capacity,
        states.last().len() == capacity,
{
    lemma_puts_prefix(states, capacity, ids, items, cell_capacity, rs, ids.len() as int);
    assert(rs.take(ids.len() as int) =~= rs);
}

} // verus!
