use crate::text::{decimal, decimal_string, same_text};
use std::collections::HashMap;
use vstd::prelude::*;

verus! {

/// A named, sized unit of data.
#[derive(Debug, Clone)]
pub struct Item {
    pub name: String,
    pub size: u32,
}

/// A container of items whose sizes together may not exceed its capacity.
#[derive(Debug, Clone)]
pub struct Cell {
    pub items: Vec<Item>,
    pub capacity: u32,
    pub used_space: u32,
}

/// Why a cell refused an operation.
#[derive(Debug, PartialEq, Eq, Structural)]
pub enum CellError {
    Full,
    NotFound,
}

/// The abstract state of a cell.
pub struct CellModel {
    pub items: Seq<Item>,
    pub capacity: u32,
    pub used_space: u32,
}

impl View for Cell {
    type V = CellModel;

    open spec fn view(&self) -> CellModel {
        CellModel { items: self.items@, capacity: self.capacity, used_space: self.used_space }
    }
}

/// The total size of a sequence of items.
pub open spec fn total_size(items: Seq<Item>) -> nat
    decreases items.len(),
{
    if items.len() == 0 {
        0
    } else {
        total_size(items.drop_last()) + items.last().size as nat
    }
}

/// Whether some item of `items` is called `name`.
pub open spec fn has_item(items: Seq<Item>, name: Seq<char>) -> bool {
    exists|i: int| 0 <= i < items.len() && #[trigger] items[i].name@ == name
}

/// Whether `i` is the position of the first item of `items` called `name`.
pub open spec fn is_first_match(items: Seq<Item>, name: Seq<char>, i: int) -> bool {
    &&& 0 <= i < items.len()
    &&& items[i].name@ == name
    &&& forall|j: int| 0 <= j < i ==> #[trigger] items[j].name@ != name
}

/// The text of one item: `name: size`.
pub open spec fn item_text(item: Item) -> Seq<char> {
    item.name@ + ": "@ + decimal(item.size as nat)
}

/// The texts of the items, in order, joined by `, `.
pub open spec fn items_text(items: Seq<Item>) -> Seq<char>
    decreases items.len(),
{
    if items.len() == 0 {
        Seq::empty()
    } else if items.len() == 1 {
        item_text(items[0])
    } else {
        items_text(items.drop_last()) + ", "@ + item_text(items.last())
    }
}

/// The description of a non-empty cell: its items and how full it is.
pub open spec fn cell_text(c: CellModel) -> Seq<char> {
    "Items: "@ + items_text(c.items) + " | Used: "@ + decimal(c.used_space as nat) + "/"@
        + decimal(c.capacity as nat) + "\n"@
}

/// `used_space` accounts for the items exactly, within the capacity.
pub open spec fn cell_wf(c: CellModel) -> bool {
    &&& c.used_space as nat == total_size(c.items)
    &&& c.used_space <= c.capacity
}

/// `total_size` of a sequence with one element removed.
pub proof fn lemma_total_size_remove(items: Seq<Item>, i: int)
    requires
        0 <= i < items.len(),
    ensures
        total_size(items.remove(i)) + items[i].size == total_size(items),
    decreases items.len(),
{
    if i < items.len() - 1 {
        let rest = items.drop_last();
        lemma_total_size_remove(rest, i);
        assert(items.remove(i).drop_last() =~= rest.remove(i));
        assert(items.remove(i).last() == items.last());
    } else {
        assert(items.remove(i) =~= items.drop_last());
    }
}

impl Cell {
    /// Whether the cell's accounting holds.
    pub open spec fn wf(&self) -> bool {
        cell_wf(self@)
    }

    /// An empty cell of the given capacity.
    pub fn new(capacity: u32) -> (r: Cell)
        ensures
            r@.items == Seq::<Item>::empty(),
            r@.capacity == capacity,
            r@.used_space == 0,
            r.wf(),
    {
        Cell { items: Vec::new(), capacity, used_space: 0 }
    }

    /// Appends `item` when it fits in the space left; otherwise fails with
    /// `Full` and changes nothing.
    pub fn put_item(&mut self, item: Item) -> (r: Result<(), CellError>)
        ensures
            old(self).used_space + item.size > old(self).capacity ==> {
                &&& r == Err::<(), CellError>(CellError::Full)
                &&& final(self)@ == old(self)@
            },
            old(self).used_space + item.size <= old(self).capacity ==> {
                &&& r is Ok
                &&& final(self)@.items == old(self)@.items.push(item)
                &&& final(self)@.capacity == old(self)@.capacity
                &&& final(self)@.used_space == old(self)@.used_space + item.size
            },
            old(self).wf() ==> final(self).wf(),
    {
        if self.used_space as u64 + item.size as u64 > self.capacity as u64 {
            return Err(CellError::Full);
        }
        self.used_space = self.used_space + item.size;
        let ghost before = self.items@;
        self.items.push(item);
        proof {
            assert(self.items@.drop_last() =~= before);
        }
        Ok(())
    }

    /// The description of the items, or `None` when the cell holds none.
    pub fn list_items(&self) -> (r: Option<String>)
        ensures
            self@.items.len() == 0 ==> r is None,
            self@.items.len() > 0 ==> r is Some && r->0@ == cell_text(self@),
    {
        if self.items.len() == 0 {
            return None;
        }
        let mut text = String::new();
        let mut i: usize = 0;
        while i < self.items.len()
            invariant
                0 <= i <= self.items@.len(),
                i == 0 ==> text@ == Seq::<char>::empty(),
                i > 0 ==> text@ == items_text(self.items@.take(i as int)),
            decreases self.items.len() - i,
        {
            let item = &self.items[i];
            let ghost prefix = self.items@.take(i as int);
            if i > 0 {
                text.append(", ");
            }
            text.append(item.name.as_str());
            text.append(": ");
            let size = decimal_string(item.size);
            text.append(size.as_str());
            proof {
                let next = self.items@.take(i + 1);
                assert(next.drop_last() =~= prefix);
                assert(next.last() == self.items@[i as int]);
                if i == 0 {
                    assert(text@ =~= item_text(self.items@[0]));
                } else {
                    assert(text@ =~= items_text(prefix) + ", "@ + item_text(next.last()));
                }
            }
            i = i + 1;
        }
        let mut out = String::from_str("Items: ");
        out.append(text.as_str());
        out.append(" | Used: ");
        let used = decimal_string(self.used_space);
        out.append(used.as_str());
        out.append("/");
        let cap = decimal_string(self.capacity);
        out.append(cap.as_str());
        out.append("\n");
        proof {
            assert(self.items@.take(self.items@.len() as int) =~= self.items@);
            assert(out@ =~= cell_text(self@));
        }
        Some(out)
    }

    /// Removes the first item called `name` and returns it, lowering
    /// `used_space` by its size (never below zero). Fails with `NotFound`,
    /// changing nothing, when no item has that name.
    pub fn take(&mut self, name: &str) -> (r: Result<Item, CellError>)
        ensures
            !has_item(old(self)@.items, name@) ==> {
                &&& r == Err::<Item, CellError>(CellError::NotFound)
                &&& final(self)@ == old(self)@
            },
            has_item(old(self)@.items, name@) ==> exists|i: int|
                {
                    &&& #[trigger] is_first_match(old(self)@.items, name@, i)
                    &&& r == Ok::<Item, CellError>(old(self)@.items[i])
                    &&& final(self)@.items == old(self)@.items.remove(i)
                    &&& final(self)@.capacity == old(self)@.capacity
                    &&& final(self)@.used_space as int == if old(self)@.used_space
                        >= old(self)@.items[i].size {
                        old(self)@.used_space - old(self)@.items[i].size
                    } else {
                        0
                    }
                },
            old(self).wf() ==> final(self).wf(),
    {
        let mut i: usize = 0;
        while i < self.items.len()
            invariant
                0 <= i <= self.items@.len(),
                self@ == old(self)@,
                forall|j: int| 0 <= j < i ==> #[trigger] self.items@[j].name@ != name@,
            decreases self.items.len() - i,
        {
            if same_text(self.items[i].name.as_str(), name) {
                let ghost before = self@;
                let item = self.items.remove(i);
                self.used_space = self.used_space.saturating_sub(item.size);
                proof {
                    assert(is_first_match(before.items, name@, i as int));
                    if cell_wf(before) {
                        lemma_total_size_remove(before.items, i as int);
                    }
                }
                return Ok(item);
            }
            i = i + 1;
        }
        proof {
            assert(!has_item(self@.items, name@));
        }
        Err(CellError::NotFound)
    }
}

/// A collection of cells keyed by id, holding at most `capacity` ids.
pub struct Vault {
    pub cells: HashMap<u32, Cell>,
    pub capacity: usize,
}

/// Why the vault refused an operation.
#[derive(Debug, PartialEq, Eq, Structural)]
pub enum VaultError {
    VaultFull,
    CellFull,
    CellNotFound,
    ItemNotFound,
}

/// The cell that a `put` to `id` works on: the existing one, or a fresh
/// empty cell of `cell_capacity`.
pub open spec fn target_cell(cells: Map<u32, Cell>, id: u32, cell_capacity: u32) -> CellModel {
    if cells.contains_key(id) {
        cells[id]@
    } else {
        CellModel { items: Seq::empty(), capacity: cell_capacity, used_space: 0 }
    }
}

/// Whether `item` fits in the space that `c` has left.
pub open spec fn fits(c: CellModel, item: Item) -> bool {
    c.used_space + item.size <= c.capacity
}

/// `c` with `item` appended.
pub open spec fn with_item(c: CellModel, item: Item) -> CellModel {
    CellModel {
        items: c.items.push(item),
        capacity: c.capacity,
        used_space: (c.used_space + item.size) as u32,
    }
}

/// Whether a `put` to `id` is refused for want of a free id slot.
pub open spec fn vault_full_for(cells: Map<u32, Cell>, capacity: usize, id: u32) -> bool {
    !cells.contains_key(id) && cells.len() >= capacity
}

/// Whether `ids` is in strictly ascending order.
pub open spec fn ascending(ids: Seq<u32>) -> bool {
    forall|i: int, j: int| 0 <= i < j < ids.len() ==> ids[i] < ids[j]
}

/// The ids in decimal, joined by `, `.
pub open spec fn ids_text(ids: Seq<u32>) -> Seq<char>
    decreases ids.len(),
{
    if ids.len() == 0 {
        Seq::empty()
    } else if ids.len() == 1 {
        decimal(ids[0] as nat)
    } else {
        ids_text(ids.drop_last()) + ", "@ + decimal(ids.last() as nat)
    }
}

/// The description of the occupied ids, given in ascending order.
pub open spec fn occupied_text(ids: Seq<u32>) -> Seq<char> {
    "Occupied cells: "@ + ids_text(ids) + "\n"@
}

/// Inserts `k` into the ascending `ids` at its place.
fn insert_sorted(ids: &mut Vec<u32>, k: u32)
    requires
        ascending(old(ids)@),
        !old(ids)@.contains(k),
    ensures
        ascending(final(ids)@),
        final(ids)@.to_set() == old(ids)@.to_set().insert(k),
        final(ids)@.len() == old(ids)@.len() + 1,
{
    let mut p: usize = 0;
    while p < ids.len() && ids[p] < k
        invariant
            0 <= p <= ids@.len(),
            ids@ == old(ids)@,
            forall|j: int| 0 <= j < p ==> ids@[j] < k,
        decreases ids.len() - p,
    {
        p = p + 1;
    }
    let ghost before = ids@;
    ids.insert(p, k);
    proof {
        assert(forall|j: int| p <= j < before.len() ==> before[j] > k) by {
            assert forall|j: int| p <= j < before.len() implies before[j] > k by {
                if p < before.len() {
                    assert(before[p as int] >= k);
                    assert(before[p as int] != k);
                    assert(p == j || before[p as int] < before[j]);
                }
            }
        }
        assert(ids@ =~= before.insert(p as int, k));
        assert forall|i: int, j: int| 0 <= i < j < ids@.len() implies ids@[i] < ids@[j] by {
            if j < p {
            } else if j == p {
            } else if i < p {
                assert(ids@[j] == before[j - 1]);
            } else if i == p {
                assert(ids@[j] == before[j - 1]);
            } else {
                assert(ids@[i] == before[i - 1]);
                assert(ids@[j] == before[j - 1]);
            }
        }
        assert forall|x: u32| ids@.to_set().contains(x) <==> before.to_set().insert(k).contains(x) by {
            if ids@.contains(x) {
                let i = choose|i: int| 0 <= i < ids@.len() && ids@[i] == x;
                if i < p {
                    assert(before[i] == x);
                } else if i > p {
                    assert(before[i - 1] == x);
                }
            }
            if before.contains(x) {
                let i = choose|i: int| 0 <= i < before.len() && before[i] == x;
                if i < p {
                    assert(ids@[i] == x);
                } else {
                    assert(ids@[i + 1] == x);
                }
            }
            if x == k {
                assert(ids@[p as int] == k);
            }
        }
        assert(ids@.to_set() =~= before.to_set().insert(k));
    }
}

/// What a `put` of `item` to `id` does to the cells `before`, giving
/// `after` and the result `r`.
pub open spec fn put_done(
    before: Map<u32, Cell>,
    capacity: usize,
    id: u32,
    item: Item,
    cell_capacity: u32,
    after: Map<u32, Cell>,
    r: Result<(), VaultError>,
) -> bool {
    if vault_full_for(before, capacity, id) {
        &&& r == Err::<(), VaultError>(VaultError::VaultFull)
        &&& after == before
    } else {
        let c = target_cell(before, id, cell_capacity);
        &&& after.dom() == before.dom().insert(id)
        &&& after.remove(id) == before.remove(id)
        &&& fits(c, item) ==> r is Ok && after[id]@ == with_item(c, item)
        &&& !fits(c, item) ==> r == Err::<(), VaultError>(VaultError::CellFull) && after[id]@ == c
    }
}

/// What a `take` of `name` from cell `id` does to the cells `before`,
/// giving `after` and the result `r`.
pub open spec fn take_done(
    before: Map<u32, Cell>,
    id: u32,
    name: Seq<char>,
    after: Map<u32, Cell>,
    r: Result<Item, VaultError>,
) -> bool {
    if !before.contains_key(id) {
        &&& r == Err::<Item, VaultError>(VaultError::CellNotFound)
        &&& after == before
    } else if !has_item(before[id]@.items, name) {
        &&& r == Err::<Item, VaultError>(VaultError::ItemNotFound)
        &&& after.dom() == before.dom()
        &&& after[id]@ == before[id]@
        &&& after.remove(id) == before.remove(id)
    } else {
        let c = before[id]@;
        &&& after.dom() == before.dom()
        &&& after.remove(id) == before.remove(id)
        &&& exists|i: int|
            {
                &&& #[trigger] is_first_match(c.items, name, i)
                &&& r == Ok::<Item, VaultError>(c.items[i])
                &&& after[id]@.items == c.items.remove(i)
                &&& after[id]@.capacity == c.capacity
                &&& after[id]@.used_space as int == if c.used_space >= c.items[i].size {
                    c.used_space - c.items[i].size
                } else {
                    0
                }
            }
    }
}

impl Vault {
    /// Every cell keeps its accounting, and no more ids are held than the
    /// capacity allows.
    pub open spec fn wf(&self) -> bool {
        &&& self.cells@.len() <= self.capacity
        &&& forall|id: u32| #[trigger] self.cells@.contains_key(id) ==> self.cells@[id].wf()
    }

    /// An empty vault that may hold up to `capacity` cell ids.
    pub fn new(capacity: usize) -> (r: Vault)
        ensures
            r.cells@ == Map::<u32, Cell>::empty(),
            r.capacity == capacity,
            r.wf(),
    {
        Vault { cells: HashMap::new(), capacity }
    }

    /// Stores `item` in cell `id`, creating that cell with `cell_capacity`
    /// when the id is new. A new id is refused with `VaultFull` when the
    /// vault already holds `capacity` ids; an item that does not fit is
    /// refused with `CellFull`, though a cell created by this call stays.
    pub fn put(&mut self, id: u32, item: Item, cell_capacity: u32) -> (r: Result<(), VaultError>)
        ensures
            final(self).capacity == old(self).capacity,
            put_done(old(self).cells@, old(self).capacity, id, item, cell_capacity, final(self).cells@, r),
            old(self).wf() ==> final(self).wf(),
    {
        broadcast use vstd::std_specs::hash::group_hash_axioms;

        if !self.cells.contains_key(&id) && self.cells.len() >= self.capacity {
            return Err(VaultError::VaultFull);
        }
        let ghost before = self.cells@;
        let mut cell = match self.cells.remove(&id) {
            Some(c) => c,
            None => Cell::new(cell_capacity),
        };
        let res = cell.put_item(item);
        self.cells.insert(id, cell);
        proof {
            assert(self.cells@.dom() =~= before.dom().insert(id));
            assert(self.cells@.remove(id) =~= before.remove(id));
            if !before.contains_key(id) {
                assert(before.dom().insert(id).len() == before.dom().len() + 1);
            } else {
                assert(before.dom().insert(id) =~= before.dom());
            }
        }
        match res {
            Ok(()) => Ok(()),
            Err(_) => Err(VaultError::CellFull),
        }
    }

    /// The description of cell `id` (`None` when it is empty); fails with
    /// `CellNotFound` when the vault has no cell `id`.
    pub fn get(&self, id: u32) -> (r: Result<Option<String>, VaultError>)
        ensures
            !self.cells@.contains_key(id) ==> r == Err::<Option<String>, VaultError>(
                VaultError::CellNotFound,
            ),
            self.cells@.contains_key(id) ==> r is Ok,
            self.cells@.contains_key(id) && self.cells@[id]@.items.len() == 0 ==> r == Ok::<
                Option<String>,
                VaultError,
            >(None),
            self.cells@.contains_key(id) && self.cells@[id]@.items.len() > 0 ==> r is Ok && r->Ok_0 is Some
                && r->Ok_0->0@ == cell_text(self.cells@[id]@),
    {
        broadcast use vstd::std_specs::hash::group_hash_axioms;

        match self.cells.get(&id) {
            Some(cell) => Ok(cell.list_items()),
            None => Err(VaultError::CellNotFound),
        }
    }

    /// The occupied ids in ascending order, or `None` when the vault holds
    /// no cell.
    pub fn list(&self) -> (r: Option<String>)
        ensures
            self.cells@.len() == 0 ==> r is None,
            self.cells@.len() > 0 ==> r is Some && exists|ids: Seq<u32>|
                {
                    &&& ascending(ids)
                    &&& #[trigger] ids.to_set() == self.cells@.dom()
                    &&& r->0@ == occupied_text(ids)
                },
    {
        broadcast use vstd::std_specs::hash::group_hash_axioms;

        if self.cells.len() == 0 {
            return None;
        }
        let mut ids: Vec<u32> = Vec::new();
        for k in it: self.cells.keys()
            invariant
                ascending(ids@),
                ids@.len() == it.index(),
                it.seq().len() == self.cells@.len(),
                it.seq().no_duplicates(),
                it.seq().unref().to_set() == self.cells@.dom(),
                ids@.to_set() == it.seq().take(it.index() as int).unref().to_set(),
                ids@.to_set().subset_of(self.cells@.dom()),
        {
            let ghost done = it.seq().take(it.index() as int).unref();
            let ghost next = it.seq().take(it.index() + 1).unref();
            proof {
                assert(*k == *it.seq()[it.index() as int]);
                if ids@.contains(*k) {
                    assert(ids@.to_set().contains(*k));
                    let j = choose|j: int| 0 <= j < done.len() && done[j] == *k;
                    assert(it.seq()[j] == it.seq()[it.index() as int]);
                }
                assert(next =~= done.push(*k));
                broadcast use vstd::seq_lib::group_seq_properties;
                assert(next.to_set() =~= done.to_set().insert(*k));
                assert(it.seq().unref()[it.index() as int] == *k);
                assert(self.cells@.dom().contains(*k));
            }
            insert_sorted(&mut ids, *k);
        }
        let ghost listed = ids@;
        proof {
            assert(listed.no_duplicates());
            listed.unique_seq_to_set();
            vstd::set_lib::lemma_subset_equality(listed.to_set(), self.cells@.dom());
        }
        let mut text = String::from_str("Occupied cells: ");
        let mut i: usize = 0;
        while i < ids.len()
            invariant
                ids@ == listed,
                0 <= i <= listed.len(),
                text@ == "Occupied cells: "@ + ids_text(listed.take(i as int)),
            decreases ids.len() - i,
        {
            let ghost prefix = listed.take(i as int);
            if i > 0 {
                text.append(", ");
            }
            let digits = decimal_string(ids[i]);
            text.append(digits.as_str());
            proof {
                let next = listed.take(i + 1);
                assert(next.drop_last() =~= prefix);
                if i == 0 {
                    assert(ids_text(next) =~= decimal(listed[0] as nat));
                }
                assert(text@ =~= "Occupied cells: "@ + ids_text(next));
            }
            i = i + 1;
        }
        text.append("\n");
        proof {
            assert(listed.take(listed.len() as int) =~= listed);
            assert(text@ =~= occupied_text(listed));
        }
        Some(text)
    }

    /// Removes the first item called `name` from cell `id` and returns it.
    /// Fails with `CellNotFound` when there is no cell `id`, and with
    /// `ItemNotFound` when the cell holds no such item; nothing changes then.
    pub fn take(&mut self, id: u32, name: &str) -> (r: Result<Item, VaultError>)
        ensures
            final(self).capacity == old(self).capacity,
            take_done(old(self).cells@, id, name@, final(self).cells@, r),
            old(self).wf() ==> final(self).wf(),
    {
        broadcast use vstd::std_specs::hash::group_hash_axioms;

        let ghost before = self.cells@;
        let mut cell = match self.cells.remove(&id) {
            Some(c) => c,
            None => {
                assert(self.cells@ =~= before);
                return Err(VaultError::CellNotFound);
            },
        };
        let res = cell.take(name);
        self.cells.insert(id, cell);
        proof {
            assert(self.cells@.dom() =~= before.dom());
            assert(self.cells@.remove(id) =~= before.remove(id));
        }
        match res {
            Ok(item) => Ok(item),
            Err(_) => Err(VaultError::ItemNotFound),
        }
    }
}

} // verus!
