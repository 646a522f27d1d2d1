use std::collections::HashMap;
use vault_store::vault::{Cell, CellError, Item, Vault, VaultError};

fn item(name: &str, size: u32) -> Item {
    Item { name: name.to_string(), size }
}

#[test]
fn test_take_item_from_cell() {
    let mut cell = Cell {
        items: vec![
            Item { name: "gold".to_string(), size: 10 },
            Item { name: "silver".to_string(), size: 5 },
        ],
        capacity: 100,
        used_space: 15,
    };

    let item = cell.take("gold").expect("should take gold");
    assert_eq!(item.name, "gold");
    assert_eq!(item.size, 10);
    assert_eq!(cell.used_space, 5);
    assert_eq!(cell.items.len(), 1);

    let item2 = cell.take("silver").expect("should take silver");
    assert_eq!(item2.name, "silver");
    assert_eq!(item2.size, 5);
    assert_eq!(cell.used_space, 0);
    assert!(cell.items.is_empty());

    let res = cell.take("diamond");
    assert!(matches!(res, Err(CellError::NotFound)));
}

#[test]
fn test_take_item_from_vault() {
    let mut vault = Vault { cells: HashMap::new(), capacity: 100 };

    vault.cells.insert(
        1,
        Cell {
            items: vec![
                Item { name: "gold".to_string(), size: 10 },
                Item { name: "silver".to_string(), size: 5 },
            ],
            capacity: 100,
            used_space: 15,
        },
    );

    let item = vault.take(1, "gold").expect("should take gold");
    assert_eq!(item.name, "gold");
    assert_eq!(item.size, 10);

    let item2 = vault.take(1, "silver").expect("should take silver");
    assert_eq!(item2.name, "silver");
    assert_eq!(item2.size, 5);

    let res = vault.take(1, "diamond");
    assert!(matches!(res, Err(VaultError::ItemNotFound)));

    let res = vault.take(2, "gold");
    assert!(matches!(res, Err(VaultError::CellNotFound)));
}

#[test]
fn new_cell_is_empty() {
    let cell = Cell::new(7);
    assert!(cell.items.is_empty());
    assert_eq!(cell.capacity, 7);
    assert_eq!(cell.used_space, 0);
    assert!(cell.list_items().is_none());
}

#[test]
fn put_item_fills_up_to_capacity_exactly() {
    let mut cell = Cell::new(15);
    assert!(cell.put_item(item("gold", 10)).is_ok());
    assert!(cell.put_item(item("silver", 5)).is_ok());
    assert_eq!(cell.used_space, 15);
    assert!(matches!(cell.put_item(item("dust", 1)), Err(CellError::Full)));
    assert_eq!(cell.used_space, 15);
    assert_eq!(cell.items.len(), 2);
}

#[test]
fn put_item_into_full_cell_changes_nothing() {
    let mut cell = Cell::new(100);
    cell.put_item(item("gold", 10)).unwrap();
    assert!(matches!(cell.put_item(item("rock", 95)), Err(CellError::Full)));
    assert_eq!(cell.used_space, 10);
    assert_eq!(cell.items.len(), 1);
    assert_eq!(cell.items[0].name, "gold");
}

#[test]
fn put_item_sizes_that_overflow_u32_are_refused() {
    let mut cell = Cell::new(u32::MAX);
    cell.put_item(item("big", u32::MAX)).unwrap();
    assert!(matches!(cell.put_item(item("more", 1)), Err(CellError::Full)));
    assert_eq!(cell.used_space, u32::MAX);
}

#[test]
fn list_items_describes_in_order() {
    let mut cell = Cell::new(100);
    cell.put_item(item("gold", 10)).unwrap();
    cell.put_item(item("silver", 5)).unwrap();
    assert_eq!(
        cell.list_items().unwrap(),
        "Items: gold: 10, silver: 5 | Used: 15/100\n"
    );
}

#[test]
fn take_removes_only_the_first_of_equal_names() {
    let mut cell = Cell::new(100);
    cell.put_item(item("gold", 10)).unwrap();
    cell.put_item(item("gold", 20)).unwrap();
    let taken = cell.take("gold").unwrap();
    assert_eq!(taken.size, 10);
    assert_eq!(cell.items.len(), 1);
    assert_eq!(cell.items[0].size, 20);
    assert_eq!(cell.used_space, 20);
}

#[test]
fn take_never_lowers_used_space_below_zero() {
    let mut cell = Cell { items: vec![item("gold", 10)], capacity: 100, used_space: 3 };
    let taken = cell.take("gold").unwrap();
    assert_eq!(taken.size, 10);
    assert_eq!(cell.used_space, 0);
}

#[test]
fn first_put_then_get_reports_the_item() {
    let mut vault = Vault::new(10);
    assert!(vault.put(4, item("gold", 10), 100).is_ok());
    assert_eq!(
        vault.get(4).unwrap().unwrap(),
        "Items: gold: 10 | Used: 10/100\n"
    );
}

#[test]
fn put_to_full_cell_fails_with_cell_full() {
    let mut vault = Vault::new(10);
    vault.put(1, item("gold", 10), 100).unwrap();
    assert!(matches!(vault.put(1, item("rock", 95), 100), Err(VaultError::CellFull)));
    let cell = &vault.cells[&1];
    assert_eq!(cell.used_space, 10);
    assert_eq!(cell.items.len(), 1);
}

#[test]
fn failed_put_keeps_the_new_empty_cell() {
    let mut vault = Vault::new(10);
    assert!(matches!(vault.put(3, item("rock", 200), 100), Err(VaultError::CellFull)));
    assert!(vault.cells.contains_key(&3));
    assert!(vault.get(3).unwrap().is_none());
}

#[test]
fn existing_cell_keeps_its_capacity() {
    let mut vault = Vault::new(10);
    vault.put(1, item("gold", 10), 100).unwrap();
    assert!(vault.put(1, item("rock", 95), 500).is_err());
    assert_eq!(vault.cells[&1].capacity, 100);
}

#[test]
fn vault_full_only_for_new_ids() {
    let mut vault = Vault::new(2);
    vault.put(1, item("a", 1), 100).unwrap();
    vault.put(2, item("b", 1), 100).unwrap();
    assert!(matches!(vault.put(3, item("c", 1), 100), Err(VaultError::VaultFull)));
    assert_eq!(vault.cells.len(), 2);
    assert!(vault.put(1, item("d", 1), 100).is_ok());
    assert!(vault.put(2, item("e", 1), 100).is_ok());
}

#[test]
fn vault_of_capacity_zero_refuses_every_id() {
    let mut vault = Vault::new(0);
    assert!(matches!(vault.put(1, item("a", 1), 100), Err(VaultError::VaultFull)));
    assert!(vault.list().is_none());
}

#[test]
fn get_of_missing_cell_fails() {
    let vault = Vault::new(10);
    assert!(matches!(vault.get(9), Err(VaultError::CellNotFound)));
}

#[test]
fn take_of_missing_cell_or_item_fails() {
    let mut vault = Vault::new(10);
    assert!(matches!(vault.take(9, "gold"), Err(VaultError::CellNotFound)));
    vault.put(9, item("gold", 1), 100).unwrap();
    assert!(matches!(vault.take(9, "silver"), Err(VaultError::ItemNotFound)));
    assert_eq!(vault.cells[&9].items.len(), 1);
}

#[test]
fn list_of_empty_vault_is_none() {
    let vault = Vault::new(10);
    assert!(vault.list().is_none());
}

#[test]
fn list_names_ids_in_ascending_order() {
    let mut vault = Vault::new(10);
    vault.put(42, item("a", 1), 100).unwrap();
    vault.put(7, item("b", 1), 100).unwrap();
    vault.put(1000, item("c", 1), 100).unwrap();
    assert_eq!(vault.list().unwrap(), "Occupied cells: 7, 42, 1000\n");
}

#[test]
fn put_get_take_round_trip() {
    let mut vault = Vault::new(10);
    vault.put(1, item("gold", 10), 100).unwrap();
    let text = vault.get(1).unwrap().unwrap();
    assert!(text.contains("gold: 10"));
    assert!(text.contains("Used: 10/100"));
    let taken = vault.take(1, "gold").unwrap();
    assert_eq!(taken.name, "gold");
    assert_eq!(taken.size, 10);
    assert!(vault.get(1).unwrap().is_none());
    assert_eq!(vault.list().unwrap(), "Occupied cells: 1\n");
}

#[test]
fn distinct_puts_beyond_capacity_fill_the_vault() {
    let mut vault = Vault::new(3);
    let mut ok = 0;
    let mut full = 0;
    for id in 0..8u32 {
        match vault.put(id, item("x", 1), 100) {
            Ok(()) => ok += 1,
            Err(VaultError::VaultFull) => full += 1,
            Err(_) => panic!("unexpected error"),
        }
    }
    assert_eq!(ok, 3);
    assert_eq!(full, 5);
    assert_eq!(vault.cells.len(), 3);
}
