use mcpm::table::Table;

#[test]
fn table_keeps_the_order_of_first_insertion() {
    let mut table: Table<u32> = Table::new();
    assert_eq!(table.len(), 0);
    table.insert("b".to_string(), 1);
    table.insert("a".to_string(), 2);
    table.insert("c".to_string(), 3);
    assert_eq!(table.len(), 3);
    assert_eq!(table.key_at(0), "b");
    assert_eq!(table.key_at(1), "a");
    assert_eq!(table.key_at(2), "c");
    assert_eq!(*table.value_at(1), 2);
}

#[test]
fn written_key_keeps_its_place() {
    let mut table: Table<u32> = Table::new();
    table.insert("b".to_string(), 1);
    table.insert("a".to_string(), 2);
    table.insert("b".to_string(), 9);
    assert_eq!(table.len(), 2);
    assert_eq!(table.key_at(0), "b");
    assert_eq!(table.get("b"), Some(&9));
    assert_eq!(table.get("a"), Some(&2));
    assert_eq!(table.get("B"), None);
    assert_eq!(table.find("a"), Some(1));
    assert!(table.contains_key("a"));
    assert!(!table.contains_key(""));
}

#[test]
fn removal_closes_the_gap() {
    let mut table: Table<u32> = Table::new();
    table.insert("x".to_string(), 1);
    table.insert("y".to_string(), 2);
    table.insert("z".to_string(), 3);
    assert_eq!(table.remove("y"), Some(2));
    assert_eq!(table.remove("y"), None);
    assert_eq!(table.len(), 2);
    assert_eq!(table.key_at(1), "z");
    assert_eq!(table.get("y"), None);
    assert_eq!(table.get("z"), Some(&3));
}
