use virtdir::table::Table;

#[test]
fn a_new_table_is_empty() {
    let table: Table<u32> = Table::new();
    assert_eq!(table.len(), 0);
    assert!(table.get(&"a".to_string()).is_none());
}

#[test]
fn insert_binds_and_rebinds() {
    let table = Table::new().insert("a".to_string(), 1u32).insert("b".to_string(), 2);
    assert_eq!(table.len(), 2);
    assert_eq!(table.get(&"a".to_string()), Some(&1));
    assert_eq!(table.get(&"b".to_string()), Some(&2));
    let table = table.insert("a".to_string(), 3);
    assert_eq!(table.len(), 2);
    assert_eq!(table.get(&"a".to_string()), Some(&3));
    assert_eq!(table.entry(0), (&"a".to_string(), &3));
    assert_eq!(table.entry(1), (&"b".to_string(), &2));
}

#[test]
fn clone_copies_every_entry() {
    let table = Table::new().insert("a".to_string(), 1u32).insert("b".to_string(), 2);
    let copy = table.clone();
    assert_eq!(copy.len(), 2);
    assert_eq!(copy.entry(0), (&"a".to_string(), &1));
    assert_eq!(copy.entry(1), (&"b".to_string(), &2));
}
