use chalk::table::SortedTable;

#[test]
fn insert_then_get_reads_back() {
    let mut t: SortedTable<u32> = SortedTable::new();
    t.insert("b".to_string(), 2);
    t.insert("a".to_string(), 1);
    t.insert("c".to_string(), 3);
    t.insert("b".to_string(), 20);
    assert_eq!(t.len(), 3);
    assert_eq!(t.get("b"), Some(&20));
    assert_eq!(t.get("a"), Some(&1));
    assert_eq!(t.get("d"), None);
    assert_eq!(t.key_at(0), "a");
    assert_eq!(t.key_at(1), "b");
    assert_eq!(t.key_at(2), "c");
}

#[test]
fn keys_sort_by_character() {
    let t = SortedTable::from_entries(vec![
        ("é".to_string(), 1),
        ("Z".to_string(), 2),
        ("a".to_string(), 3),
        ("ab".to_string(), 4),
        ("".to_string(), 5),
    ]);
    let keys: Vec<&str> = (0..t.len()).map(|i| t.key_at(i).as_str()).collect();
    let mut expected = vec!["é", "Z", "a", "ab", ""];
    expected.sort();
    assert_eq!(keys, expected);
}

#[test]
fn last_entry_wins() {
    let t = SortedTable::from_entries(vec![("x".to_string(), 1), ("y".to_string(), 2), ("x".to_string(), 3)]);
    assert_eq!(t.len(), 2);
    assert_eq!(t.get("x"), Some(&3));
    assert!(t.contains_key("y"));
    assert!(!t.contains_key("z"));
}

#[test]
fn same_keys_compares_in_order() {
    let a = SortedTable::from_entries(vec![("x".to_string(), 1), ("y".to_string(), 2)]);
    let b = SortedTable::from_entries(vec![("y".to_string(), "p"), ("x".to_string(), "q")]);
    let c = SortedTable::from_entries(vec![("x".to_string(), 0u8)]);
    assert!(a.same_keys(&b));
    assert!(!a.same_keys(&c));
}
