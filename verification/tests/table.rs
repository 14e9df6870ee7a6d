use smoldot_core::table::Table;

#[test]
fn empty_table_has_no_value() {
    let table: Table<String> = Table::with_capacity(4);
    assert_eq!(table.get(0), None);
    assert_eq!(table.get(u64::MAX), None);
}

#[test]
fn value_is_found_by_its_key() {
    let mut table: Table<String> = Table::with_capacity(0);
    assert_eq!(table.insert(7, String::from("seven")), None);
    assert_eq!(table.insert(u64::MAX, String::from("last")), None);
    assert_eq!(table.get(7), Some(&String::from("seven")));
    assert_eq!(table.get(u64::MAX), Some(&String::from("last")));
    assert_eq!(table.get(8), None);
}

#[test]
fn insert_returns_the_value_that_the_key_had() {
    let mut table: Table<u32> = Table::with_capacity(2);
    assert_eq!(table.insert(1, 10), None);
    assert_eq!(table.insert(2, 20), None);
    assert_eq!(table.insert(1, 11), Some(10));
    assert_eq!(table.get(1), Some(&11));
    assert_eq!(table.get(2), Some(&20));
}

#[test]
fn removed_value_is_returned_and_found_no_more() {
    let mut table: Table<u32> = Table::with_capacity(2);
    table.insert(1, 10);
    table.insert(2, 20);
    table.insert(3, 30);
    assert_eq!(table.remove(2), Some(20));
    assert_eq!(table.remove(2), None);
    assert_eq!(table.remove(9), None);
    assert_eq!(table.get(2), None);
    assert_eq!(table.get(1), Some(&10));
    assert_eq!(table.get(3), Some(&30));
}

#[test]
fn places_are_used_again_without_mixing_values_up() {
    let mut table: Table<u64> = Table::with_capacity(1);
    for key in 0..64u64 {
        assert_eq!(table.insert(key, key * 3), None);
    }
    for key in (0..64u64).filter(|key| key % 2 == 0) {
        assert_eq!(table.remove(key), Some(key * 3));
    }
    for key in 100..140u64 {
        assert_eq!(table.insert(key, key + 1), None);
    }
    for key in 0..64u64 {
        let expected = if key % 2 == 0 { None } else { Some(key * 3) };
        assert_eq!(table.get(key).copied(), expected);
    }
    for key in 100..140u64 {
        assert_eq!(table.get(key), Some(&(key + 1)));
    }
}
