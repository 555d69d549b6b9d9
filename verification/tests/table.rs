use four_in_a_row::table::{TranspositionTable, CAPACITY};

#[test]
fn capacity_is_two_to_the_24() {
    assert_eq!(CAPACITY, 1usize << 24);
}

#[test]
fn hash_is_key_mod_capacity() {
    assert_eq!(TranspositionTable::hash(0), 0);
    assert_eq!(TranspositionTable::hash(5), 5);
    assert_eq!(TranspositionTable::hash((1u128 << 24) - 1), (1usize << 24) - 1);
    assert_eq!(TranspositionTable::hash(1u128 << 24), 0);
    assert_eq!(TranspositionTable::hash((1u128 << 24) + 7), 7);
    assert_eq!(TranspositionTable::hash(u128::MAX), (1usize << 24) - 1);
    assert_eq!(TranspositionTable::hash(0x010101010101010101u128), 0x010101);
}

#[test]
fn new_table_finds_nothing_but_key_zero() {
    let table: TranspositionTable = TranspositionTable::new();
    assert_eq!(table.get(1), None);
    assert_eq!(table.get(0x010101010101010101u128), None);
    assert_eq!(table.get(1u128 << 24), None);
    assert_eq!(table.get(u128::MAX), None);
    assert_eq!(table.get(0), Some(0));
}

#[test]
fn get_returns_what_put_stored() {
    let mut table: TranspositionTable = TranspositionTable::new();
    table.put(42, -7);
    assert_eq!(table.get(42), Some(-7));
    table.put(42, 100);
    assert_eq!(table.get(42), Some(100));
    table.put(43, 5);
    assert_eq!(table.get(42), Some(100));
    assert_eq!(table.get(43), Some(5));
    table.put(u128::MAX, -128);
    assert_eq!(table.get(u128::MAX), Some(-128));
}

#[test]
fn get_never_answers_for_a_key_that_was_not_stored() {
    let mut table: TranspositionTable = TranspositionTable::new();
    for key in 1..1000u128 {
        table.put(key * 3, (key % 100) as i8);
    }
    for key in 1..3000u128 {
        if key % 3 == 0 {
            assert_eq!(table.get(key), Some(((key / 3) % 100) as i8));
        } else {
            assert_eq!(table.get(key), None);
        }
    }
}

#[test]
fn colliding_key_evicts_and_is_not_confused() {
    let mut table: TranspositionTable = TranspositionTable::new();
    let first: u128 = 77;
    let second: u128 = 77 + (1u128 << 24);
    let third: u128 = 77 + (5u128 << 24);
    assert_eq!(TranspositionTable::hash(first), TranspositionTable::hash(second));
    table.put(first, 11);
    assert_eq!(table.get(second), None);
    assert_eq!(table.get(third), None);
    table.put(second, 22);
    assert_eq!(table.get(first), None);
    assert_eq!(table.get(second), Some(22));
    assert_eq!(table.get(third), None);
    table.put(first, 33);
    assert_eq!(table.get(first), Some(33));
    assert_eq!(table.get(second), None);
}

#[test]
fn storing_in_slot_zero_evicts_key_zero() {
    let mut table: TranspositionTable = TranspositionTable::new();
    table.put(1u128 << 24, 9);
    assert_eq!(table.get(0), None);
    assert_eq!(table.get(1u128 << 24), Some(9));
}
