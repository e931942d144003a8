use rlox::objects::LoxString;
use rlox::table::Table;
use rlox::value::Value;

fn load_n(table: &mut Table, n: usize) {
    for i in 0..n {
        table.set(LoxString::new(&format!("a{}", i)), Value::Bool(true));
    }
}

#[test]
fn test_new() {
    let table = Table::new();
    assert_eq!(table.count(), 0);
    assert_eq!(table.capacity(), 0);
    assert!(table.entries().is_empty());
}

#[test]
fn test_set_once() {
    let mut table = Table::new();
    table.set(LoxString::new("a"), Value::Bool(true));

    assert_eq!(table.count(), 1);
    assert_eq!(table.capacity(), 8);
    assert!(!table.entries().is_empty());
}

#[test]
fn test_set_twice() {
    let mut table = Table::new();
    table.set(LoxString::new("a"), Value::Bool(true));

    assert_eq!(table.get(&LoxString::new("a")), Some(Value::Bool(true)));

    table.set(LoxString::new("a"), Value::Number(1.0f64.to_bits()));
    assert_eq!(table.get(&LoxString::new("a")), Some(Value::Number(1.0f64.to_bits())));
}

#[test]
fn test_get() {
    let mut table = Table::new();
    table.set(LoxString::new("a"), Value::Bool(true));
    table.set(LoxString::new("b"), Value::Number(23.0f64.to_bits()));

    assert_eq!(table.get(&LoxString::new("a")), Some(Value::Bool(true)));
    assert_eq!(table.get(&LoxString::new("b")), Some(Value::Number(23.0f64.to_bits())));
    assert_eq!(table.get(&LoxString::new("c")), None);
}

#[test]
fn test_grow() {
    let mut table = Table::new();
    load_n(&mut table, 9);
    assert_eq!(table.count(), 9);
    assert_eq!(table.capacity(), 16);

    let mut table2 = Table::new();
    load_n(&mut table2, 17);
    assert_eq!(table2.count(), 17);
    assert_eq!(table2.capacity(), 32);

    let mut table3 = Table::new();
    load_n(&mut table3, 33);
    assert_eq!(table3.count(), 33);
    assert_eq!(table3.capacity(), 64);

    let mut table4 = Table::new();
    load_n(&mut table4, 65);
    assert_eq!(table4.count(), 65);
    assert_eq!(table4.capacity(), 128);
}

#[test]
fn test_drop() {
    for i in 0..50 {
        let mut table = Table::new();
        table.set(LoxString::from_string(&format!("key {}", i)), Value::Bool(true));
    }
}

#[test]
fn test_delete() {
    let mut table = Table::new();

    table.set(LoxString::new("a"), Value::Bool(true));
    table.set(LoxString::new("b"), Value::Bool(true));
    table.set(LoxString::new("c"), Value::Bool(true));

    assert_eq!(table.get(&LoxString::new("a")), Some(Value::Bool(true)));

    table.delete(&LoxString::new("a"));
    assert_eq!(table.get(&LoxString::new("a")), None);

    assert_eq!(table.get(&LoxString::new("b")), Some(Value::Bool(true)));

    table.delete(&LoxString::new("b"));
    assert_eq!(table.get(&LoxString::new("b")), None);

    assert_eq!(table.get(&LoxString::new("c")), Some(Value::Bool(true)));

    table.delete(&LoxString::new("c"));
    assert_eq!(table.get(&LoxString::new("c")), None);
}

#[test]
fn test_add_table() {
    let mut table = Table::new();
    let mut table2 = Table::new();

    table.set(LoxString::new("a"), Value::Bool(true));
    table.set(LoxString::new("b"), Value::Bool(true));
    table.set(LoxString::new("c"), Value::Bool(true));

    table2.set(LoxString::new("d"), Value::Bool(true));
    table2.set(LoxString::new("e"), Value::Bool(true));
    table2.set(LoxString::new("f"), Value::Bool(true));

    table.add_table(&table2);

    assert_eq!(table.get(&LoxString::new("a")), Some(Value::Bool(true)));
    assert_eq!(table.get(&LoxString::new("b")), Some(Value::Bool(true)));
    assert_eq!(table.get(&LoxString::new("c")), Some(Value::Bool(true)));
    assert_eq!(table.get(&LoxString::new("d")), Some(Value::Bool(true)));
    assert_eq!(table.get(&LoxString::new("e")), Some(Value::Bool(true)));
    assert_eq!(table.get(&LoxString::new("f")), Some(Value::Bool(true)));
}

#[test]
fn set_says_whether_the_key_is_new() {
    let mut table = Table::new();
    assert!(table.set(LoxString::new("a"), Value::Nil));
    assert!(!table.set(LoxString::new("a"), Value::Bool(false)));
    assert_eq!(table.get(&LoxString::new("a")), Some(Value::Bool(false)));
    assert!(table.delete(&LoxString::new("a")));
    assert!(!table.delete(&LoxString::new("a")));
    assert!(table.set(LoxString::new("a"), Value::Nil));
}

#[test]
fn a_tombstone_is_used_again_and_counts_once() {
    let mut table = Table::new();
    table.set(LoxString::new("a"), Value::Bool(true));
    table.set(LoxString::new("b"), Value::Bool(true));
    assert_eq!(table.count(), 2);
    table.delete(&LoxString::new("a"));
    // The tombstone still counts as an occupied slot.
    assert_eq!(table.count(), 2);
    table.set(LoxString::new("a"), Value::Bool(false));
    assert_eq!(table.count(), 2);
    assert_eq!(table.get(&LoxString::new("b")), Some(Value::Bool(true)));
}

#[test]
fn keys_behind_a_tombstone_are_still_found() {
    // With 8 slots some of these keys share a home slot; deleting any one
    // of them must not hide the others.
    let names = ["a0", "a1", "a2", "a3", "a4", "a5"];
    for gone in 0..names.len() {
        let mut table = Table::new();
        for name in names.iter() {
            table.set(LoxString::new(name), Value::Bool(true));
        }
        assert_eq!(table.capacity(), 8);
        table.delete(&LoxString::new(names[gone]));
        for (i, name) in names.iter().enumerate() {
            let expected = if i == gone { None } else { Some(Value::Bool(true)) };
            assert_eq!(table.get(&LoxString::new(name)), expected);
        }
    }
}

#[test]
fn growing_drops_the_tombstones() {
    let mut table = Table::new();
    load_n(&mut table, 6);
    for i in 0..6 {
        table.delete(&LoxString::new(&format!("a{}", i)));
    }
    assert_eq!(table.count(), 6);
    assert_eq!(table.capacity(), 8);
    table.set(LoxString::new("z"), Value::Nil);
    assert_eq!(table.capacity(), 16);
    assert_eq!(table.count(), 1);
}

#[test]
fn find_string_finds_by_content_and_hash() {
    let mut table = Table::new();
    let key = LoxString::new("hello");
    table.set(key.clone(), Value::Nil);
    let found = table.find_string(b"hello", key.hash).unwrap();
    assert!(std::rc::Rc::ptr_eq(&found, &key));
    assert!(table.find_string(b"hello", key.hash ^ 1).is_none());
    assert!(table.find_string(b"hellp", key.hash).is_none());
    assert!(Table::new().find_string(b"hello", key.hash).is_none());
}

#[test]
fn iter_gives_the_live_entries() {
    let mut table = Table::new();
    load_n(&mut table, 5);
    table.delete(&LoxString::new("a2"));
    let mut entries = table.iter();
    let mut names: Vec<Vec<u8>> = Vec::new();
    while let Some(entry) = entries.next() {
        names.push(entry.key.unwrap().value.clone());
    }
    names.sort();
    let expected: Vec<Vec<u8>> =
        vec![b"a0".to_vec(), b"a1".to_vec(), b"a3".to_vec(), b"a4".to_vec()];
    assert_eq!(names, expected);
}

#[test]
fn the_hash_is_fnv1a_of_the_bytes() {
    assert_eq!(LoxString::new("").hash, 2166136261usize);
    let expected = (2166136261usize ^ 0x61).wrapping_mul(16777619);
    assert_eq!(LoxString::new("a").hash, expected);
    assert_eq!(LoxString::from_string("a").value, b"a".to_vec());
    let two = (expected ^ 0x62).wrapping_mul(16777619);
    assert_eq!(LoxString::from_bytes(b"ab").hash, two);
}
