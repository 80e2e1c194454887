use yosys_netlist_json::name_order::{place, same_name, Placement};
use yosys_netlist_json::NameMap;

#[test]
fn names_are_placed_byte_by_byte() {
    assert_eq!(place("a", "b"), Placement::Before);
    assert_eq!(place("b", "a"), Placement::After);
    assert_eq!(place("a", "a"), Placement::Same);
    assert_eq!(place("", ""), Placement::Same);
    assert_eq!(place("", "a"), Placement::Before);
    assert_eq!(place("a", ""), Placement::After);
    assert_eq!(place("ab", "abc"), Placement::Before);
    assert_eq!(place("abd", "abc"), Placement::After);
    assert_eq!(place("Z", "a"), Placement::Before);
    assert_eq!(place("$x", "a"), Placement::Before);
    assert_eq!(place("z", "é"), Placement::Before);
}

#[test]
fn placement_agrees_with_the_order_of_strings() {
    let names = ["", "a", "A", "ab", "b", "$1", "port", "ports", "é", "日本", "z", "a b"];
    for a in names {
        for b in names {
            let expected = if a < b {
                Placement::Before
            } else if a == b {
                Placement::Same
            } else {
                Placement::After
            };
            assert_eq!(place(a, b), expected, "{:?} {:?}", a, b);
            assert_eq!(same_name(a, b), a == b);
        }
    }
}

#[test]
fn an_empty_map_holds_nothing() {
    let map: NameMap<u32> = NameMap::new();
    assert_eq!(map.len(), 0);
    assert!(map.is_empty());
    assert_eq!(map.get("a"), None);
    assert!(!map.contains_key(""));
    assert_eq!(NameMap::<u32>::default(), map);
}

#[test]
fn insert_keeps_the_names_in_order() {
    let mut map: NameMap<u32> = NameMap::new();
    for (name, value) in [("m", 1), ("b", 2), ("z", 3), ("a", 4), ("n", 5)] {
        assert_eq!(map.insert(name.to_owned(), value), None);
    }
    assert_eq!(map.len(), 5);
    assert!(!map.is_empty());
    let names: Vec<&str> = (0..map.len()).map(|i| map.name_at(i).as_str()).collect();
    assert_eq!(names, vec!["a", "b", "m", "n", "z"]);
    let values: Vec<u32> = (0..map.len()).map(|i| *map.value_at(i)).collect();
    assert_eq!(values, vec![4, 2, 1, 5, 3]);
    assert_eq!(map.get("m"), Some(&1));
    assert_eq!(map.get("a"), Some(&4));
    assert_eq!(map.get("z"), Some(&3));
    assert_eq!(map.get("c"), None);
    assert_eq!(map.get(""), None);
    assert!(map.contains_key("n"));
    assert!(!map.contains_key("nn"));
}

#[test]
fn insert_replaces_the_value_of_a_name() {
    let mut map: NameMap<&str> = NameMap::new();
    assert_eq!(map.insert("k".to_owned(), "first"), None);
    assert_eq!(map.insert("j".to_owned(), "other"), None);
    assert_eq!(map.insert("k".to_owned(), "second"), Some("first"));
    assert_eq!(map.len(), 2);
    assert_eq!(map.get("k"), Some(&"second"));
    assert_eq!(map.get("j"), Some(&"other"));
    assert_eq!(map.name_at(0), "j");
    assert_eq!(map.name_at(1), "k");
}

#[test]
fn maps_are_equal_whatever_the_order_of_insertion() {
    let mut one: NameMap<u8> = NameMap::new();
    let mut other: NameMap<u8> = NameMap::new();
    for name in ["c", "a", "b"] {
        one.insert(name.to_owned(), 0);
    }
    for name in ["b", "c", "a"] {
        other.insert(name.to_owned(), 0);
    }
    assert_eq!(one, other);
    assert_eq!(one.clone(), other);
    other.insert("a".to_owned(), 1);
    assert_ne!(one, other);
}

#[test]
fn many_names_are_found_again() {
    let mut map: NameMap<usize> = NameMap::new();
    for i in 0..500 {
        let name = format!("net{}", (i * 7919) % 1000);
        map.insert(name, i);
    }
    assert_eq!(map.len(), 500);
    for i in 0..500 {
        let name = format!("net{}", (i * 7919) % 1000);
        assert_eq!(map.get(&name), Some(&i));
    }
    for i in 1..map.len() {
        assert!(map.name_at(i - 1) < map.name_at(i));
    }
}

#[test]
fn remove_takes_one_entry_out() {
    let mut map: NameMap<u32> = NameMap::new();
    for (name, value) in [("c", 3), ("a", 1), ("b", 2)] {
        map.insert(name.to_owned(), value);
    }
    assert_eq!(map.remove("b"), Some(2));
    assert_eq!(map.remove("b"), None);
    assert_eq!(map.remove("x"), None);
    assert_eq!(map.len(), 2);
    assert_eq!(map.get("a"), Some(&1));
    assert_eq!(map.get("b"), None);
    assert_eq!(map.get("c"), Some(&3));
    assert_eq!(map.name_at(0), "a");
    assert_eq!(map.name_at(1), "c");
    assert_eq!(map.remove("a"), Some(1));
    assert_eq!(map.remove("c"), Some(3));
    assert!(map.is_empty());
    assert_eq!(map, NameMap::new());
}
