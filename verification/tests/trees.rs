use yosys_netlist_json::json::{count_members, member, JsonNumber};
use yosys_netlist_json::objects::{optional, read_count, read_map, read_text, required};
use yosys_netlist_json::{
    AttributeVal, BitVal, Codec, Json, NameMap, Netlist, NetlistError, Port, PortDirection, Shape,
    Step,
};

fn text(s: &str) -> Json {
    Json::String(s.to_owned())
}

fn number(n: u64) -> Json {
    Json::Number(JsonNumber::unsigned(n))
}

fn object(members: Vec<(&str, Json)>) -> Json {
    Json::Object(members.into_iter().map(|(name, item)| (name.to_owned(), item)).collect())
}

fn members(tree: &Json) -> &Vec<(String, Json)> {
    match tree {
        Json::Object(members) => members,
        other => panic!("{:?}", other),
    }
}

#[test]
fn every_tree_has_its_shape() {
    assert_eq!(Json::Null.shape(), Shape::Null);
    assert_eq!(Json::Bool(false).shape(), Shape::Bool);
    assert_eq!(
        Json::Number(JsonNumber { unsigned: None, double: None }).shape(),
        Shape::Number
    );
    assert_eq!(number(1).shape(), Shape::Number);
    assert_eq!(text("").shape(), Shape::String);
    assert_eq!(Json::Array(vec![]).shape(), Shape::Array);
    assert_eq!(object(vec![]).shape(), Shape::Object);
}

#[test]
fn the_last_member_of_a_name_is_found() {
    let tree = object(vec![("a", text("1")), ("b", text("2")), ("a", text("3"))]);
    assert_eq!(member(members(&tree), "a"), Some(&text("3")));
    assert_eq!(member(members(&tree), "b"), Some(&text("2")));
    assert_eq!(member(members(&tree), "c"), None);
    assert_eq!(member(members(&object(vec![])), "a"), None);
}

#[test]
fn members_of_records_are_read_by_name() {
    let tree = object(vec![("n", number(4)), ("t", text("x")), ("m", object(vec![]))]);
    let all = members(&tree);
    assert_eq!(required::<usize>(all, "n"), Ok(4));
    assert_eq!(
        required::<usize>(all, "k"),
        Err(NetlistError::SchemaViolation {
            path: vec![Step::Key("k".to_owned())],
            found: Shape::Absent
        })
    );
    assert_eq!(
        required::<usize>(all, "t"),
        Err(NetlistError::SchemaViolation {
            path: vec![Step::Key("t".to_owned())],
            found: Shape::String
        })
    );
    assert_eq!(optional::<BitVal>(all, "n"), Ok(Some(BitVal::N(4))));
    assert_eq!(optional::<BitVal>(all, "k"), Ok(None));
    assert_eq!(
        optional::<BitVal>(all, "m"),
        Err(NetlistError::SchemaViolation {
            path: vec![Step::Key("m".to_owned())],
            found: Shape::Object
        })
    );
    assert_eq!(read_count(all, "n"), Ok(4));
    assert_eq!(read_count(all, "k"), Ok(0));
    assert_eq!(read_text(all, "t"), Ok("x".to_owned()));
    assert_eq!(read_text(all, "k"), Ok(String::new()));
    assert_eq!(read_map::<usize>(all, "m"), Ok(NameMap::new()));
    assert_eq!(read_map::<usize>(all, "k"), Ok(NameMap::new()));
    assert_eq!(
        read_map::<usize>(all, "n"),
        Err(NetlistError::SchemaViolation {
            path: vec![Step::Key("n".to_owned())],
            found: Shape::Number
        })
    );
}

#[test]
fn a_map_is_read_from_members_in_any_order() {
    let tree = object(vec![
        ("z", number(1)),
        ("a", text("two")),
        ("z", number(3)),
    ]);
    let map = NameMap::<AttributeVal>::from_json(&tree).unwrap();
    assert_eq!(map.len(), 2);
    assert_eq!(map.name_at(0), "a");
    assert_eq!(map.get("a"), Some(&AttributeVal::S("two".to_owned())));
    assert_eq!(map.get("z"), Some(&AttributeVal::N(3)));
    assert_eq!(
        map.to_json(),
        object(vec![("a", text("two")), ("z", number(3))])
    );
}

#[test]
fn the_first_member_that_cannot_be_read_stops_a_map() {
    let tree = object(vec![("b", Json::Null), ("a", Json::Bool(true))]);
    assert_eq!(
        NameMap::<AttributeVal>::from_json(&tree),
        Err(NetlistError::SchemaViolation {
            path: vec![Step::Key("b".to_owned())],
            found: Shape::Null
        })
    );
    assert_eq!(
        NameMap::<AttributeVal>::from_json(&Json::Array(vec![])),
        Err(NetlistError::SchemaViolation { path: vec![], found: Shape::Array })
    );
}

#[test]
fn the_first_item_that_cannot_be_read_stops_an_array() {
    let tree = Json::Array(vec![number(1), text("q"), Json::Null]);
    assert_eq!(
        Vec::<BitVal>::from_json(&tree),
        Err(NetlistError::UnrecognizedBitSymbol {
            path: vec![Step::Index(1)],
            symbol: "q".to_owned()
        })
    );
    assert_eq!(
        Vec::<BitVal>::from_json(&object(vec![])),
        Err(NetlistError::SchemaViolation { path: vec![], found: Shape::Object })
    );
    assert_eq!(Vec::<BitVal>::from_json(&Json::Array(vec![])), Ok(vec![]));
    assert_eq!(
        vec![BitVal::N(1), BitVal::N(2)].to_json(),
        Json::Array(vec![number(1), number(2)])
    );
}

#[test]
fn a_port_is_read_from_members_in_any_order() {
    let tree = object(vec![
        ("upto", number(1)),
        ("bits", Json::Array(vec![number(5)])),
        ("direction", text("inout")),
    ]);
    let port = Port::from_json(&tree).unwrap();
    assert_eq!(
        port,
        Port {
            direction: PortDirection::InOut,
            bits: vec![BitVal::N(5)],
            offset: 0,
            upto: 1,
            signed: 0
        }
    );
    assert_eq!(
        port.to_json(),
        object(vec![
            ("direction", text("inout")),
            ("bits", Json::Array(vec![number(5)])),
            ("offset", number(0)),
            ("upto", number(1)),
            ("signed", number(0)),
        ])
    );
}

#[test]
fn a_netlist_is_read_from_a_tree() {
    let tree = object(vec![("modules", object(vec![])), ("creator", text("by hand"))]);
    assert_eq!(Netlist::decode(&tree), Ok(Netlist::new("by hand")));
    assert_eq!(
        Netlist::decode(&number(1)),
        Err(NetlistError::SchemaViolation { path: vec![], found: Shape::Number })
    );
}

#[test]
fn the_members_of_a_name_are_counted() {
    let tree = object(vec![("a", text("1")), ("b", text("2")), ("a", text("3"))]);
    assert_eq!(count_members(members(&tree), "a"), 2);
    assert_eq!(count_members(members(&tree), "b"), 1);
    assert_eq!(count_members(members(&tree), "c"), 0);
    assert_eq!(count_members(members(&object(vec![])), "a"), 0);
}

#[test]
fn a_record_that_repeats_a_member_is_refused() {
    let repeated = |name: &str| NetlistError::SchemaViolation {
        path: vec![Step::Key(name.to_owned())],
        found: Shape::Repeated,
    };
    let tree = object(vec![("creator", text("a")), ("creator", text("b"))]);
    assert_eq!(Netlist::decode(&tree), Err(repeated("creator")));
    let tree = object(vec![
        ("modules", object(vec![])),
        ("creator", text("a")),
        ("modules", Json::Null),
    ]);
    assert_eq!(Netlist::decode(&tree), Err(repeated("modules")));
    let tree = object(vec![
        ("direction", text("input")),
        ("bits", Json::Array(vec![])),
        ("offset", number(1)),
        ("offset", number(1)),
    ]);
    assert_eq!(Port::from_json(&tree), Err(repeated("offset")));
    let all = object(vec![("n", number(1)), ("n", number(2)), ("m", number(3))]);
    assert_eq!(required::<usize>(members(&all), "n"), Err(repeated("n")));
    assert_eq!(optional::<usize>(members(&all), "n"), Err(repeated("n")));
    assert_eq!(read_count(members(&all), "n"), Err(repeated("n")));
    assert_eq!(read_count(members(&all), "m"), Ok(3));
}

#[test]
fn a_repeated_member_that_the_format_does_not_know_is_passed_over() {
    let tree = object(vec![("x", Json::Null), ("creator", text("a")), ("x", number(1))]);
    assert_eq!(Netlist::decode(&tree), Ok(Netlist::new("a")));
}

#[test]
fn of_two_entries_of_a_map_with_one_name_the_later_counts() {
    let tree = object(vec![("k", number(1)), ("k", number(2))]);
    let map = NameMap::<usize>::from_json(&tree).unwrap();
    assert_eq!(map.len(), 1);
    assert_eq!(map.get("k"), Some(&2));
}
