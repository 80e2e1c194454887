use yosys_netlist_json::json::JsonNumber;
use yosys_netlist_json::{
    AttributeVal, BitVal, Codec, Json, NetlistError, PortDirection, Shape, SpecialBit,
};

fn text(s: &str) -> Json {
    Json::String(s.to_owned())
}

fn number(n: u64) -> Json {
    Json::Number(JsonNumber::unsigned(n))
}

fn double(x: f64) -> Json {
    Json::Number(JsonNumber { unsigned: None, double: Some(x.to_bits()) })
}

#[test]
fn bit_values_decode_from_numbers_and_symbols() {
    assert_eq!(BitVal::from_json(&number(0)), Ok(BitVal::N(0)));
    assert_eq!(BitVal::from_json(&number(234)), Ok(BitVal::N(234)));
    assert_eq!(BitVal::from_json(&text("x")), Ok(BitVal::S(SpecialBit::X)));
    assert_eq!(BitVal::from_json(&text("z")), Ok(BitVal::S(SpecialBit::Z)));
    assert_eq!(BitVal::from_json(&text("1")), Ok(BitVal::S(SpecialBit::_1)));
    assert_eq!(BitVal::from_json(&text("0")), Ok(BitVal::S(SpecialBit::_0)));
}

#[test]
fn bit_value_rejects_other_strings() {
    for symbol in ["w", "", "00", "X", "Z", "x ", "01", "é"] {
        assert_eq!(
            BitVal::from_json(&text(symbol)),
            Err(NetlistError::UnrecognizedBitSymbol { path: vec![], symbol: symbol.to_owned() })
        );
    }
}

#[test]
fn bit_value_rejects_other_kinds() {
    let misfit = |found| Err(NetlistError::SchemaViolation { path: vec![], found });
    assert_eq!(BitVal::from_json(&Json::Null), misfit(Shape::Null));
    assert_eq!(BitVal::from_json(&Json::Bool(true)), misfit(Shape::Bool));
    assert_eq!(BitVal::from_json(&Json::Array(vec![])), misfit(Shape::Array));
    assert_eq!(BitVal::from_json(&Json::Object(vec![])), misfit(Shape::Object));
    assert_eq!(BitVal::from_json(&double(-1.0)), misfit(Shape::Number));
    assert_eq!(BitVal::from_json(&double(0.5)), misfit(Shape::Number));
    assert_eq!(
        BitVal::from_json(&double(18446744073709551616.0)),
        Err(NetlistError::NumericOverflow { path: vec![] })
    );
}

#[test]
fn bit_values_encode() {
    assert_eq!(BitVal::N(7).to_json(), number(7));
    assert_eq!(BitVal::S(SpecialBit::_0).to_json(), text("0"));
    assert_eq!(BitVal::S(SpecialBit::_1).to_json(), text("1"));
    assert_eq!(BitVal::S(SpecialBit::X).to_json(), text("x"));
    assert_eq!(BitVal::S(SpecialBit::Z).to_json(), text("z"));
}

#[test]
fn special_bit_symbols() {
    for bit in [SpecialBit::_0, SpecialBit::_1, SpecialBit::X, SpecialBit::Z] {
        assert_eq!(SpecialBit::from_symbol(bit.to_symbol()), Some(bit));
    }
    assert_eq!(SpecialBit::X.to_symbol(), "x");
    assert_eq!(SpecialBit::from_symbol("y"), None);
}

#[test]
fn port_directions_decode_and_encode() {
    assert_eq!(PortDirection::from_json(&text("input")), Ok(PortDirection::Input));
    assert_eq!(PortDirection::from_json(&text("output")), Ok(PortDirection::Output));
    assert_eq!(PortDirection::from_json(&text("inout")), Ok(PortDirection::InOut));
    assert_eq!(PortDirection::InOut.to_json(), text("inout"));
    assert_eq!(
        PortDirection::from_json(&text("Input")),
        Err(NetlistError::SchemaViolation { path: vec![], found: Shape::String })
    );
    assert_eq!(
        PortDirection::from_json(&number(1)),
        Err(NetlistError::SchemaViolation { path: vec![], found: Shape::Number })
    );
}

#[test]
fn attribute_values_decode() {
    assert_eq!(AttributeVal::from_json(&number(123)), Ok(AttributeVal::N(123)));
    let digits = "00000000000000001010010001010101";
    let decoded = AttributeVal::from_json(&text(digits)).unwrap();
    assert_eq!(decoded, AttributeVal::S(digits.to_owned()));
    assert_eq!(decoded.to_number(), Some(42069));
    assert_eq!(
        AttributeVal::from_json(&Json::Array(vec![number(123)])),
        Err(NetlistError::SchemaViolation { path: vec![], found: Shape::Array })
    );
    assert_eq!(AttributeVal::from_json(&text("")), Ok(AttributeVal::S(String::new())));
    assert_eq!(
        AttributeVal::from_json(&text("any \"text\" at all")),
        Ok(AttributeVal::S("any \"text\" at all".to_owned()))
    );
    assert_eq!(
        AttributeVal::from_json(&Json::Null),
        Err(NetlistError::SchemaViolation { path: vec![], found: Shape::Null })
    );
    assert_eq!(
        AttributeVal::from_json(&double(1.5)),
        Err(NetlistError::SchemaViolation { path: vec![], found: Shape::Number })
    );
    assert_eq!(
        AttributeVal::from_json(&double(1e30)),
        Err(NetlistError::NumericOverflow { path: vec![] })
    );
}

#[test]
fn attribute_values_encode_as_given() {
    assert_eq!(AttributeVal::N(5).to_json(), number(5));
    assert_eq!(AttributeVal::S("0101".to_owned()).to_json(), text("0101"));
}

#[test]
fn to_number_reads_numbers_and_binary_strings() {
    assert_eq!(AttributeVal::S(String::new()).to_number(), Some(0));
    assert_eq!(AttributeVal::N(5).to_number(), Some(5));
    assert_eq!(AttributeVal::S("101".to_owned()).to_number(), Some(5));
    assert_eq!(AttributeVal::S("12".to_owned()).to_number(), None);
    assert_eq!(AttributeVal::S("0".to_owned()).to_number(), Some(0));
    assert_eq!(AttributeVal::S("1".to_owned()).to_number(), Some(1));
    assert_eq!(AttributeVal::S("0001".to_owned()).to_number(), Some(1));
    assert_eq!(AttributeVal::S("1000".to_owned()).to_number(), Some(8));
}

#[test]
fn to_number_rejects_anything_but_binary_digits() {
    for s in ["+101", "-1", " 1", "1 ", "0b1", "x", "10z", "1_0", "١"] {
        assert_eq!(AttributeVal::S(s.to_owned()).to_number(), None, "{:?}", s);
    }
}

#[test]
fn to_number_at_the_limit_of_the_machine() {
    let width = usize::BITS as usize;
    let ones = "1".repeat(width);
    assert_eq!(AttributeVal::S(ones.clone()).to_number(), Some(usize::MAX));
    assert_eq!(AttributeVal::S(format!("1{}", "0".repeat(width))).to_number(), None);
    assert_eq!(AttributeVal::S(format!("{}0", ones)).to_number(), None);
    assert_eq!(
        AttributeVal::S(format!("{}{}", "0".repeat(100), ones)).to_number(),
        Some(usize::MAX)
    );
    assert_eq!(AttributeVal::S(format!("1{}x", "0".repeat(width))).to_number(), None);
}

#[test]
fn to_string_if_string_tells_text_from_digits() {
    assert_eq!(AttributeVal::N(3).to_string_if_string(), None);
    assert_eq!(AttributeVal::S(String::new()).to_string_if_string(), None);
    assert_eq!(AttributeVal::S("01x1z0".to_owned()).to_string_if_string(), None);
    assert_eq!(AttributeVal::S("hello ".to_owned()).to_string_if_string(), Some("hello"));
    assert_eq!(AttributeVal::S("hello".to_owned()).to_string_if_string(), Some("hello"));
}

#[test]
fn to_string_if_string_strips_one_space_only() {
    assert_eq!(AttributeVal::S("hello  ".to_owned()).to_string_if_string(), Some("hello "));
    assert_eq!(AttributeVal::S(" ".to_owned()).to_string_if_string(), Some(""));
    assert_eq!(AttributeVal::S("01 ".to_owned()).to_string_if_string(), Some("01"));
    assert_eq!(AttributeVal::S(" hello".to_owned()).to_string_if_string(), Some(" hello"));
    assert_eq!(AttributeVal::S("0".to_owned()).to_string_if_string(), None);
    assert_eq!(AttributeVal::S("xz".to_owned()).to_string_if_string(), None);
    assert_eq!(AttributeVal::S("0y".to_owned()).to_string_if_string(), Some("0y"));
    assert_eq!(AttributeVal::S("grüße ".to_owned()).to_string_if_string(), Some("grüße"));
    assert_eq!(AttributeVal::S("日本".to_owned()).to_string_if_string(), Some("日本"));
}

#[test]
fn both_readings_of_one_value() {
    let value = AttributeVal::S("0110".to_owned());
    assert_eq!(value.to_number(), Some(6));
    assert_eq!(value.to_string_if_string(), None);
    let value = AttributeVal::S("src.v:1".to_owned());
    assert_eq!(value.to_number(), None);
    assert_eq!(value.to_string_if_string(), Some("src.v:1"));
}

#[test]
fn counts_and_texts_decode() {
    assert_eq!(usize::from_json(&number(9)), Ok(9));
    assert_eq!(
        usize::from_json(&double(-3.0)),
        Err(NetlistError::SchemaViolation { path: vec![], found: Shape::Number })
    );
    assert_eq!(
        usize::from_json(&text("9")),
        Err(NetlistError::SchemaViolation { path: vec![], found: Shape::String })
    );
    assert_eq!(String::from_json(&text("abc")), Ok("abc".to_owned()));
    assert_eq!(
        String::from_json(&Json::Bool(false)),
        Err(NetlistError::SchemaViolation { path: vec![], found: Shape::Bool })
    );
}

#[test]
fn scalars_are_written_as_they_were_read() {
    let trees = [
        number(0),
        number(42069),
        text(""),
        text("0101"),
        text("x"),
        text("some text "),
    ];
    for tree in trees {
        assert_eq!(AttributeVal::from_json(&tree).unwrap().to_json(), tree);
    }
    for tree in [number(17), text("0"), text("1"), text("x"), text("z")] {
        assert_eq!(BitVal::from_json(&tree).unwrap().to_json(), tree);
    }
}

#[test]
fn what_reads_as_a_number_does_not_read_as_text() {
    for s in ["", "0", "1", "0110", "x", "z1", "a", "12", " ", "01 "] {
        let value = AttributeVal::S(s.to_owned());
        if value.to_number().is_some() {
            assert_eq!(value.to_string_if_string(), None, "{:?}", s);
        }
    }
    assert_eq!(AttributeVal::N(0).to_string_if_string(), None);
}

#[test]
fn a_number_is_a_count_only_as_an_unsigned_integer() {
    let overflow = Err(NetlistError::NumericOverflow { path: vec![] });
    let misfit = Err(NetlistError::SchemaViolation { path: vec![], found: Shape::Number });
    assert_eq!(JsonNumber::unsigned(0).to_count(), Ok(0));
    assert_eq!(JsonNumber::unsigned(77).to_count(), Ok(77));
    let of = |x: f64| JsonNumber { unsigned: None, double: Some(x.to_bits()) }.to_count();
    for x in [18446744073709551616.0, 1e20, 1e300, f64::MAX] {
        assert_eq!(of(x), overflow, "{}", x);
    }
    for x in [-1.0, -0.0, 0.5, 1.5, 1e-300, -1e300, 18446744073709549568.0, f64::MIN] {
        assert_eq!(of(x), misfit, "{}", x);
    }
    assert_eq!(JsonNumber { unsigned: None, double: None }.to_count(), misfit);
    let both = JsonNumber { unsigned: Some(5), double: Some(5f64.to_bits()) };
    assert_eq!(both.to_count(), Ok(5));
    if usize::BITS < 64 {
        assert_eq!(JsonNumber::unsigned(u64::MAX).to_count(), overflow);
    } else {
        assert_eq!(JsonNumber::unsigned(u64::MAX).to_count(), Ok(usize::MAX));
    }
}
