use fast_yaml::decimal::{compare_floats, read_decimal_text};
use fast_yaml::order::{compare_texts, Order};
use fast_yaml::value::Value;

fn text(s: &str) -> Value {
    Value::String(s.to_string())
}

fn float(s: &str) -> Value {
    Value::Float(s.to_string())
}

fn list(items: Vec<Value>) -> Value {
    Value::Sequence(items)
}

fn map(entries: Vec<(Value, Value)>) -> Value {
    Value::Mapping(entries)
}

#[test]
fn equal_scalars() {
    assert!(Value::Null.structurally_equals(&Value::Null));
    assert!(Value::Invalid.structurally_equals(&Value::Invalid));
    assert!(Value::Bool(false).structurally_equals(&Value::Bool(false)));
    assert!(!Value::Bool(false).structurally_equals(&Value::Bool(true)));
    assert!(Value::Int(-4).structurally_equals(&Value::Int(-4)));
    assert!(!Value::Int(-4).structurally_equals(&Value::Int(4)));
    assert!(text("a").structurally_equals(&text("a")));
    assert!(!text("a").structurally_equals(&text("A")));
    assert!(float("1.0").structurally_equals(&float("1.0")));
    assert!(!float("1.0").structurally_equals(&float("1.00")));
    assert!(Value::Alias(1).structurally_equals(&Value::Alias(1)));
    assert!(!Value::Alias(1).structurally_equals(&Value::Alias(2)));
}

#[test]
fn values_of_different_kinds_are_never_equal() {
    assert!(!Value::Int(5).structurally_equals(&text("5")));
    assert!(!Value::Int(1).structurally_equals(&float("1")));
    assert!(!text("1.5").structurally_equals(&float("1.5")));
    assert!(!Value::Null.structurally_equals(&Value::Invalid));
    assert!(!Value::Bool(false).structurally_equals(&Value::Null));
    assert!(!Value::Int(0).structurally_equals(&Value::Bool(false)));
    assert!(!Value::Alias(0).structurally_equals(&Value::Int(0)));
    assert!(!list(vec![]).structurally_equals(&map(vec![])));
    assert!(!list(vec![]).structurally_equals(&Value::Null));
}

#[test]
fn equal_sequences() {
    let a = list(vec![Value::Int(1), text("x"), list(vec![Value::Null])]);
    let b = list(vec![Value::Int(1), text("x"), list(vec![Value::Null])]);
    assert!(a.structurally_equals(&b));
    assert!(list(vec![]).structurally_equals(&list(vec![])));
    assert!(!a.structurally_equals(&list(vec![Value::Int(1), text("x")])));
    assert!(!a.structurally_equals(&list(vec![Value::Int(1), text("x"), list(vec![])])));
    assert!(!a.structurally_equals(&list(vec![text("x"), Value::Int(1), list(vec![Value::Null])])));
}

#[test]
fn equal_mappings_have_the_same_entries_in_the_same_order() {
    let a = map(vec![(text("a"), Value::Int(1)), (text("b"), Value::Int(2))]);
    let same = map(vec![(text("a"), Value::Int(1)), (text("b"), Value::Int(2))]);
    let swapped = map(vec![(text("b"), Value::Int(2)), (text("a"), Value::Int(1))]);
    let other_key = map(vec![(text("a"), Value::Int(1)), (text("c"), Value::Int(2))]);
    let other_value = map(vec![(text("a"), Value::Int(1)), (text("b"), Value::Int(3))]);
    assert!(a.structurally_equals(&same));
    assert!(!a.structurally_equals(&swapped));
    assert!(!a.structurally_equals(&other_key));
    assert!(!a.structurally_equals(&other_value));
    assert!(map(vec![]).structurally_equals(&map(vec![])));
}

#[test]
fn the_equality_operator_is_structural_equality() {
    let a = list(vec![Value::Int(1), map(vec![(text("k"), float("2.5"))])]);
    let b = list(vec![Value::Int(1), map(vec![(text("k"), float("2.5"))])]);
    let c = list(vec![Value::Int(1), map(vec![(text("k"), float("2.50"))])]);
    assert!(a == b);
    assert!(a != c);
}

#[test]
fn a_copy_is_equal_to_what_was_copied() {
    let a = map(vec![
        (text("a"), list(vec![Value::Null, Value::Bool(true), Value::Int(3)])),
        (Value::Int(2), float("0.5")),
        (text("c"), map(vec![(Value::Alias(4), Value::Invalid)])),
    ]);
    let copy = a.clone();
    assert_eq!(copy, a);
}

#[test]
fn texts_order_lexicographically() {
    assert_eq!(compare_texts("", ""), Order::Equal);
    assert_eq!(compare_texts("", "a"), Order::Less);
    assert_eq!(compare_texts("a", ""), Order::Greater);
    assert_eq!(compare_texts("abc", "abc"), Order::Equal);
    assert_eq!(compare_texts("abc", "abd"), Order::Less);
    assert_eq!(compare_texts("abd", "abc"), Order::Greater);
    assert_eq!(compare_texts("ab", "abc"), Order::Less);
    assert_eq!(compare_texts("b", "abc"), Order::Greater);
    assert_eq!(compare_texts("Z", "a"), Order::Less);
}

#[test]
fn texts_order_as_the_standard_strings_do() {
    let samples = ["", "a", "ab", "b", "B", "\u{e9}", "z", "\u{1F600}", "\u{FFFD}", "10", "9", "a\u{0}"];
    for a in samples {
        for b in samples {
            let expected = match a.cmp(b) {
                std::cmp::Ordering::Less => Order::Less,
                std::cmp::Ordering::Equal => Order::Equal,
                std::cmp::Ordering::Greater => Order::Greater,
            };
            assert_eq!(compare_texts(a, b), expected);
        }
    }
}

#[test]
fn scalars_of_one_kind_are_ordered() {
    assert_eq!(Value::Int(1).compare(&Value::Int(2)), Some(Order::Less));
    assert_eq!(Value::Int(2).compare(&Value::Int(2)), Some(Order::Equal));
    assert_eq!(Value::Int(3).compare(&Value::Int(2)), Some(Order::Greater));
    assert_eq!(Value::Int(i64::MIN).compare(&Value::Int(i64::MAX)), Some(Order::Less));
    assert_eq!(Value::Bool(false).compare(&Value::Bool(true)), Some(Order::Less));
    assert_eq!(Value::Bool(true).compare(&Value::Bool(false)), Some(Order::Greater));
    assert_eq!(Value::Bool(true).compare(&Value::Bool(true)), Some(Order::Equal));
    assert_eq!(text("a").compare(&text("b")), Some(Order::Less));
    assert_eq!(Value::Alias(3).compare(&Value::Alias(1)), Some(Order::Greater));
    assert_eq!(Value::Null.compare(&Value::Null), Some(Order::Equal));
    assert_eq!(Value::Invalid.compare(&Value::Invalid), Some(Order::Equal));
}

#[test]
fn floats_are_ordered_by_their_numbers() {
    assert_eq!(float("1.5").compare(&float("2.5")), Some(Order::Less));
    assert_eq!(float("1.5").compare(&float("1.5")), Some(Order::Equal));
    assert_eq!(float("10.0").compare(&float("9.0")), Some(Order::Greater));
    assert_eq!(float("9.0").compare(&float("10.0")), Some(Order::Less));
    assert_eq!(float("-1.0").compare(&float("1.0")), Some(Order::Less));
    assert_eq!(float("-10.0").compare(&float("-9.0")), Some(Order::Less));
    assert_eq!(float("-1.5").compare(&float("-2.5")), Some(Order::Greater));
    assert_eq!(float("0.5").compare(&float("0.25")), Some(Order::Greater));
    assert_eq!(float("0.05").compare(&float("0.5")), Some(Order::Less));
    assert_eq!(float("100.0").compare(&float("99.999")), Some(Order::Greater));
}

#[test]
fn floats_that_spell_one_number_are_in_equal_order() {
    assert_eq!(float("1.5").compare(&float("1.50")), Some(Order::Equal));
    assert_eq!(float("1.5").compare(&float("01.5")), Some(Order::Equal));
    assert_eq!(float("001.500").compare(&float("1.5")), Some(Order::Equal));
    assert_eq!(float("0.0").compare(&float("-0.0")), Some(Order::Equal));
    assert_eq!(float("-0.0").compare(&float("0.000")), Some(Order::Equal));
    assert_eq!(float("5.").compare(&float("5.0")), Some(Order::Equal));
    assert_eq!(float(".5").compare(&float("0.5")), Some(Order::Equal));
    assert_eq!(float("-.5").compare(&float("-0.50")), Some(Order::Equal));
    assert_eq!(float("7").compare(&float("7.0")), Some(Order::Equal));
    assert!(!float("1.5").structurally_equals(&float("1.50")));
}

#[test]
fn floats_that_spell_no_decimal_are_not_ordered() {
    for written in ["1e3", ".inf", "-.inf", ".nan", "+1.5", "1.5e-3", "", "-", ".", "-.", "1.2.3", "1_0.0", "0x1.8p1", " 1.5", "1.5 "] {
        assert_eq!(float(written).compare(&float("1.5")), None, "{:?}", written);
        assert_eq!(float("1.5").compare(&float(written)), None, "{:?}", written);
        assert_eq!(float(written).compare(&float(written)), None, "{:?}", written);
    }
}

#[test]
fn floats_with_many_digits_are_ordered_exactly() {
    let a = "123456789012345678901234567890.000000000000000000000000000001";
    let b = "123456789012345678901234567890.000000000000000000000000000002";
    assert_eq!(float(a).compare(&float(b)), Some(Order::Less));
    assert_eq!(float(b).compare(&float(a)), Some(Order::Greater));
    assert_eq!(float(a).compare(&float(a)), Some(Order::Equal));
    let c = "99999999999999999999999999999.9";
    assert_eq!(float(c).compare(&float(a)), Some(Order::Less));
}

#[test]
fn floats_order_as_their_doubles_do() {
    let samples = [
        "0.0", "-0.0", "0.1", "0.10", "0.01", "1.0", "1.5", "1.50", "01.5", "2.25", "9.0", "10.0",
        "10.5", "99.99", "100.0", "-0.1", "-1.0", "-1.5", "-9.0", "-10.0", "-100.25", "5.", ".5",
        "-.5", "3", "-3", "123456.789", "-123456.789", "0.000001", "-0.000001",
    ];
    for a in samples {
        for b in samples {
            let x: f64 = a.parse().unwrap();
            let y: f64 = b.parse().unwrap();
            let expected = if x < y {
                Order::Less
            } else if x > y {
                Order::Greater
            } else {
                Order::Equal
            };
            assert_eq!(float(a).compare(&float(b)), Some(expected), "{} {}", a, b);
            assert_eq!(compare_floats(a, b), Some(expected), "{} {}", a, b);
        }
    }
}

#[test]
fn decimal_texts_are_read_in_parts() {
    let digits = |s: &str| s.chars().collect::<Vec<char>>();
    assert_eq!(read_decimal_text("12.50"), Some((false, digits("12"), digits("50"))));
    assert_eq!(read_decimal_text("-0.5"), Some((true, digits("0"), digits("5"))));
    assert_eq!(read_decimal_text("7"), Some((false, digits("7"), digits(""))));
    assert_eq!(read_decimal_text("-7"), Some((true, digits("7"), digits(""))));
    assert_eq!(read_decimal_text("7."), Some((false, digits("7"), digits(""))));
    assert_eq!(read_decimal_text(".7"), Some((false, digits(""), digits("7"))));
    assert_eq!(read_decimal_text("-.7"), Some((true, digits(""), digits("7"))));
    for written in ["", "-", ".", "-.", "1e3", "1.2.3", "+1", "1,5", "--1", "1.-5", "a", "1.5x", ".inf"] {
        assert_eq!(read_decimal_text(written), None, "{:?}", written);
    }
}

#[test]
fn floats_are_compared_with_their_signs() {
    assert_eq!(compare_floats("1.5", "1"), Some(Order::Greater));
    assert_eq!(compare_floats("-1.5", "-1"), Some(Order::Less));
    assert_eq!(compare_floats("-1.5", "1.5"), Some(Order::Less));
    assert_eq!(compare_floats("1.5", "-1.5"), Some(Order::Greater));
    assert_eq!(compare_floats("-0", ".0"), Some(Order::Equal));
    assert_eq!(compare_floats("0.0", "-0"), Some(Order::Equal));
    assert_eq!(compare_floats("-0", "0.1"), Some(Order::Less));
    assert_eq!(compare_floats("0.1", "-0.0"), Some(Order::Greater));
    assert_eq!(compare_floats("-0.1", "0"), Some(Order::Less));
    assert_eq!(compare_floats("0100", "99.9"), Some(Order::Greater));
    assert_eq!(compare_floats("0099", "100"), Some(Order::Less));
    assert_eq!(compare_floats("1.5", "x"), None);
    assert_eq!(compare_floats("x", "x"), None);
}
