use kanoniv::text::{chars_of, contains, starts_with, to_decimal};
use kanoniv::value::{rank_of, ONE_BITS, SIGN_BIT};
use kanoniv::{parse_yaml, Node, Num, NumberKind};

fn value_text(text: &str) -> Node {
    Node::String(text.to_string())
}

fn value_number(value: f64) -> Num {
    Num {
        kind: NumberKind::Float,
        bits: value.to_bits(),
        shown: format!("{}", value),
        json: serde_json::Number::from_f64(value).unwrap().to_string(),
    }
}

fn value_map(entries: Vec<(&str, Node)>) -> Node {
    Node::Mapping(entries.into_iter().map(|(k, v)| (k.to_string(), v)).collect())
}

#[test]
fn a_text_is_read_into_a_tree() {
    let doc = parse_yaml("a: [1, -2, 2.5, text, true, null]\nb: {c: d}\n").unwrap();
    let items = doc.get("a").unwrap().as_array().unwrap();
    assert_eq!(items.len(), 6);
    let one = items[0].as_number().unwrap();
    assert_eq!((one.kind, one.bits, one.shown.as_str(), one.json.as_str()), (NumberKind::PosInt, 1.0f64.to_bits(), "1", "1"));
    let two = items[1].as_number().unwrap();
    assert_eq!((two.kind, two.bits, two.shown.as_str(), two.json.as_str()), (NumberKind::NegInt, (-2.0f64).to_bits(), "-2", "-2"));
    let half = items[2].as_number().unwrap();
    assert_eq!((half.kind, half.bits, half.shown.as_str(), half.json.as_str()), (NumberKind::Float, 2.5f64.to_bits(), "2.5", "2.5"));
    assert_eq!(items[3].as_str(), Some("text"));
    assert!(matches!(items[4], Node::Bool(true)));
    assert!(matches!(items[5], Node::Null));
    assert_eq!(doc.get("b").unwrap().get("c").unwrap().as_str(), Some("d"));
}

#[test]
fn a_number_that_is_not_finite_is_read_as_null() {
    let doc = parse_yaml("[.nan, .inf, -.inf]").unwrap();
    for item in doc.as_array().unwrap() {
        assert!(matches!(item, Node::Null));
    }
}

#[test]
fn the_keys_of_a_mapping_are_read_in_order() {
    let doc = parse_yaml("zeta: 1\nalpha: 2\nmid: 3\n").unwrap();
    let keys: Vec<&str> = doc.as_object().unwrap().iter().map(|(k, _)| k.as_str()).collect();
    assert_eq!(keys, vec!["alpha", "mid", "zeta"]);
}

#[test]
fn a_malformed_text_is_refused_with_a_message() {
    let error = parse_yaml("a: [1, 2").unwrap_err();
    assert!(!error.message.is_empty());
    assert_eq!(error.to_string(), error.message);
}

#[test]
fn get_finds_the_first_entry_of_a_key() {
    let doc = value_map(vec![("a", value_text("first")), ("b", Node::Null), ("a", value_text("second"))]);
    assert_eq!(doc.get("a").unwrap().as_str(), Some("first"));
    assert!(matches!(doc.get("b"), Some(Node::Null)));
    assert!(doc.get("c").is_none());
    assert!(doc.get("").is_none());
}

#[test]
fn get_finds_nothing_in_what_is_no_mapping() {
    assert!(Node::Null.get("a").is_none());
    assert!(value_text("a").get("a").is_none());
    assert!(Node::Sequence(vec![value_text("a")]).get("a").is_none());
}

#[test]
fn each_accessor_answers_for_its_own_kind_only() {
    let text = value_text("t");
    let number = Node::Number(value_number(1.0));
    let list = Node::Sequence(vec![]);
    let table = value_map(vec![]);
    assert!(text.as_str().is_some() && text.as_array().is_none() && text.as_object().is_none() && text.as_number().is_none());
    assert!(number.as_number().is_some() && number.as_str().is_none());
    assert!(list.as_array().is_some() && list.as_object().is_none());
    assert!(table.as_object().is_some() && table.as_array().is_none());
}

#[test]
fn values_are_equal_when_all_they_hold_is() {
    let make = || {
        value_map(vec![
            ("a", Node::Sequence(vec![Node::Null, Node::Bool(true), Node::Number(value_number(0.5))])),
            ("b", value_map(vec![("c", value_text("d"))])),
        ])
    };
    assert!(make().same(&make()));
    assert!(make().same(&make().duplicate()));
    let other = value_map(vec![
        ("a", Node::Sequence(vec![Node::Null, Node::Bool(true), Node::Number(value_number(0.25))])),
        ("b", value_map(vec![("c", value_text("d"))])),
    ]);
    assert!(!make().same(&other));
}

#[test]
fn values_of_different_kinds_or_sizes_are_not_equal() {
    assert!(!Node::Null.same(&Node::Bool(false)));
    assert!(!Node::Bool(true).same(&Node::Bool(false)));
    assert!(!value_text("1").same(&Node::Number(value_number(1.0))));
    assert!(!Node::Sequence(vec![]).same(&value_map(vec![])));
    assert!(!Node::Sequence(vec![Node::Null]).same(&Node::Sequence(vec![])));
    assert!(!Node::Sequence(vec![Node::Null]).same(&Node::Sequence(vec![Node::Null, Node::Null])));
    assert!(!value_map(vec![("a", Node::Null)]).same(&value_map(vec![("b", Node::Null)])));
    assert!(!value_map(vec![("a", Node::Null), ("b", Node::Null)])
        .same(&value_map(vec![("b", Node::Null), ("a", Node::Null)])));
}

#[test]
fn numbers_are_equal_as_written() {
    let read = |text: &str| parse_yaml(text).unwrap();
    assert!(read("1").same(&read("1")));
    assert!(!read("1").same(&read("1.0")));
    assert!(!read("1").same(&read("2")));
    assert!(!read("-1").same(&read("1")));
    assert!(read("0.0").same(&read("-0.0")));
    assert!(!read("0").same(&read("0.0")));
    assert!(read("1.50").same(&read("1.5")));
    assert!(!read("9007199254740992").same(&read("9007199254740993")));
    assert!(read("1e2").same(&read("100.0")));
}

#[test]
fn numbers_are_ordered_by_value() {
    let n = value_number;
    assert!(n(0.1).below(&n(0.2)));
    assert!(!n(0.2).below(&n(0.1)));
    assert!(!n(0.2).below(&n(0.2)));
    assert!(n(-0.2).below(&n(-0.1)));
    assert!(n(-0.1).below(&n(0.1)));
    assert!(!n(0.0).below(&n(-0.0)));
    assert!(!n(-0.0).below(&n(0.0)));
    assert!(n(-5e-324).below(&n(0.0)));
    assert!(n(0.0).below(&n(5e-324)));
    assert!(n(-1e308).below(&n(1e308)));
    assert!(n(f64::MIN).below(&n(f64::MAX)));
}

#[test]
fn the_unit_interval_holds_its_bounds() {
    let n = value_number;
    for inside in [0.0, -0.0, 1.0, 0.5, 5e-324, 0.9999999999999999] {
        assert!(n(inside).in_unit_interval(), "{}", inside);
    }
    for outside in [-5e-324, 1.0000000000000002, -1.0, 2.0, 1e308, -1e308] {
        assert!(!n(outside).in_unit_interval(), "{}", outside);
    }
}

#[test]
fn ranks_follow_the_bit_patterns() {
    assert_eq!(rank_of(0), 0);
    assert_eq!(rank_of(SIGN_BIT), 0);
    assert_eq!(rank_of(1.0f64.to_bits()), ONE_BITS as i64);
    assert_eq!(rank_of((-1.0f64).to_bits()), -(ONE_BITS as i64));
    assert_eq!(rank_of(u64::MAX), -i64::MAX);
    assert_eq!(rank_of(SIGN_BIT - 1), i64::MAX);
    assert_eq!(value_number(0.5).rank(), 0.5f64.to_bits() as i64);
}

#[test]
fn numbers_are_written_in_decimal() {
    assert_eq!(to_decimal(0), "0");
    assert_eq!(to_decimal(7), "7");
    assert_eq!(to_decimal(10), "10");
    assert_eq!(to_decimal(51), "51");
    assert_eq!(to_decimal(1234567890), "1234567890");
    assert_eq!(to_decimal(u64::MAX), "18446744073709551615");
}

#[test]
fn a_text_begins_with_its_beginnings() {
    assert!(starts_with("kanoniv/v1", "kanoniv/v"));
    assert!(starts_with("kanoniv/v", "kanoniv/v"));
    assert!(starts_with("anything", ""));
    assert!(starts_with("", ""));
    assert!(!starts_with("kanoniv/", "kanoniv/v"));
    assert!(!starts_with("xkanoniv/v1", "kanoniv/v"));
    assert!(!starts_with("", "k"));
}

#[test]
fn a_text_holds_its_parts() {
    assert!(contains("email", "emai"));
    assert!(contains("email", "mail"));
    assert!(contains("email", "email"));
    assert!(contains("email", ""));
    assert!(contains("", ""));
    assert!(!contains("email", "emial"));
    assert!(!contains("emai", "email"));
    assert!(!contains("", "e"));
    assert!(contains("stra\u{df}e", "\u{df}e"));
    assert!(!contains("strasse", "\u{df}"));
}

#[test]
fn the_characters_of_a_text_come_in_order() {
    assert_eq!(chars_of("a\u{e9}\u{4e2d}!"), vec!['a', '\u{e9}', '\u{4e2d}', '!']);
    assert_eq!(chars_of(""), Vec::<char>::new());
}
