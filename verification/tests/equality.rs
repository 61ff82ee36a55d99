use poincare_trace::equality::parse_id;
use poincare_trace::poincare::{PoincareAttributes, PoincareNode};

fn node(name: &str, id: &str, children: Vec<PoincareNode>) -> PoincareNode {
    PoincareNode { name: name.to_string(), id: id.to_string(), children, attributes: None }
}

#[test]
fn ids_are_read_as_numbers() {
    assert_eq!(parse_id("0"), Some(0));
    assert_eq!(parse_id("7"), Some(7));
    assert_eq!(parse_id("007"), Some(7));
    assert_eq!(parse_id("+7"), Some(7));
    assert_eq!(parse_id("4294967295"), Some(4294967295));
    assert_eq!(parse_id("00004294967295"), Some(4294967295));
    assert_eq!(parse_id("4294967296"), None);
    assert_eq!(parse_id("99999999999999999999999999"), None);
    assert_eq!(parse_id(""), None);
    assert_eq!(parse_id("+"), None);
    assert_eq!(parse_id("-1"), None);
    assert_eq!(parse_id("1+"), None);
    assert_eq!(parse_id("++1"), None);
    assert_eq!(parse_id("12a"), None);
    assert_eq!(parse_id(" 12"), None);
    assert_eq!(parse_id("١٢"), None);
}

#[test]
fn ids_are_read_as_the_standard_library_reads_them() {
    for id in ["0", "12", "+12", "0012", "4294967295", "4294967296", "", "+", "-3", "1 ", "x", "1_0"] {
        assert_eq!(parse_id(id), id.parse::<u32>().ok());
    }
}

#[test]
fn equality_ignores_name_and_value() {
    let a = PoincareNode {
        name: "Integer".to_string(),
        id: "5".to_string(),
        children: Vec::new(),
        attributes: Some(PoincareAttributes::Integer { value: "3".to_string() }),
    };
    let b = PoincareNode {
        name: "Rational".to_string(),
        id: "5".to_string(),
        children: Vec::new(),
        attributes: Some(PoincareAttributes::Integer { value: "4".to_string() }),
    };
    assert!(a == b);
    assert!(a.same_as(&b));
}

#[test]
fn equality_compares_ids_as_numbers() {
    assert!(node("A", "12", Vec::new()) == node("A", "012", Vec::new()));
    assert!(node("A", "12", Vec::new()) == node("A", "+12", Vec::new()));
    assert!(node("A", "12", Vec::new()) != node("A", "13", Vec::new()));
}

#[test]
fn nodes_without_a_number_are_never_equal() {
    assert!(node("A", "x", Vec::new()) != node("A", "x", Vec::new()));
    assert!(node("A", "1", Vec::new()) != node("A", "", Vec::new()));
    assert!(node("A", "", Vec::new()) != node("A", "1", Vec::new()));
}

#[test]
fn equality_pairs_children_in_order() {
    let a = node("A", "1", vec![node("B", "2", Vec::new()), node("C", "3", Vec::new())]);
    let b = node("A", "1", vec![node("B", "2", Vec::new()), node("C", "3", Vec::new())]);
    let c = node("A", "1", vec![node("C", "3", Vec::new()), node("B", "2", Vec::new())]);
    assert!(a == b);
    assert!(a != c);
}

#[test]
fn equality_ignores_children_beyond_the_shorter_list() {
    let short = node("A", "1", vec![node("B", "2", Vec::new())]);
    let long = node("A", "1", vec![node("B", "2", Vec::new()), node("C", "3", Vec::new())]);
    let none = node("A", "1", Vec::new());
    assert!(short == long);
    assert!(long == short);
    assert!(none == long);
    assert!(long == none);
}

#[test]
fn equality_looks_into_paired_grandchildren() {
    let a = node("A", "1", vec![node("B", "2", vec![node("C", "3", Vec::new())])]);
    let b = node("A", "1", vec![node("B", "2", vec![node("C", "4", Vec::new())])]);
    assert!(a != b);
}

#[test]
fn numbered_tree_equals_itself_and_equality_goes_both_ways() {
    let a = node("A", "1", vec![node("B", "2", Vec::new()), node("C", "03", Vec::new())]);
    let b = node("X", "01", vec![node("Y", "+2", Vec::new())]);
    let c = node("A", "1", vec![node("B", "4", Vec::new())]);
    assert!(a == a);
    assert!(a == b && b == a);
    assert!(a != c && c != a);
    let unnumbered = node("A", "1", vec![node("B", "", Vec::new())]);
    assert!(unnumbered != unnumbered);
}
