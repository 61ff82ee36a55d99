use poincare_trace::error::TraceError;
use poincare_trace::poincare::{PoincareAttributes, PoincareNode};

fn node(name: &str, id: &str, children: Vec<PoincareNode>) -> PoincareNode {
    PoincareNode { name: name.to_string(), id: id.to_string(), children, attributes: None }
}

fn integer(id: &str, value: &str) -> PoincareNode {
    PoincareNode {
        name: "Integer".to_string(),
        id: id.to_string(),
        children: Vec::new(),
        attributes: Some(PoincareAttributes::Integer { value: value.to_string() }),
    }
}

fn constant(id: &str, name: &str) -> PoincareNode {
    PoincareNode {
        name: "Constant".to_string(),
        id: id.to_string(),
        children: Vec::new(),
        attributes: Some(PoincareAttributes::SymbolAbstract { name: name.to_string() }),
    }
}

fn valued(name: &str, attributes: PoincareAttributes) -> PoincareNode {
    PoincareNode {
        name: name.to_string(),
        id: "1".to_string(),
        children: Vec::new(),
        attributes: Some(attributes),
    }
}

fn short(node: &PoincareNode) -> String {
    node.pretty_print(0, false, false).unwrap()
}

fn text(s: &str) -> String {
    s.to_string()
}

#[test]
fn sum_with_nested_product_is_parenthesised() {
    let product = node("Multiplication", "3", vec![integer("4", "3"), constant("5", "π")]);
    let sum = node("Addition", "1", vec![integer("2", "1"), product]);
    assert_eq!(short(&sum), "1 + (3 * π)");
}

#[test]
fn operand_with_one_child_is_not_parenthesised() {
    let root = node("SquareRoot", "3", vec![integer("4", "2")]);
    let power = node("Power", "1", vec![root, integer("2", "3")]);
    assert_eq!(short(&power), "sqrt(2) ^ 3");
}

#[test]
fn every_operator_has_its_sign() {
    for (name, sign) in
        [("Addition", "+"), ("Subtraction", "-"), ("Multiplication", "*"), ("Division", "/"), ("Power", "^")]
    {
        let operation = node(name, "1", vec![integer("2", "7"), integer("3", "8"), integer("4", "9")]);
        assert_eq!(short(&operation), format!("7 {} 8 {} 9", sign, sign));
    }
}

#[test]
fn operation_without_operands_is_empty() {
    assert_eq!(short(&node("Addition", "1", Vec::new())), "");
    assert_eq!(short(&node("Power", "1", Vec::new())), "");
}

#[test]
fn prefix_function_without_arguments_keeps_its_parentheses() {
    assert_eq!(short(&node("Random", "1", Vec::new())), "rand()");
    assert_eq!(short(&node("Cosine", "1", Vec::new())), "cos()");
    let sum = node("Addition", "1", vec![node("Random", "2", Vec::new()), integer("3", "1")]);
    assert_eq!(short(&sum), "rand() + 1");
}

#[test]
fn operation_with_one_operand_has_no_sign() {
    assert_eq!(short(&node("Addition", "1", vec![integer("2", "7")])), "7");
    let inner = node("Addition", "2", vec![integer("3", "1"), integer("4", "2")]);
    assert_eq!(short(&node("Multiplication", "1", vec![inner])), "(1 + 2)");
}

#[test]
fn prefix_functions_list_their_arguments() {
    let gcd = node("GreatCommonDivisor", "1", vec![integer("2", "4"), integer("3", "6")]);
    assert_eq!(short(&gcd), "gcd(4, 6)");
    assert_eq!(short(&node("AbsoluteValue", "1", vec![integer("2", "4")])), "abs(4)");
    assert_eq!(short(&node("NaperianLogarithm", "1", vec![integer("2", "4")])), "ln(4)");
    assert_eq!(short(&node("Opposite", "1", vec![integer("2", "4")])), "-(4)");
    assert_eq!(short(&node("HyperbolicArcTangent", "1", vec![integer("2", "4")])), "hatan(4)");
    let round = node("Round", "1", vec![integer("2", "4"), integer("3", "5"), integer("4", "6")]);
    assert_eq!(short(&round), "round(4, 5, 6)");
}

#[test]
fn undefined_is_a_fixed_word() {
    assert_eq!(short(&node("Undefined", "1", Vec::new())), "undef");
    assert_eq!(short(&node("Undefined", "1", vec![integer("2", "4")])), "undef");
}

#[test]
fn grouping_is_written_in_braces() {
    let sum = node("Addition", "2", vec![integer("3", "1"), integer("4", "2")]);
    assert_eq!(short(&node("Parenthesis", "1", vec![sum])), "{1 + 2}");
}

#[test]
fn grouping_of_two_expressions_is_refused() {
    let group = node("Parenthesis", "1", vec![integer("2", "1"), integer("3", "2")]);
    assert!(matches!(group.pretty_print(0, false, false), Err(TraceError::ParenthesisArity)));
    assert!(matches!(group.pretty_print(0, false, true), Err(TraceError::ParenthesisArity)));
}

#[test]
fn empty_grouping_is_refused() {
    let group = node("Parenthesis", "1", Vec::new());
    assert_eq!(group.pretty_print(0, false, false), Err(TraceError::ParenthesisArity));
}

#[test]
fn grouping_is_checked_at_any_depth() {
    let group = node("Parenthesis", "3", vec![integer("4", "1"), integer("5", "2")]);
    let mut number = integer("2", "9");
    number.children.push(group);
    let sum = node("Addition", "1", vec![number]);
    assert_eq!(sum.pretty_print(0, false, false), Err(TraceError::ParenthesisArity));
    assert_eq!(sum.print_long_form(0, false, false), Err(TraceError::ParenthesisArity));
}

#[test]
fn long_form_writes_any_grouping() {
    let group = node("Parenthesis", "1", vec![integer("2", "1"), integer("3", "2")]);
    assert_eq!(
        group.pretty_print(0, true, false),
        Ok(text("Parenthesis(1) { Integer(2): 1, Integer(3): 2 }"))
    );
}

#[test]
fn long_form_of_a_tree() {
    let product = node("Multiplication", "3", vec![integer("4", "3"), constant("5", "π")]);
    let sum = node("Addition", "1", vec![integer("2", "1"), product]);
    assert_eq!(
        sum.pretty_print(0, true, false).unwrap(),
        "Addition(1) { Integer(2): 1, Multiplication(3) { Integer(4): 3, Constant(5): π } }"
    );
    assert_eq!(
        sum.print_long_form(0, true, false).unwrap(),
        "Addition(1) { Integer(2): 1, Multiplication(3) { Integer(4): 3, Constant(5): π } }"
    );
}

#[test]
fn long_form_of_a_leaf() {
    assert_eq!(node("Foo", "12", Vec::new()).pretty_print(0, true, false).unwrap(), "Foo(12)");
    assert_eq!(integer("12", "5").pretty_print(3, true, false).unwrap(), "Integer(12): 5");
}

#[test]
fn unknown_kind_falls_back_to_long_form_around_short_children() {
    let sum = node("Addition", "2", vec![integer("3", "1"), integer("4", "2")]);
    let unknown = node("Mystery", "1", vec![sum, integer("5", "3")]);
    assert_eq!(short(&unknown), "Mystery(1) { 1 + 2, 3 }");
    assert_eq!(unknown.print_long_form(0, false, false).unwrap(), "Mystery(1) { 1 + 2, 3 }");
}

#[test]
fn recognised_kind_without_value_falls_back_to_long_form() {
    assert_eq!(short(&node("Integer", "7", Vec::new())), "Integer(7)");
}

#[test]
fn value_hides_children() {
    let mut number = integer("1", "5");
    number.children.push(integer("2", "6"));
    assert_eq!(short(&number), "5");
}

#[test]
fn values_are_written_as_their_kind_asks() {
    let based = PoincareAttributes::BasedInteger { base: text("10"), integer: text("4") };
    assert_eq!(based.pretty_print(), "4__10");
    assert_eq!(short(&valued("BasedInteger", based)), "4__10");
    let code = PoincareAttributes::CodePointLayout { code_point: text("x") };
    assert_eq!(short(&valued("CodePointLayout", code)), "x");
    let float = PoincareAttributes::Float { value: text("1.5e3") };
    assert_eq!(short(&valued("Float", float)), "1.5e3");
    let matrix = PoincareAttributes::Matrix { rows: text("2"), columns: text("3") };
    assert_eq!(short(&valued("Matrix", matrix)), "rows: 2, columns: 3");
    let unit = PoincareAttributes::Unit { prefix: text("k"), root_symbol: text("m") };
    assert_eq!(short(&valued("Unit", unit)), "km");
    for name in ["Symbol", "SymbolAbstract", "Sequence", "Function", "Constant"] {
        let symbol = PoincareAttributes::SymbolAbstract { name: text("u") };
        assert_eq!(short(&valued(name, symbol)), "u");
    }
}

#[test]
fn sign_is_written_from_the_negative_field() {
    let decimal = |negative: &str| PoincareAttributes::Decimal {
        negative: text(negative),
        mantissa: text("12"),
        exponent: text("3"),
    };
    assert_eq!(decimal("0").pretty_print(), "12x10^3");
    assert_eq!(decimal("1").pretty_print(), "-12x10^3");
    assert_eq!(decimal("2").pretty_print(), "sign?12x10^3");
    assert_eq!(decimal("").pretty_print(), "sign?12x10^3");
    let infinity = |negative: &str| PoincareAttributes::Infinity { negative: text(negative) };
    assert_eq!(infinity("0").pretty_print(), "inf");
    assert_eq!(infinity("1").pretty_print(), "-inf");
    assert_eq!(infinity("true").pretty_print(), "sign?inf");
    let rational = |negative: &str| PoincareAttributes::Rational {
        negative: text(negative),
        numerator: text("4"),
        denominator: text("1"),
    };
    assert_eq!(rational("0").pretty_print(), "4/1");
    assert_eq!(rational("1").pretty_print(), "-4/1");
    assert_eq!(rational("x").pretty_print(), "sign?4/1");
    assert_eq!(short(&valued("Rational", rational("1"))), "-4/1");
    assert_eq!(short(&valued("Infinity", infinity("1"))), "-inf");
    assert_eq!(short(&valued("Decimal", decimal("1"))), "-12x10^3");
}

#[test]
fn nesting_level_does_not_change_the_text() {
    let product = node("Multiplication", "3", vec![integer("4", "3"), constant("5", "π")]);
    let sum = node("Addition", "1", vec![integer("2", "1"), product]);
    for level in [0usize, 1, 2, 3, 7, usize::MAX] {
        assert_eq!(sum.pretty_print(level, false, false).unwrap(), "1 + (3 * π)");
    }
}

#[test]
fn long_form_nests_as_deep_as_the_tree() {
    let leaf = node("C", "3", Vec::new());
    let middle = node("B", "2", vec![leaf]);
    let root = node("A", "1", vec![middle, node("D", "4", Vec::new())]);
    let written = root.pretty_print(0, true, false).unwrap();
    assert_eq!(written, "A(1) { B(2) { C(3) }, D(4) }");
    let mut depth = 0;
    let mut deepest = 0;
    for c in written.chars() {
        if c == '{' {
            depth += 1;
            deepest = deepest.max(depth);
        } else if c == '}' {
            depth -= 1;
        }
    }
    assert_eq!(depth, 0);
    assert_eq!(deepest, 2);
    assert_eq!(written.matches('(').count(), 4);
}

fn without_escape_codes(text: &str) -> String {
    let mut plain = String::new();
    let mut chars = text.chars();
    while let Some(c) = chars.next() {
        if c == '\u{1b}' {
            for code in chars.by_ref() {
                if code == 'm' {
                    break;
                }
            }
        } else {
            plain.push(c);
        }
    }
    plain
}

#[test]
fn emphasis_puts_escape_codes_between_the_text() {
    colored::control::set_override(true);
    let product = node("Multiplication", "3", vec![integer("4", "3"), constant("5", "π")]);
    let sum = node("Addition", "1", vec![integer("2", "1"), product]);
    let short_form = sum.pretty_print(0, false, true).unwrap();
    let long_form = sum.pretty_print(0, true, true).unwrap();
    colored::control::unset_override();
    assert!(short_form.contains("\u{1b}["));
    assert_ne!(short_form, "1 + (3 * π)");
    assert_eq!(without_escape_codes(&short_form), "1 + (3 * π)");
    assert_eq!(
        without_escape_codes(&long_form),
        "Addition(1) { Integer(2): 1, Multiplication(3) { Integer(4): 3, Constant(5): π } }"
    );
}

#[test]
fn clone_keeps_the_tree() {
    let product = node("Multiplication", "3", vec![integer("4", "3"), constant("5", "π")]);
    let sum = node("Addition", "1", vec![integer("2", "1"), product]);
    let copy = sum.clone();
    assert_eq!(copy.pretty_print(0, true, false), sum.pretty_print(0, true, false));
    assert_eq!(copy.children.len(), 2);
    assert_eq!(copy.children[1].children[1].name, "Constant");
}
