//! How the long form of an expression mirrors the tree: one pair of braces
//! around the children of every node that has some, one pair of parentheses
//! around the id of every node.

use vstd::prelude::*;

use crate::poincare::{
    attributes_text, child_texts, listed, long_head, node_text, separated, sign_text,
    AttributesModel, NodeModel,
};
use crate::text::{flatten, lemma_flatten_step};

verus! {

/// The larger of two numbers.
pub open spec fn larger(a: int, b: int) -> int {
    if a >= b {
        a
    } else {
        b
    }
}

/// By how much a character changes the number of open braces.
pub open spec fn brace_step(c: char) -> int {
    if c == '{' {
        1
    } else if c == '}' {
        -1
    } else {
        0
    }
}

/// The number of braces that a text leaves open: those it opens less those it
/// closes.
pub open spec fn brace_balance(text: Seq<char>) -> int
    decreases text.len(),
{
    if text.len() == 0 {
        0
    } else {
        brace_step(text[0]) + brace_balance(text.skip(1))
    }
}

/// The largest number of braces that are open at once anywhere in a text.
pub open spec fn brace_depth(text: Seq<char>) -> int
    decreases text.len(),
{
    if text.len() == 0 {
        0
    } else {
        larger(0, brace_step(text[0]) + brace_depth(text.skip(1)))
    }
}

/// The number of opening parentheses in a text.
pub open spec fn opened_parentheses(text: Seq<char>) -> int
    decreases text.len(),
{
    if text.len() == 0 {
        0
    } else if text[0] == '(' {
        1 + opened_parentheses(text.skip(1))
    } else {
        opened_parentheses(text.skip(1))
    }
}

/// The number of levels below a node: none below a node without children.
pub open spec fn tree_depth(node: NodeModel) -> int
    decreases node,
{
    if node.children.len() == 0 {
        0
    } else {
        1 + deepest(node.children)
    }
}

/// The depth of the deepest of some trees.
pub open spec fn deepest(nodes: Seq<NodeModel>) -> int
    decreases nodes,
{
    if nodes.len() == 0 {
        0
    } else {
        larger(deepest(nodes.drop_last()), tree_depth(nodes.last()))
    }
}

/// The number of nodes of a tree.
pub open spec fn tree_size(node: NodeModel) -> int
    decreases node,
{
    1 + total_size(node.children)
}

/// The number of nodes of some trees together.
pub open spec fn total_size(nodes: Seq<NodeModel>) -> int
    decreases nodes,
{
    if nodes.len() == 0 {
        0
    } else {
        total_size(nodes.drop_last()) + tree_size(nodes.last())
    }
}

/// Whether a character is a brace.
pub open spec fn is_brace(c: char) -> bool {
    c == '{' || c == '}'
}

/// Whether a text holds no brace.
pub open spec fn brace_free(text: Seq<char>) -> bool {
    forall|i: int| 0 <= i < text.len() ==> !is_brace(#[trigger] text[i])
}

/// Whether a text holds no opening parenthesis.
pub open spec fn unopened(text: Seq<char>) -> bool {
    forall|i: int| 0 <= i < text.len() ==> #[trigger] text[i] != '('
}

/// The fields of a value that are written as they are, one after the other.
pub open spec fn written_fields(attributes: AttributesModel) -> Seq<char> {
    match attributes {
        AttributesModel::BasedInteger { base, integer } => base + integer,
        AttributesModel::CodePointLayout { code_point } => code_point,
        AttributesModel::Decimal { negative, mantissa, exponent } => mantissa + exponent,
        AttributesModel::Float { value } => value,
        AttributesModel::Infinity { negative } => Seq::empty(),
        AttributesModel::Integer { value } => value,
        AttributesModel::Matrix { rows, columns } => rows + columns,
        AttributesModel::Rational { negative, numerator, denominator } => numerator + denominator,
        AttributesModel::SymbolAbstract { name } => name,
        AttributesModel::Unit { prefix, root_symbol } => prefix + root_symbol,
    }
}

/// Whether no name, id or value in a tree holds a brace, so that the braces of
/// the long form are all its own.
pub open spec fn tree_brace_free(node: NodeModel) -> bool
    decreases node,
{
    &&& brace_free(node.name)
    &&& brace_free(node.id)
    &&& node.attributes matches Some(attributes) ==> brace_free(written_fields(attributes))
    &&& forall|i: int| 0 <= i < node.children.len() ==> tree_brace_free(#[trigger] node.children[i])
}

/// Whether no name, id or value in a tree holds an opening parenthesis, so
/// that those of the long form are all its own.
pub open spec fn tree_unopened(node: NodeModel) -> bool
    decreases node,
{
    &&& unopened(node.name)
    &&& unopened(node.id)
    &&& node.attributes matches Some(attributes) ==> unopened(written_fields(attributes))
    &&& forall|i: int| 0 <= i < node.children.len() ==> tree_unopened(#[trigger] node.children[i])
}

/// No text holds fewer than no open braces at its deepest.
pub proof fn lemma_brace_depth_is_not_negative(text: Seq<char>)
    ensures
        brace_depth(text) >= 0,
{
}

/// The braces and parentheses of two texts written one after the other.
pub proof fn lemma_brackets_of_concatenation(a: Seq<char>, b: Seq<char>)
    ensures
        brace_balance(a + b) == brace_balance(a) + brace_balance(b),
        brace_depth(a + b) == larger(brace_depth(a), brace_balance(a) + brace_depth(b)),
        opened_parentheses(a + b) == opened_parentheses(a) + opened_parentheses(b),
        brace_free(a + b) <==> brace_free(a) && brace_free(b),
        unopened(a + b) <==> unopened(a) && unopened(b),
    decreases a.len(),
{
    if a.len() == 0 {
        assert(a + b =~= b);
        lemma_brace_depth_is_not_negative(b);
    } else {
        lemma_brackets_of_concatenation(a.skip(1), b);
        assert((a + b).skip(1) =~= a.skip(1) + b);
        assert((a + b)[0] == a[0]);
    }
    let whole = a + b;
    if brace_free(a) && brace_free(b) {
        assert forall|i: int| 0 <= i < whole.len() implies !is_brace(#[trigger] whole[i]) by {
            if i < a.len() {
                assert(whole[i] == a[i]);
            } else {
                assert(whole[i] == b[i - a.len()]);
            }
        }
    }
    if brace_free(whole) {
        assert forall|i: int| 0 <= i < a.len() implies !is_brace(#[trigger] a[i]) by {
            assert(whole[i] == a[i]);
        }
        assert forall|i: int| 0 <= i < b.len() implies !is_brace(#[trigger] b[i]) by {
            assert(whole[i + a.len()] == b[i]);
        }
    }
    if unopened(a) && unopened(b) {
        assert forall|i: int| 0 <= i < whole.len() implies #[trigger] whole[i] != '(' by {
            if i < a.len() {
                assert(whole[i] == a[i]);
            } else {
                assert(whole[i] == b[i - a.len()]);
            }
        }
    }
    if unopened(whole) {
        assert forall|i: int| 0 <= i < a.len() implies #[trigger] a[i] != '(' by {
            assert(whole[i] == a[i]);
        }
        assert forall|i: int| 0 <= i < b.len() implies #[trigger] b[i] != '(' by {
            assert(whole[i + a.len()] == b[i]);
        }
    }
}

/// A text without braces opens none.
pub proof fn lemma_brace_free_text(text: Seq<char>)
    requires
        brace_free(text),
    ensures
        brace_balance(text) == 0,
        brace_depth(text) == 0,
    decreases text.len(),
{
    if text.len() > 0 {
        assert(!is_brace(text[0]));
        assert forall|i: int| 0 <= i < text.skip(1).len() implies !is_brace(
            #[trigger] text.skip(1)[i],
        ) by {
            assert(text.skip(1)[i] == text[i + 1]);
        }
        lemma_brace_free_text(text.skip(1));
    }
}

/// A text without opening parenthesis opens none.
pub proof fn lemma_unopened_text(text: Seq<char>)
    requires
        unopened(text),
    ensures
        opened_parentheses(text) == 0,
    decreases text.len(),
{
    if text.len() > 0 {
        assert(text[0] != '(');
        assert forall|i: int| 0 <= i < text.skip(1).len() implies #[trigger] text.skip(1)[i]
            != '(' by {
            assert(text.skip(1)[i] == text[i + 1]);
        }
        lemma_unopened_text(text.skip(1));
    }
}

/// The fixed pieces of the notation of values, and those between the pieces of
/// the long form, hold neither a brace nor an opening parenthesis.
pub proof fn lemma_fixed_pieces()
    ensures
        brace_free(": "@) && unopened(": "@),
        brace_free(", "@) && unopened(", "@),
        brace_free("__"@) && unopened("__"@),
        brace_free("x10^"@) && unopened("x10^"@),
        brace_free("inf"@) && unopened("inf"@),
        brace_free("rows: "@) && unopened("rows: "@),
        brace_free(", columns: "@) && unopened(", columns: "@),
        brace_free("/"@) && unopened("/"@),
        brace_free(""@) && unopened(""@),
        brace_free("-"@) && unopened("-"@),
        brace_free("sign?"@) && unopened("sign?"@),
        brace_free(")"@) && unopened(")"@),
{
    reveal_strlit(": ");
    assert(": "@.len() == 2);
    assert forall|i: int| 0 <= i < ": "@.len() implies !is_brace(#[trigger] ": "@[i]) && ": "@[i] != '(' by {
        if i == 0 {
            assert(": "@[0] == ':');
        } else if i == 1 {
            assert(": "@[1] == ' ');
        }
    }
    reveal_strlit(", ");
    assert(", "@.len() == 2);
    assert forall|i: int| 0 <= i < ", "@.len() implies !is_brace(#[trigger] ", "@[i]) && ", "@[i] != '(' by {
        if i == 0 {
            assert(", "@[0] == ',');
        } else if i == 1 {
            assert(", "@[1] == ' ');
        }
    }
    reveal_strlit("__");
    assert("__"@.len() == 2);
    assert forall|i: int| 0 <= i < "__"@.len() implies !is_brace(#[trigger] "__"@[i]) && "__"@[i] != '(' by {
        if i == 0 {
            assert("__"@[0] == '_');
        } else if i == 1 {
            assert("__"@[1] == '_');
        }
    }
    reveal_strlit("x10^");
    assert("x10^"@.len() == 4);
    assert forall|i: int| 0 <= i < "x10^"@.len() implies !is_brace(#[trigger] "x10^"@[i]) && "x10^"@[i] != '(' by {
        if i == 0 {
            assert("x10^"@[0] == 'x');
        } else if i == 1 {
            assert("x10^"@[1] == '1');
        } else if i == 2 {
            assert("x10^"@[2] == '0');
        } else if i == 3 {
            assert("x10^"@[3] == '^');
        }
    }
    reveal_strlit("inf");
    assert("inf"@.len() == 3);
    assert forall|i: int| 0 <= i < "inf"@.len() implies !is_brace(#[trigger] "inf"@[i]) && "inf"@[i] != '(' by {
        if i == 0 {
            assert("inf"@[0] == 'i');
        } else if i == 1 {
            assert("inf"@[1] == 'n');
        } else if i == 2 {
            assert("inf"@[2] == 'f');
        }
    }
    reveal_strlit("rows: ");
    assert("rows: "@.len() == 6);
    assert forall|i: int| 0 <= i < "rows: "@.len() implies !is_brace(#[trigger] "rows: "@[i]) && "rows: "@[i] != '(' by {
        if i == 0 {
            assert("rows: "@[0] == 'r');
        } else if i == 1 {
            assert("rows: "@[1] == 'o');
        } else if i == 2 {
            assert("rows: "@[2] == 'w');
        } else if i == 3 {
            assert("rows: "@[3] == 's');
        } else if i == 4 {
            assert("rows: "@[4] == ':');
        } else if i == 5 {
            assert("rows: "@[5] == ' ');
        }
    }
    reveal_strlit(", columns: ");
    assert(", columns: "@.len() == 11);
    assert forall|i: int| 0 <= i < ", columns: "@.len() implies !is_brace(#[trigger] ", columns: "@[i]) && ", columns: "@[i] != '(' by {
        if i == 0 {
            assert(", columns: "@[0] == ',');
        } else if i == 1 {
            assert(", columns: "@[1] == ' ');
        } else if i == 2 {
            assert(", columns: "@[2] == 'c');
        } else if i == 3 {
            assert(", columns: "@[3] == 'o');
        } else if i == 4 {
            assert(", columns: "@[4] == 'l');
        } else if i == 5 {
            assert(", columns: "@[5] == 'u');
        } else if i == 6 {
            assert(", columns: "@[6] == 'm');
        } else if i == 7 {
            assert(", columns: "@[7] == 'n');
        } else if i == 8 {
            assert(", columns: "@[8] == 's');
        } else if i == 9 {
            assert(", columns: "@[9] == ':');
        } else if i == 10 {
            assert(", columns: "@[10] == ' ');
        }
    }
    reveal_strlit("/");
    assert("/"@.len() == 1);
    assert forall|i: int| 0 <= i < "/"@.len() implies !is_brace(#[trigger] "/"@[i]) && "/"@[i] != '(' by {
        if i == 0 {
            assert("/"@[0] == '/');
        }
    }
    reveal_strlit("");
    assert(""@.len() == 0);
    assert forall|i: int| 0 <= i < ""@.len() implies !is_brace(#[trigger] ""@[i]) && ""@[i] != '(' by {
    }
    reveal_strlit("-");
    assert("-"@.len() == 1);
    assert forall|i: int| 0 <= i < "-"@.len() implies !is_brace(#[trigger] "-"@[i]) && "-"@[i] != '(' by {
        if i == 0 {
            assert("-"@[0] == '-');
        }
    }
    reveal_strlit("sign?");
    assert("sign?"@.len() == 5);
    assert forall|i: int| 0 <= i < "sign?"@.len() implies !is_brace(#[trigger] "sign?"@[i]) && "sign?"@[i] != '(' by {
        if i == 0 {
            assert("sign?"@[0] == 's');
        } else if i == 1 {
            assert("sign?"@[1] == 'i');
        } else if i == 2 {
            assert("sign?"@[2] == 'g');
        } else if i == 3 {
            assert("sign?"@[3] == 'n');
        } else if i == 4 {
            assert("sign?"@[4] == '?');
        }
    }
    reveal_strlit(")");
    assert(")"@.len() == 1);
    assert forall|i: int| 0 <= i < ")"@.len() implies !is_brace(#[trigger] ")"@[i]) && ")"@[i] != '(' by {
        if i == 0 {
            assert(")"@[0] == ')');
        }
    }
}

/// The brackets of the long form: a parenthesis before an id, a brace before
/// the children and one after them.
pub proof fn lemma_brackets_of_long_form()
    ensures
        brace_free("("@) && opened_parentheses("("@) == 1,
        brace_balance(" { "@) == 1 && brace_depth(" { "@) == 1 && unopened(" { "@),
        brace_balance(" }"@) == -1 && brace_depth(" }"@) == 0 && unopened(" }"@),
{
    reveal_with_fuel(brace_balance, 4);
    reveal_with_fuel(brace_depth, 4);
    reveal_with_fuel(opened_parentheses, 4);
    reveal_strlit("(");
    assert("("@ =~= seq!['(']);
    reveal_strlit(" { ");
    assert(" { "@ =~= seq![' ', '{', ' ']);
    reveal_strlit(" }");
    assert(" }"@ =~= seq![' ', '}']);
}

/// A value is written with a brace only where a field holds one, and with an
/// opening parenthesis only where a field holds one.
pub proof fn lemma_brackets_of_value(attributes: AttributesModel)
    ensures
        brace_free(written_fields(attributes)) ==> brace_free(attributes_text(attributes)),
        unopened(written_fields(attributes)) ==> unopened(attributes_text(attributes)),
{
    lemma_fixed_pieces();
    match attributes {
        AttributesModel::BasedInteger { base, integer } => {
            lemma_brackets_of_concatenation(base, integer);
            lemma_brackets_of_concatenation(integer, "__"@);
            lemma_brackets_of_concatenation(integer + "__"@, base);
        },
        AttributesModel::CodePointLayout { code_point } => {},
        AttributesModel::Decimal { negative, mantissa, exponent } => {
            lemma_brackets_of_concatenation(mantissa, exponent);
            lemma_brackets_of_concatenation(sign_text(negative), mantissa);
            lemma_brackets_of_concatenation(sign_text(negative) + mantissa, "x10^"@);
            lemma_brackets_of_concatenation(sign_text(negative) + mantissa + "x10^"@, exponent);
        },
        AttributesModel::Float { value } => {},
        AttributesModel::Infinity { negative } => {
            lemma_brackets_of_concatenation(sign_text(negative), "inf"@);
        },
        AttributesModel::Integer { value } => {},
        AttributesModel::Matrix { rows, columns } => {
            lemma_brackets_of_concatenation(rows, columns);
            lemma_brackets_of_concatenation("rows: "@, rows);
            lemma_brackets_of_concatenation("rows: "@ + rows, ", columns: "@);
            lemma_brackets_of_concatenation("rows: "@ + rows + ", columns: "@, columns);
        },
        AttributesModel::Rational { negative, numerator, denominator } => {
            lemma_brackets_of_concatenation(numerator, denominator);
            lemma_brackets_of_concatenation(sign_text(negative), numerator);
            lemma_brackets_of_concatenation(sign_text(negative) + numerator, "/"@);
            lemma_brackets_of_concatenation(sign_text(negative) + numerator + "/"@, denominator);
        },
        AttributesModel::SymbolAbstract { name } => {},
        AttributesModel::Unit { prefix, root_symbol } => {
            lemma_brackets_of_concatenation(prefix, root_symbol);
        },
    }
}

/// Whether name, id and value of a node itself hold no brace.
pub open spec fn head_brace_free(node: NodeModel) -> bool {
    &&& brace_free(node.name)
    &&& brace_free(node.id)
    &&& node.attributes matches Some(attributes) ==> brace_free(written_fields(attributes))
}

/// Whether name, id and value of a node itself hold no opening parenthesis.
pub open spec fn head_unopened(node: NodeModel) -> bool {
    &&& unopened(node.name)
    &&& unopened(node.id)
    &&& node.attributes matches Some(attributes) ==> unopened(written_fields(attributes))
}

/// The head of the long form opens no brace, and exactly one parenthesis.
pub proof fn lemma_brackets_of_head(node: NodeModel)
    ensures
        head_brace_free(node) ==> brace_balance(long_head(node)) == 0 && brace_depth(
            long_head(node),
        ) == 0,
        head_unopened(node) ==> opened_parentheses(long_head(node)) == 1,
{
    lemma_fixed_pieces();
    lemma_brackets_of_long_form();
    let id = "("@ + node.id + ")"@;
    lemma_brackets_of_concatenation("("@, node.id);
    lemma_brackets_of_concatenation("("@ + node.id, ")"@);
    let named = node.name + id;
    lemma_brackets_of_concatenation(node.name, id);
    if head_brace_free(node) {
        lemma_brace_free_text(node.name);
        lemma_brace_free_text(node.id);
        lemma_brace_free_text("("@);
        lemma_brace_free_text(")"@);
    }
    if head_unopened(node) {
        lemma_unopened_text(node.name);
        lemma_unopened_text(node.id);
        lemma_unopened_text(")"@);
    }
    match node.attributes {
        Some(attributes) => {
            let value = ": "@ + attributes_text(attributes);
            lemma_brackets_of_value(attributes);
            lemma_brackets_of_concatenation(": "@, attributes_text(attributes));
            lemma_brackets_of_concatenation(named, value);
            if head_brace_free(node) {
                lemma_brace_free_text(value);
            }
            if head_unopened(node) {
                lemma_unopened_text(value);
            }
        },
        None => {},
    }
}

/// The first `count` children of a node, as the long form lists them: all
/// braces are closed and the deepest of them go as deep as the deepest child,
/// where the tree holds no brace of its own; there is one opening parenthesis
/// for every node, where the tree holds none of its own.
pub proof fn lemma_brackets_of_children(node: NodeModel, count: int)
    requires
        0 <= count <= node.children.len(),
    ensures
        tree_brace_free(node) ==> brace_balance(
            flatten(separated(child_texts(node, true)).take(count)),
        ) == 0 && brace_depth(flatten(separated(child_texts(node, true)).take(count))) == deepest(
            node.children.take(count),
        ),
        tree_unopened(node) ==> opened_parentheses(
            flatten(separated(child_texts(node, true)).take(count)),
        ) == total_size(node.children.take(count)),
    decreases node, 0int, count,
{
    let items = separated(child_texts(node, true));
    if count == 0 {
        assert(items.take(0) =~= Seq::<Seq<char>>::empty());
        assert(node.children.take(0) =~= Seq::<NodeModel>::empty());
    } else {
        let child = node.children[count - 1];
        let text = node_text(child, true);
        let before = flatten(items.take(count - 1));
        lemma_brackets_of_children(node, count - 1);
        lemma_long_form_mirrors_the_tree(child);
        lemma_fixed_pieces();
        lemma_brace_free_text(", "@);
        lemma_unopened_text(", "@);
        lemma_brackets_of_concatenation(text, ", "@);
        lemma_flatten_step(items, count - 1);
        assert(items[count - 1] == if count == node.children.len() {
            text
        } else {
            text + ", "@
        });
        lemma_brackets_of_concatenation(before, items[count - 1]);
        assert(node.children.take(count).drop_last() =~= node.children.take(count - 1));
        assert(node.children.take(count).last() == child);
        lemma_brace_depth_is_not_negative(before);
        lemma_brace_depth_is_not_negative(text);
    }
}

/// The long form of a tree: every brace is closed and braces nest exactly as
/// deep as the tree is, where no name, id or value holds a brace; there is
/// exactly one opening parenthesis for every node, where none of them holds
/// one.
pub proof fn lemma_long_form_mirrors_the_tree(node: NodeModel)
    ensures
        tree_brace_free(node) ==> brace_balance(node_text(node, true)) == 0 && brace_depth(
            node_text(node, true),
        ) == tree_depth(node),
        tree_unopened(node) ==> opened_parentheses(node_text(node, true)) == tree_size(node),
    decreases node, 1int, 0int,
{
    let texts = child_texts(node, true);
    let items = separated(texts);
    lemma_brackets_of_head(node);
    lemma_brackets_of_children(node, node.children.len() as int);
    assert(items.take(node.children.len() as int) =~= items);
    assert(node.children.take(node.children.len() as int) =~= node.children);
    if texts.len() > 0 {
        lemma_brackets_of_long_form();
        let head = long_head(node);
        let inside = listed(texts);
        lemma_brace_depth_is_not_negative(inside);
        lemma_unopened_text(" { "@);
        lemma_unopened_text(" }"@);
        lemma_brackets_of_concatenation(head, " { "@);
        lemma_brackets_of_concatenation(head + " { "@, inside);
        lemma_brackets_of_concatenation(head + " { "@ + inside, " }"@);
    }
}

/// In the long form of a tree whose names, ids and values hold no brace, every
/// brace is closed and braces nest exactly as deep as the tree is.
pub proof fn lemma_long_form_nests_as_the_tree(node: NodeModel)
    requires
        tree_brace_free(node),
    ensures
        brace_balance(node_text(node, true)) == 0,
        brace_depth(node_text(node, true)) == tree_depth(node),
{
    lemma_long_form_mirrors_the_tree(node);
}

/// In the long form of a tree whose names, ids and values hold no opening
/// parenthesis, there is exactly one opening parenthesis for every node.
pub proof fn lemma_long_form_has_one_unit_per_node(node: NodeModel)
    requires
        tree_unopened(node),
    ensures
        opened_parentheses(node_text(node, true)) == tree_size(node),
{
    lemma_long_form_mirrors_the_tree(node);
}

} // verus!
