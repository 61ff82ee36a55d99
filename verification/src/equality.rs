//! When two snapshots count as the same expression.

use vstd::prelude::*;
use vstd::std_specs::cmp::PartialEqSpecImpl;
use vstd::string::*;

use crate::poincare::{NodeModel, PoincareNode};

verus! {

/// The digit that a character stands for.
pub open spec fn digit_value(c: char) -> nat {
    (c as u32 - '0' as u32) as nat
}

/// Whether every character is a decimal digit.
pub open spec fn all_digits(digits: Seq<char>) -> bool {
    forall|i: int| 0 <= i < digits.len() ==> '0' <= #[trigger] digits[i] <= '9'
}

/// The number that a string of decimal digits writes.
pub open spec fn decimal_value(digits: Seq<char>) -> nat
    decreases digits.len(),
{
    if digits.len() == 0 {
        0
    } else {
        decimal_value(digits.drop_last()) * 10 + digit_value(digits.last())
    }
}

/// The digits of an id: the id itself, without a leading `+` where it has one.
pub open spec fn id_digits(id: Seq<char>) -> Seq<char> {
    if id.len() > 0 && id[0] == '+' {
        id.skip(1)
    } else {
        id
    }
}

/// The number that an id writes: one or more decimal digits, after a `+` or
/// not, whose value fits 32 bits. Any other id writes no number.
pub open spec fn id_number(id: Seq<char>) -> Option<u32> {
    let digits = id_digits(id);
    if digits.len() > 0 && all_digits(digits) && decimal_value(digits) <= u32::MAX {
        Some(decimal_value(digits) as u32)
    } else {
        None
    }
}

/// Two nodes are the same expression when their ids write the same number and
/// their children, paired in order as far as the shorter list goes, are the same
/// expressions. Names, values and children beyond the shorter list play no part.
/// A node whose id writes no number is the same expression as none, not even as
/// itself.
pub open spec fn same_expression(a: NodeModel, b: NodeModel) -> bool
    decreases a,
{
    &&& id_number(a.id) is Some
    &&& id_number(a.id) == id_number(b.id)
    &&& forall|i: int|
        0 <= i < a.children.len() && i < b.children.len() ==> same_expression(
            #[trigger] a.children[i],
            b.children[i],
        )
}

/// A longer string of digits writes no smaller a number than its beginning.
pub proof fn lemma_decimal_value_grows(digits: Seq<char>, k: int)
    requires
        0 <= k <= digits.len(),
    ensures
        decimal_value(digits.take(k)) <= decimal_value(digits),
    decreases digits.len(),
{
    if k == digits.len() {
        assert(digits.take(k) =~= digits);
    } else {
        lemma_decimal_value_grows(digits.drop_last(), k);
        assert(digits.drop_last().take(k) =~= digits.take(k));
    }
}

/// The number of children of `a` and `b` that are paired: that of the shorter
/// list.
pub open spec fn paired_children(a: NodeModel, b: NodeModel) -> nat {
    if a.children.len() <= b.children.len() {
        a.children.len()
    } else {
        b.children.len()
    }
}

/// Whether two nodes are the same expression depends only on their ids and on
/// the children that are paired: replacing a node by one with the same id and
/// the same paired children, whatever its name, its value and its other
/// children, changes nothing, on either side of the comparison.
pub proof fn lemma_same_expression_reads_ids_and_paired_children(
    a: NodeModel,
    other: NodeModel,
    b: NodeModel,
)
    requires
        other.id == a.id,
        paired_children(other, b) == paired_children(a, b),
        forall|i: int| 0 <= i < paired_children(a, b) ==> other.children[i] == a.children[i],
    ensures
        same_expression(other, b) == same_expression(a, b),
        same_expression(b, other) == same_expression(b, a),
{
    if same_expression(a, b) {
        assert forall|i: int| 0 <= i < other.children.len() && i < b.children.len() implies same_expression(
            #[trigger] other.children[i],
            b.children[i],
        ) by {
            assert(same_expression(a.children[i], b.children[i]));
        }
    }
    if same_expression(other, b) {
        assert forall|i: int| 0 <= i < a.children.len() && i < b.children.len() implies same_expression(
            #[trigger] a.children[i],
            b.children[i],
        ) by {
            assert(same_expression(other.children[i], b.children[i]));
        }
    }
    if same_expression(b, a) {
        assert forall|i: int| 0 <= i < b.children.len() && i < other.children.len() implies same_expression(
            #[trigger] b.children[i],
            other.children[i],
        ) by {
            assert(same_expression(b.children[i], a.children[i]));
        }
    }
    if same_expression(b, other) {
        assert forall|i: int| 0 <= i < b.children.len() && i < a.children.len() implies same_expression(
            #[trigger] b.children[i],
            a.children[i],
        ) by {
            assert(same_expression(b.children[i], other.children[i]));
        }
    }
}

/// Whether every id in a tree writes a number.
pub open spec fn tree_numbered(node: NodeModel) -> bool
    decreases node,
{
    &&& id_number(node.id) is Some
    &&& forall|i: int| 0 <= i < node.children.len() ==> tree_numbered(#[trigger] node.children[i])
}

/// A tree in which every id writes a number is the same expression as itself.
pub proof fn lemma_same_expression_as_itself(node: NodeModel)
    requires
        tree_numbered(node),
    ensures
        same_expression(node, node),
    decreases node,
{
    assert forall|i: int| 0 <= i < node.children.len() implies same_expression(
        #[trigger] node.children[i],
        node.children[i],
    ) by {
        lemma_same_expression_as_itself(node.children[i]);
    }
}

/// Being the same expression does not depend on the side: if `a` is the same
/// expression as `b`, then `b` is the same expression as `a`.
pub proof fn lemma_same_expression_either_way(a: NodeModel, b: NodeModel)
    requires
        same_expression(a, b),
    ensures
        same_expression(b, a),
    decreases a,
{
    assert forall|i: int| 0 <= i < b.children.len() && i < a.children.len() implies same_expression(
        #[trigger] b.children[i],
        a.children[i],
    ) by {
        assert(same_expression(a.children[i], b.children[i]));
        lemma_same_expression_either_way(a.children[i], b.children[i]);
    }
}

/// Reads the number that an id writes.
pub fn parse_id(id: &str) -> (number: Option<u32>)
    ensures
        number == id_number(id@),
{
    let mut value: u64 = 0;
    let mut any = false;
    let mut valid = true;
    let mut first = true;
    for c in it: id.chars()
        invariant
            it.seq() == id@,
            first == (it.index() == 0),
            !valid ==> id_number(id@) is None,
            valid ==> ({
                let seen = id_digits(id@.take(it.index() as int));
                &&& any == (seen.len() > 0)
                &&& all_digits(seen)
                &&& value == decimal_value(seen)
                &&& value <= u32::MAX
            }),
    {
        let ghost k = it.index() as int;
        let ghost seen = id_digits(id@.take(k));
        let ghost next = id_digits(id@.take(k + 1));
        let ghost digits = id_digits(id@);
        proof {
            assert(id@.take(k + 1)[k] == c);
            if k > 0 {
                assert(id@.take(k + 1)[0] == id@[0]);
                assert(id@.take(k)[0] == id@[0]);
            }
        }
        if first && c == '+' {
            proof {
                assert(next =~= Seq::<char>::empty());
                assert(seen =~= Seq::<char>::empty());
            }
        } else if valid {
            proof {
                assert(next =~= seen.push(c));
                assert(next.drop_last() =~= seen);
                // where the character stands among the digits of the whole id
                let at = digits.len() - (id@.len() - k);
                assert(digits[at] == c);
                assert(digits.take(at + 1) =~= next);
            }
            if '0' <= c && c <= '9' {
                let digit: u64 = (c as u32 - '0' as u32) as u64;
                value = value * 10 + digit;
                any = true;
                if value > u32::MAX as u64 {
                    proof {
                        lemma_decimal_value_grows(digits, digits.len() - (id@.len() - k) + 1);
                    }
                    valid = false;
                }
            } else {
                valid = false;
            }
        }
        first = false;
    }
    proof {
        assert(id@.take(id@.len() as int) =~= id@);
    }
    if valid && any {
        Some(value as u32)
    } else {
        None
    }
}

impl PoincareNode {
    /// Whether `self` and `other` are the same expression.
    pub fn same_as(&self, other: &PoincareNode) -> (same: bool)
        ensures
            same == same_expression(self@, other@),
        decreases self,
    {
        match (parse_id(self.id.as_str()), parse_id(other.id.as_str())) {
            (Some(left), Some(right)) => {
                if left != right {
                    return false;
                }
            },
            _ => {
                return false;
            },
        }
        let mut i: usize = 0;
        while i < self.children.len() && i < other.children.len()
            invariant
                i <= self.children.len(),
                i <= other.children.len(),
                self@.children.len() == self.children@.len(),
                other@.children.len() == other.children@.len(),
                forall|j: int|
                    0 <= j < i ==> same_expression(#[trigger] self@.children[j], other@.children[j]),
            decreases self.children.len() - i,
        {
            assert(self@.children[i as int] == self.children@[i as int]@);
            assert(other@.children[i as int] == other.children@[i as int]@);
            if !self.children[i].same_as(&other.children[i]) {
                return false;
            }
            i = i + 1;
        }
        true
    }
}

impl PartialEq for PoincareNode {
    fn eq(&self, other: &Self) -> (same: bool) {
        self.same_as(other)
    }
}

impl PartialEqSpecImpl for PoincareNode {
    open spec fn obeys_eq_spec() -> bool {
        true
    }

    open spec fn eq_spec(&self, other: &Self) -> bool {
        same_expression(self@, other@)
    }
}

} // verus!
