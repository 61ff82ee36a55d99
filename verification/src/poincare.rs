//! Expression nodes: the snapshots of a symbolic expression that a trace holds,
//! and how they are written.

use vstd::prelude::*;
use vstd::string::*;

use crate::error::{TraceError, TraceErrorModel};
use crate::notation::{
    carries_value, infix_symbol, lemma_grouping_stands_apart, infix_symbol_of, plain_name, plain_name_of, prefix_symbol,
    prefix_symbol_of, shows_value, written,
};
use crate::text::{
    carries, flatten, lemma_carries_in_sequence, lemma_carries_itself, lemma_carries_through,
    lemma_flatten_carries, lemma_flatten_step, same_text, tint,
};

verus! {

/// The value that a node of a recognised kind carries, every field kept as the
/// text found in the trace.
#[derive(Debug)]
pub enum PoincareAttributes {
    BasedInteger { base: String, integer: String },
    CodePointLayout { code_point: String },
    Decimal { negative: String, mantissa: String, exponent: String },
    Float { value: String },
    Infinity { negative: String },
    Integer { value: String },
    Matrix { rows: String, columns: String },
    Rational { negative: String, numerator: String, denominator: String },
    SymbolAbstract { name: String },
    Unit { prefix: String, root_symbol: String },
}

/// A value as contracts see it: the same kinds, every field a sequence of
/// characters.
pub enum AttributesModel {
    BasedInteger { base: Seq<char>, integer: Seq<char> },
    CodePointLayout { code_point: Seq<char> },
    Decimal { negative: Seq<char>, mantissa: Seq<char>, exponent: Seq<char> },
    Float { value: Seq<char> },
    Infinity { negative: Seq<char> },
    Integer { value: Seq<char> },
    Matrix { rows: Seq<char>, columns: Seq<char> },
    Rational { negative: Seq<char>, numerator: Seq<char>, denominator: Seq<char> },
    SymbolAbstract { name: Seq<char> },
    Unit { prefix: Seq<char>, root_symbol: Seq<char> },
}

impl View for PoincareAttributes {
    type V = AttributesModel;

    open spec fn view(&self) -> AttributesModel {
        match self {
            PoincareAttributes::BasedInteger { base, integer } => AttributesModel::BasedInteger {
                base: base@,
                integer: integer@,
            },
            PoincareAttributes::CodePointLayout { code_point } => AttributesModel::CodePointLayout {
                code_point: code_point@,
            },
            PoincareAttributes::Decimal { negative, mantissa, exponent } => AttributesModel::Decimal {
                negative: negative@,
                mantissa: mantissa@,
                exponent: exponent@,
            },
            PoincareAttributes::Float { value } => AttributesModel::Float { value: value@ },
            PoincareAttributes::Infinity { negative } => AttributesModel::Infinity {
                negative: negative@,
            },
            PoincareAttributes::Integer { value } => AttributesModel::Integer { value: value@ },
            PoincareAttributes::Matrix { rows, columns } => AttributesModel::Matrix {
                rows: rows@,
                columns: columns@,
            },
            PoincareAttributes::Rational {
                negative,
                numerator,
                denominator,
            } => AttributesModel::Rational {
                negative: negative@,
                numerator: numerator@,
                denominator: denominator@,
            },
            PoincareAttributes::SymbolAbstract { name } => AttributesModel::SymbolAbstract {
                name: name@,
            },
            PoincareAttributes::Unit { prefix, root_symbol } => AttributesModel::Unit {
                prefix: prefix@,
                root_symbol: root_symbol@,
            },
        }
    }
}

/// One sub-expression of a snapshot.
#[derive(Debug)]
pub struct PoincareNode {
    pub name: String,
    pub id: String,
    pub children: Vec<PoincareNode>,
    pub attributes: Option<PoincareAttributes>,
}

/// An expression as contracts see it: a tree of names, ids and values.
pub struct NodeModel {
    pub name: Seq<char>,
    pub id: Seq<char>,
    pub children: Seq<NodeModel>,
    pub attributes: Option<AttributesModel>,
}

/// The model of an optional value.
pub open spec fn attributes_model(attributes: Option<PoincareAttributes>) -> Option<
    AttributesModel,
> {
    match attributes {
        Some(a) => Some(a@),
        None => None,
    }
}

/// The tree that a node stands for.
pub open spec fn node_model(node: PoincareNode) -> NodeModel
    decreases node,
{
    NodeModel {
        name: node.name@,
        id: node.id@,
        children: Seq::new(
            node.children@.len(),
            |i: int|
                if 0 <= i < node.children@.len() {
                    node_model(node.children@[i])
                } else {
                    arbitrary()
                },
        ),
        attributes: attributes_model(node.attributes),
    }
}

impl View for PoincareNode {
    type V = NodeModel;

    open spec fn view(&self) -> NodeModel {
        node_model(*self)
    }
}

/// How the sign field of a value is written.
pub open spec fn sign_text(negative: Seq<char>) -> Seq<char> {
    if negative == "0"@ {
        ""@
    } else if negative == "1"@ {
        "-"@
    } else {
        "sign?"@
    }
}

/// How a value is written.
pub open spec fn attributes_text(attributes: AttributesModel) -> Seq<char> {
    match attributes {
        AttributesModel::BasedInteger { base, integer } => integer + "__"@ + base,
        AttributesModel::CodePointLayout { code_point } => code_point,
        AttributesModel::Decimal { negative, mantissa, exponent } => sign_text(negative) + mantissa
            + "x10^"@ + exponent,
        AttributesModel::Float { value } => value,
        AttributesModel::Infinity { negative } => sign_text(negative) + "inf"@,
        AttributesModel::Integer { value } => value,
        AttributesModel::Matrix { rows, columns } => "rows: "@ + rows + ", columns: "@ + columns,
        AttributesModel::Rational { negative, numerator, denominator } => sign_text(negative)
            + numerator + "/"@ + denominator,
        AttributesModel::SymbolAbstract { name } => name,
        AttributesModel::Unit { prefix, root_symbol } => prefix + root_symbol,
    }
}

/// The start of the long form: `Name(id)`, then `: value` where there is one.
pub open spec fn long_head(node: NodeModel) -> Seq<char> {
    let named = node.name + ("("@ + node.id + ")"@);
    match node.attributes {
        Some(attributes) => named + (": "@ + attributes_text(attributes)),
        None => named,
    }
}

/// The texts with `, ` behind each of them but the last.
pub open spec fn separated(texts: Seq<Seq<char>>) -> Seq<Seq<char>> {
    Seq::new(
        texts.len(),
        |i: int|
            if i == texts.len() - 1 {
                texts[i]
            } else {
                texts[i] + ", "@
            },
    )
}

/// The texts as a list: one after the other, with `, ` between them.
pub open spec fn listed(texts: Seq<Seq<char>>) -> Seq<char> {
    flatten(separated(texts))
}

/// The long form of a node whose children are written as `texts`: the head,
/// then, where there are children, the list of them between ` { ` and ` }`.
pub open spec fn long_form_text(node: NodeModel, texts: Seq<Seq<char>>) -> Seq<char> {
    if texts.len() > 0 {
        long_head(node) + " { "@ + listed(texts) + " }"@
    } else {
        long_head(node)
    }
}

/// One operand of an n-ary operation with what follows it: the operand, in
/// parentheses if it has more than one child of its own, and the operator
/// between spaces unless the operand is the last.
pub open spec fn infix_item(text: Seq<char>, wide: bool, last: bool, op: Seq<char>) -> Seq<char> {
    let operand = if wide {
        "("@ + text + ")"@
    } else {
        text
    };
    if last {
        operand
    } else {
        operand + (" "@ + op + " "@)
    }
}

/// An n-ary operation: `c1 OP c2 OP ... cN`. Without operands it is empty.
pub open spec fn infix_text(node: NodeModel, texts: Seq<Seq<char>>, op: Seq<char>) -> Seq<char> {
    flatten(
        Seq::new(
            texts.len(),
            |i: int|
                infix_item(texts[i], node.children[i].children.len() > 1, i == texts.len() - 1, op),
        ),
    )
}

/// A prefix function: `symbol(arg1, arg2, ...)`, for any number of arguments;
/// without arguments it is `symbol()`.
pub open spec fn prefix_text(texts: Seq<Seq<char>>, symbol: Seq<char>) -> Seq<char> {
    symbol + "("@ + listed(texts) + ")"@
}

/// Whether `shown` has a piece for every text, which carries it.
pub open spec fn carry_each(shown: Seq<Seq<char>>, texts: Seq<Seq<char>>) -> bool {
    &&& shown.len() == texts.len()
    &&& forall|i: int| 0 <= i < shown.len() ==> carries(#[trigger] shown[i], texts[i])
}

/// A list of pieces that carry the texts carries the list of the texts.
pub proof fn lemma_listed_carries(shown: Seq<Seq<char>>, texts: Seq<Seq<char>>)
    requires
        carry_each(shown, texts),
    ensures
        carries(listed(shown), listed(texts)),
{
    assert forall|i: int| 0 <= i < shown.len() implies carries(
        #[trigger] separated(shown)[i],
        separated(texts)[i],
    ) by {
        assert(carries(shown[i], texts[i]));
        if i != shown.len() - 1 {
            lemma_carries_itself(", "@);
            lemma_carries_in_sequence(shown[i], texts[i], ", "@, ", "@);
        }
    }
    lemma_flatten_carries(separated(shown), separated(texts));
}

/// The same pieces around what is shown and around what it carries: the first
/// carries the second.
pub proof fn lemma_carries_within(
    before: Seq<char>,
    shown: Seq<char>,
    text: Seq<char>,
    after: Seq<char>,
)
    requires
        carries(shown, text),
    ensures
        carries(before + shown + after, before + text + after),
{
    lemma_carries_itself(before);
    lemma_carries_itself(after);
    lemma_carries_in_sequence(before, before, shown, text);
    lemma_carries_in_sequence(before + shown, before + text, after, after);
}

/// An n-ary operation written around pieces that carry the operands carries
/// the operation written around the operands.
pub proof fn lemma_infix_carries(
    node: NodeModel,
    shown: Seq<Seq<char>>,
    texts: Seq<Seq<char>>,
    op: Seq<char>,
)
    requires
        carry_each(shown, texts),
    ensures
        carries(infix_text(node, shown, op), infix_text(node, texts, op)),
{
    let shown_items = Seq::new(
        shown.len(),
        |i: int| infix_item(shown[i], node.children[i].children.len() > 1, i == shown.len() - 1, op),
    );
    let items = Seq::new(
        texts.len(),
        |i: int| infix_item(texts[i], node.children[i].children.len() > 1, i == texts.len() - 1, op),
    );
    assert forall|i: int| 0 <= i < shown_items.len() implies carries(
        #[trigger] shown_items[i],
        items[i],
    ) by {
        assert(carries(shown[i], texts[i]));
        let wide = node.children[i].children.len() > 1;
        let shown_operand = if wide {
            "("@ + shown[i] + ")"@
        } else {
            shown[i]
        };
        let operand = if wide {
            "("@ + texts[i] + ")"@
        } else {
            texts[i]
        };
        if wide {
            lemma_carries_within("("@, shown[i], texts[i], ")"@);
        }
        if i != shown.len() - 1 {
            lemma_carries_itself(" "@ + op + " "@);
            lemma_carries_in_sequence(shown_operand, operand, " "@ + op + " "@, " "@ + op + " "@);
        }
    }
    lemma_flatten_carries(shown_items, items);
}

/// A prefix function written around pieces that carry the arguments carries
/// the function written around the arguments.
pub proof fn lemma_prefix_carries(shown: Seq<Seq<char>>, texts: Seq<Seq<char>>, symbol: Seq<char>)
    requires
        carry_each(shown, texts),
    ensures
        carries(prefix_text(shown, symbol), prefix_text(texts, symbol)),
{
    lemma_listed_carries(shown, texts);
    lemma_carries_within(symbol + "("@, listed(shown), listed(texts), ")"@);
}

/// The long form written around pieces that carry the children carries the
/// long form written around the children.
pub proof fn lemma_long_form_carries(node: NodeModel, shown: Seq<Seq<char>>, texts: Seq<Seq<char>>)
    requires
        carry_each(shown, texts),
    ensures
        carries(long_form_text(node, shown), long_form_text(node, texts)),
{
    if shown.len() > 0 {
        lemma_listed_carries(shown, texts);
        lemma_carries_within(long_head(node) + " { "@, listed(shown), listed(texts), " }"@);
    } else {
        lemma_carries_itself(long_head(node));
    }
}

/// The short form written around pieces that carry the children carries the
/// short form written around the children.
pub proof fn lemma_short_form_carries(
    node: NodeModel,
    shown: Seq<Seq<char>>,
    texts: Seq<Seq<char>>,
)
    requires
        carry_each(shown, texts),
        node.name == "Parenthesis"@ ==> shown.len() > 0,
    ensures
        carries(short_form_text(node, shown), short_form_text(node, texts)),
{
    if carries_value(node.name) && node.attributes is Some {
        lemma_carries_itself(attributes_text(node.attributes->0));
    } else if infix_symbol_of(node.name) is Some {
        lemma_infix_carries(node, shown, texts, infix_symbol_of(node.name)->0);
    } else if prefix_symbol_of(node.name) is Some {
        lemma_prefix_carries(shown, texts, prefix_symbol_of(node.name)->0);
    } else if plain_name_of(node.name) is Some {
        lemma_carries_itself(plain_name_of(node.name)->0);
    } else if node.name == "Parenthesis"@ {
        assert(carries(shown[0], texts[0]));
        lemma_carries_within("{"@, shown[0], texts[0], "}"@);
    } else {
        lemma_long_form_carries(node, shown, texts);
    }
}

/// The short form of a node whose children are written as `texts`. The first
/// rule that applies decides: a value, an n-ary operation, a prefix function,
/// a fixed word, an explicit grouping in braces, and the long form otherwise.
pub open spec fn short_form_text(node: NodeModel, texts: Seq<Seq<char>>) -> Seq<char> {
    if carries_value(node.name) && node.attributes is Some {
        attributes_text(node.attributes->0)
    } else if infix_symbol_of(node.name) is Some {
        infix_text(node, texts, infix_symbol_of(node.name)->0)
    } else if prefix_symbol_of(node.name) is Some {
        prefix_text(texts, prefix_symbol_of(node.name)->0)
    } else if plain_name_of(node.name) is Some {
        plain_name_of(node.name)->0
    } else if node.name == "Parenthesis"@ {
        "{"@ + texts[0] + "}"@
    } else {
        long_form_text(node, texts)
    }
}

/// The children of a node, each written in the long or in the short form.
pub open spec fn child_texts(node: NodeModel, long_form: bool) -> Seq<Seq<char>>
    decreases node, 0int,
{
    Seq::new(
        node.children.len(),
        |i: int|
            if 0 <= i < node.children.len() {
                node_text(node.children[i], long_form)
            } else {
                Seq::empty()
            },
    )
}

/// A node as one line of text, without emphasis. In the long form every node of
/// the tree is written in the long form.
pub open spec fn node_text(node: NodeModel, long_form: bool) -> Seq<char>
    decreases node, 1int,
{
    if long_form {
        long_form_text(node, child_texts(node, true))
    } else {
        short_form_text(node, child_texts(node, false))
    }
}

/// Whether every explicit grouping in the tree holds exactly one expression.
pub open spec fn well_grouped(node: NodeModel) -> bool
    decreases node,
{
    &&& node.name == "Parenthesis"@ ==> node.children.len() == 1
    &&& forall|i: int| 0 <= i < node.children.len() ==> well_grouped(#[trigger] node.children[i])
}

/// Whether the children of a node can be written: always in the long form, and
/// in the short form where each of them is well grouped.
pub open spec fn children_writable(node: NodeModel, long_form: bool) -> bool {
    long_form || forall|i: int|
        0 <= i < node.children.len() ==> well_grouped(#[trigger] node.children[i])
}

/// The name of the colour that marks nesting level `level`: three colours, taken
/// in turn.
pub open spec fn level_color(level: int) -> Seq<char> {
    if level % 3 == 0 {
        "yellow"@
    } else if level % 3 == 1 {
        "magenta"@
    } else {
        "blue"@
    }
}

impl Clone for PoincareAttributes {
    fn clone(&self) -> (copy: Self)
        ensures
            copy@ == self@,
    {
        match self {
            Self::BasedInteger { base, integer } => Self::BasedInteger {
                base: base.clone(),
                integer: integer.clone(),
            },
            Self::CodePointLayout { code_point } => Self::CodePointLayout {
                code_point: code_point.clone(),
            },
            Self::Decimal { negative, mantissa, exponent } => Self::Decimal {
                negative: negative.clone(),
                mantissa: mantissa.clone(),
                exponent: exponent.clone(),
            },
            Self::Float { value } => Self::Float {
                value: value.clone(),
            },
            Self::Infinity { negative } => Self::Infinity {
                negative: negative.clone(),
            },
            Self::Integer { value } => Self::Integer {
                value: value.clone(),
            },
            Self::Matrix { rows, columns } => Self::Matrix {
                rows: rows.clone(),
                columns: columns.clone(),
            },
            Self::Rational { negative, numerator, denominator } => Self::Rational {
                negative: negative.clone(),
                numerator: numerator.clone(),
                denominator: denominator.clone(),
            },
            Self::SymbolAbstract { name } => Self::SymbolAbstract {
                name: name.clone(),
            },
            Self::Unit { prefix, root_symbol } => Self::Unit {
                prefix: prefix.clone(),
                root_symbol: root_symbol.clone(),
            },
        }
    }
}

impl Clone for PoincareNode {
    fn clone(&self) -> (copy: Self)
        ensures
            copy@ == self@,
        decreases self,
    {
        let mut children: Vec<PoincareNode> = Vec::new();
        let mut i: usize = 0;
        while i < self.children.len()
            invariant
                i <= self.children.len(),
                children@.len() == i,
                forall|j: int| 0 <= j < i ==> (#[trigger] children@[j])@ == self.children@[j]@,
            decreases self.children.len() - i,
        {
            children.push(self.children[i].clone());
            i = i + 1;
        }
        let attributes = match &self.attributes {
            Some(attributes) => Some(attributes.clone()),
            None => None,
        };
        let copy = PoincareNode { name: self.name.clone(), id: self.id.clone(), children, attributes };
        assert(copy@.children =~= self@.children);
        copy
    }
}

impl PoincareAttributes {
    /// How the sign field of a value is written.
    fn sign(negative: &str) -> (out: &'static str)
        ensures
            out@ == sign_text(negative@),
    {
        if same_text(negative, "0") {
            ""
        } else if same_text(negative, "1") {
            "-"
        } else {
            "sign?"
        }
    }

    /// Writes the value, as the notation of its kind asks.
    pub fn pretty_print(&self) -> (out: String)
        ensures
            out@ == attributes_text(self@),
    {
        match self {
            Self::BasedInteger { base, integer } => {
                let mut out = integer.clone();
                out.append("__");
                out.append(base.as_str());
                out
            },
            Self::CodePointLayout { code_point } => code_point.clone(),
            Self::Decimal { negative, mantissa, exponent } => {
                let mut out = String::from_str(Self::sign(negative.as_str()));
                out.append(mantissa.as_str());
                out.append("x10^");
                out.append(exponent.as_str());
                out
            },
            Self::Float { value } => value.clone(),
            Self::Infinity { negative } => {
                let mut out = String::from_str(Self::sign(negative.as_str()));
                out.append("inf");
                out
            },
            Self::Integer { value } => value.clone(),
            Self::Matrix { rows, columns } => {
                let mut out = String::from_str("rows: ");
                out.append(rows.as_str());
                out.append(", columns: ");
                out.append(columns.as_str());
                out
            },
            Self::Rational { negative, numerator, denominator } => {
                let mut out = String::from_str(Self::sign(negative.as_str()));
                out.append(numerator.as_str());
                out.append("/");
                out.append(denominator.as_str());
                out
            },
            Self::SymbolAbstract { name } => name.clone(),
            Self::Unit { prefix, root_symbol } => {
                let mut out = prefix.clone();
                out.append(root_symbol.as_str());
                out
            },
        }
    }
}

impl PoincareNode {
    /// The colour name for a nesting level.
    fn nesting_level_color(level: usize) -> (color: &'static str)
        ensures
            color@ == level_color(level as int),
    {
        let level: usize = level % 3;
        if level == 0 {
            "yellow"
        } else if level == 1 {
            "magenta"
        } else {
            "blue"
        }
    }

    /// Writes each child, in the long or in the short form.
    fn print_children(&self, nesting_level: usize, long_form: bool, colorize: bool) -> (out: Result<
        Vec<String>,
        TraceError,
    >)
        ensures
            out is Ok <==> children_writable(self@, long_form),
            out matches Err(e) ==> e@ == TraceErrorModel::ParenthesisArity,
            out matches Ok(texts) ==> texts@.len() == self.children@.len(),
            out matches Ok(texts) ==> carry_each(
                texts@.map_values(|t: String| t@),
                child_texts(self@, long_form),
            ),
            out matches Ok(texts) ==> !colorize ==> texts@.map_values(|t: String| t@)
                == child_texts(self@, long_form),
        decreases self, 0int,
    {
        let mut texts: Vec<String> = Vec::new();
        let mut i: usize = 0;
        while i < self.children.len()
            invariant
                i <= self.children.len(),
                texts@.len() == i,
                self@.children.len() == self.children@.len(),
                forall|j: int| 0 <= j < i ==> long_form || well_grouped(#[trigger] self@.children[j]),
                forall|j: int|
                    0 <= j < i ==> carries(
                        (#[trigger] texts@[j])@,
                        node_text(self@.children[j], long_form),
                    ),
                !colorize ==> forall|j: int|
                    0 <= j < i ==> (#[trigger] texts@[j])@ == node_text(self@.children[j], long_form),
            decreases self.children.len() - i,
        {
            assert(self@.children[i as int] == self.children@[i as int]@);
            match self.children[i].pretty_print(nesting_level % 3 + 1, long_form, colorize) {
                Ok(text) => {
                    texts.push(text);
                },
                Err(e) => {
                    return Err(e);
                },
            }
            i = i + 1;
        }
        proof {
            let shown = texts@.map_values(|t: String| t@);
            assert forall|j: int| 0 <= j < shown.len() implies carries(
                #[trigger] shown[j],
                child_texts(self@, long_form)[j],
            ) by {
                assert(carries(texts@[j]@, node_text(self@.children[j], long_form)));
            }
            if !colorize {
                assert(shown =~= child_texts(self@, long_form));
            }
        }
        Ok(texts)
    }

    /// Writes the node in the long form, `Name(id): value { child, child }`,
    /// with the children in the long form too or in the short form. With
    /// `colorize` the text is emphasised for a terminal: it is then the same
    /// text with escape codes in between.
    pub fn print_long_form(
        &self,
        nesting_level: usize,
        long_form_for_children: bool,
        colorize: bool,
    ) -> (out: Result<String, TraceError>)
        ensures
            out is Ok <==> children_writable(self@, long_form_for_children),
            out matches Err(e) ==> e@ == TraceErrorModel::ParenthesisArity,
            out matches Ok(text) ==> carries(
                text@,
                long_form_text(self@, child_texts(self@, long_form_for_children)),
            ),
            out matches Ok(text) ==> !colorize ==> text@ == long_form_text(
                self@,
                child_texts(self@, long_form_for_children),
            ),
        decreases self, 1int,
    {
        let texts = match self.print_children(nesting_level, long_form_for_children, colorize) {
            Ok(texts) => texts,
            Err(e) => {
                return Err(e);
            },
        };
        let text = self.long_form_with(&texts, nesting_level, colorize);
        proof {
            let shown = texts@.map_values(|t: String| t@);
            let plain = child_texts(self@, long_form_for_children);
            lemma_long_form_carries(self@, shown, plain);
            lemma_carries_through(
                text@,
                long_form_text(self@, shown),
                long_form_text(self@, plain),
            );
        }
        Ok(text)
    }

    /// The texts as a list, with `, ` between them.
    fn list_of(texts: &Vec<String>) -> (out: String)
        ensures
            out@ == listed(texts@.map_values(|t: String| t@)),
    {
        let ghost pieces = texts@.map_values(|t: String| t@);
        let ghost items = separated(pieces);
        let mut output = String::new();
        assert(output@ =~= flatten(items.take(0)));
        let mut i: usize = 0;
        while i < texts.len()
            invariant
                i <= texts.len(),
                pieces == texts@.map_values(|t: String| t@),
                items == separated(pieces),
                output@ == flatten(items.take(i as int)),
            decreases texts.len() - i,
        {
            let mut item = texts[i].clone();
            if i != texts.len() - 1 {
                item.append(", ");
            }
            proof {
                lemma_flatten_step(items, i as int);
            }
            output.append(item.as_str());
            i = i + 1;
        }
        assert(items.take(texts.len() as int) =~= items);
        output
    }

    /// The long form around children that are already written.
    fn long_form_with(&self, texts: &Vec<String>, nesting_level: usize, colorize: bool) -> (out:
        String)
        ensures
            carries(out@, long_form_text(self@, texts@.map_values(|t: String| t@))),
            !colorize ==> out@ == long_form_text(self@, texts@.map_values(|t: String| t@)),
    {
        let ghost pieces = texts@.map_values(|t: String| t@);
        let mut output = self.name.clone();
        let mut id_text = String::from_str("(");
        id_text.append(self.id.as_str());
        id_text.append(")");
        let ghost id_plain = id_text@;
        let id_text = tint(id_text.as_str(), "white", colorize);
        output.append(id_text.as_str());
        proof {
            lemma_carries_itself(self.name@);
            lemma_carries_in_sequence(self.name@, self.name@, id_text@, id_plain);
        }
        let ghost named = self.name@ + id_plain;
        match &self.attributes {
            Some(attributes) => {
                let attributes_plain = attributes.pretty_print();
                let attributes_text = tint(attributes_plain.as_str(), "green", colorize);
                let mut with_colon = String::from_str(": ");
                with_colon.append(attributes_text.as_str());
                proof {
                    lemma_carries_itself(": "@);
                    lemma_carries_in_sequence(": "@, ": "@, attributes_text@, attributes_plain@);
                    lemma_carries_in_sequence(
                        output@,
                        named,
                        with_colon@,
                        ": "@ + attributes_plain@,
                    );
                }
                output.append(with_colon.as_str());
            },
            None => {},
        }
        assert(carries(output@, long_head(self@)));
        assert(!colorize ==> output@ == long_head(self@));
        let ghost head = output@;
        if texts.len() > 0 {
            let list = Self::list_of(texts);
            output.append(" { ");
            output.append(list.as_str());
            output.append(" }");
            proof {
                let tail = " { "@ + listed(pieces) + " }"@;
                assert(output@ =~= head + tail);
                assert(long_form_text(self@, pieces) =~= long_head(self@) + tail);
                lemma_carries_itself(tail);
                lemma_carries_in_sequence(head, long_head(self@), tail, tail);
            }
        }
        let ghost whole = output@;
        let out = tint(output.as_str(), Self::nesting_level_color(nesting_level), colorize);
        proof {
            lemma_carries_through(out@, whole, long_form_text(self@, pieces));
        }
        out
    }

    /// An n-ary operation around operands that are already written.
    fn infix_with(&self, texts: &Vec<String>, op: &str) -> (out: String)
        requires
            texts@.len() == self.children@.len(),
        ensures
            out@ == infix_text(self@, texts@.map_values(|t: String| t@), op@),
    {
        let ghost pieces = texts@.map_values(|t: String| t@);
        let ghost items = Seq::new(
            pieces.len(),
            |i: int|
                infix_item(pieces[i], self@.children[i].children.len() > 1, i == pieces.len() - 1, op@),
        );
        let mut output = String::new();
        assert(output@ =~= flatten(items.take(0)));
        let mut i: usize = 0;
        while i < texts.len()
            invariant
                i <= texts.len(),
                texts@.len() == self.children@.len(),
                pieces == texts@.map_values(|t: String| t@),
                items == Seq::new(
                    pieces.len(),
                    |i: int|
                        infix_item(
                            pieces[i],
                            self@.children[i].children.len() > 1,
                            i == pieces.len() - 1,
                            op@,
                        ),
                ),
                output@ == flatten(items.take(i as int)),
            decreases texts.len() - i,
        {
            assert(self@.children[i as int] == self.children@[i as int]@);
            assert(self.children@[i as int]@.children.len() == self.children@[i as int].children@.len());
            let mut item = if self.children[i].children.len() > 1 {
                let mut wrapped = String::from_str("(");
                wrapped.append(texts[i].as_str());
                wrapped.append(")");
                wrapped
            } else {
                texts[i].clone()
            };
            if i != texts.len() - 1 {
                let mut operator = String::from_str(" ");
                operator.append(op);
                operator.append(" ");
                item.append(operator.as_str());
            }
            proof {
                lemma_flatten_step(items, i as int);
            }
            output.append(item.as_str());
            i = i + 1;
        }
        assert(items.take(texts.len() as int) =~= items);
        output
    }

    /// A prefix function around arguments that are already written.
    fn prefix_with(texts: &Vec<String>, symbol: &str) -> (out: String)
        ensures
            out@ == prefix_text(texts@.map_values(|t: String| t@), symbol@),
    {
        let list = Self::list_of(texts);
        let mut output = String::from_str(symbol);
        output.append("(");
        output.append(list.as_str());
        output.append(")");
        output
    }

    /// Writes the node as one line: in the long form, or in the notation of its
    /// kind. `nesting_level` only chooses the colour. A grouping that does not
    /// hold exactly one expression cannot be written in the short form. With
    /// `colorize` the text is emphasised for a terminal: it is then the same
    /// text with escape codes in between.
    pub fn pretty_print(&self, nesting_level: usize, long_form: bool, colorize: bool) -> (out:
        Result<String, TraceError>)
        ensures
            out is Ok <==> long_form || well_grouped(self@),
            out matches Err(e) ==> e@ == TraceErrorModel::ParenthesisArity,
            out matches Ok(text) ==> carries(text@, node_text(self@, long_form)),
            out matches Ok(text) ==> !colorize ==> text@ == node_text(self@, long_form),
        decreases self, 2int,
    {
        if long_form {
            return self.print_long_form(nesting_level, long_form, colorize);
        }
        let texts = match self.print_children(nesting_level, false, colorize) {
            Ok(texts) => texts,
            Err(e) => {
                return Err(e);
            },
        };
        let ghost pieces = texts@.map_values(|t: String| t@);
        proof {
            lemma_grouping_stands_apart();
        }
        let name = self.name.as_str();
        let output = if shows_value(name) && self.attributes.is_some() {
            match &self.attributes {
                Some(attributes) => attributes.pretty_print(),
                None => String::new(),
            }
        } else if let Some(op) = infix_symbol(name) {
            self.infix_with(&texts, op)
        } else if let Some(symbol) = prefix_symbol(name) {
            Self::prefix_with(&texts, symbol)
        } else if let Some(word) = plain_name(name) {
            String::from_str(word)
        } else if same_text(name, "Parenthesis") {
            if texts.len() != 1 {
                return Err(TraceError::ParenthesisArity);
            }
            let mut grouped = String::from_str("{");
            grouped.append(texts[0].as_str());
            grouped.append("}");
            grouped
        } else {
            self.long_form_with(&texts, nesting_level, colorize)
        };
        let ghost written = output@;
        let out = tint(output.as_str(), Self::nesting_level_color(nesting_level), colorize);
        proof {
            let plain = child_texts(self@, false);
            lemma_carries_itself(short_form_text(self@, pieces));
            assert(carries(written, short_form_text(self@, pieces)));
            lemma_short_form_carries(self@, pieces, plain);
            lemma_carries_through(written, short_form_text(self@, pieces), short_form_text(self@, plain));
            lemma_carries_through(out@, written, short_form_text(self@, plain));
        }
        Ok(out)
    }
}

} // verus!
