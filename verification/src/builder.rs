//! Building expression nodes from the events of a trace.

use quick_xml::reader::Reader;
use vstd::prelude::*;
use vstd::string::*;

use crate::error::{TraceError, TraceErrorModel};
use crate::events::{
    attribute_value, get_attribute_from_start, next_event, pending_events, position, Lookup,
    LookupModel,
    reader_offset, StartTag, StartTagModel, TagEvent, TagEventModel,
};
use crate::poincare::{
    attributes_model, AttributesModel, NodeModel, PoincareAttributes, PoincareNode,
};
use crate::text::same_text;

verus! {

/// What is wrong with a trace, apart from where.
pub enum Fault {
    Source(Seq<char>),
    Unexpected(TagEventModel),
    MissingId(Seq<char>),
    MissingName,
    TooManyNodes,
}

/// The error that reports `fault` at byte offset `position`.
pub open spec fn fault_at(fault: Fault, position: usize) -> TraceErrorModel {
    match fault {
        Fault::Source(reason) => TraceErrorModel::Source { reason, position },
        Fault::Unexpected(event) => TraceErrorModel::Unexpected { event, position },
        Fault::MissingId(name) => TraceErrorModel::MissingId { name, position },
        Fault::MissingName => TraceErrorModel::MissingName { position },
        Fault::TooManyNodes => TraceErrorModel::TooManyNodes { position },
    }
}

/// How reading a part of a trace ends: with what was built and the events that
/// follow it, or with a fault and the events that follow the offending one.
pub enum Parsed<T> {
    Done { value: T, rest: Seq<TagEventModel> },
    Failed { fault: Fault, rest: Seq<TagEventModel> },
}

/// The value that an opening tag gives its node: that of the kind that the tag
/// names, where the tag has every attribute that the kind asks for. A tag of
/// another kind, or one that lacks an attribute, gives none. The attributes are
/// looked for in the order of the kind's fields, and the first that is lacking
/// ends the search; a search that meets what the reader refuses fails with the
/// reader's reason.
pub open spec fn attributes_of(tag: StartTagModel) -> Result<Option<AttributesModel>, Seq<char>> {
    let given = tag.attributes;
    if tag.name == "BasedInteger"@ {
        match attribute_value(given, "base"@) {
            LookupModel::Broken(reason) => Err(reason),
            LookupModel::Missing => Ok(None),
            LookupModel::Found(base) => match attribute_value(given, "integer"@) {
                LookupModel::Broken(reason) => Err(reason),
                LookupModel::Missing => Ok(None),
                LookupModel::Found(integer) => Ok(Some(AttributesModel::BasedInteger { base, integer })),
            },
        }
    } else if tag.name == "CodePointLayout"@ {
        match attribute_value(given, "CodePoint"@) {
            LookupModel::Broken(reason) => Err(reason),
            LookupModel::Missing => Ok(None),
            LookupModel::Found(code_point) => Ok(Some(AttributesModel::CodePointLayout { code_point })),
        }
    } else if tag.name == "Decimal"@ {
        match attribute_value(given, "negative"@) {
            LookupModel::Broken(reason) => Err(reason),
            LookupModel::Missing => Ok(None),
            LookupModel::Found(negative) => match attribute_value(given, "mantissa"@) {
                LookupModel::Broken(reason) => Err(reason),
                LookupModel::Missing => Ok(None),
                LookupModel::Found(mantissa) => match attribute_value(given, "exponent"@) {
                    LookupModel::Broken(reason) => Err(reason),
                    LookupModel::Missing => Ok(None),
                    LookupModel::Found(exponent) => Ok(Some(AttributesModel::Decimal { negative, mantissa, exponent })),
                },
            },
        }
    } else if tag.name == "Float"@ {
        match attribute_value(given, "value"@) {
            LookupModel::Broken(reason) => Err(reason),
            LookupModel::Missing => Ok(None),
            LookupModel::Found(value) => Ok(Some(AttributesModel::Float { value })),
        }
    } else if tag.name == "Infinity"@ {
        match attribute_value(given, "negative"@) {
            LookupModel::Broken(reason) => Err(reason),
            LookupModel::Missing => Ok(None),
            LookupModel::Found(negative) => Ok(Some(AttributesModel::Infinity { negative })),
        }
    } else if tag.name == "Integer"@ {
        match attribute_value(given, "value"@) {
            LookupModel::Broken(reason) => Err(reason),
            LookupModel::Missing => Ok(None),
            LookupModel::Found(value) => Ok(Some(AttributesModel::Integer { value })),
        }
    } else if tag.name == "Matrix"@ {
        match attribute_value(given, "rows"@) {
            LookupModel::Broken(reason) => Err(reason),
            LookupModel::Missing => Ok(None),
            LookupModel::Found(rows) => match attribute_value(given, "columns"@) {
                LookupModel::Broken(reason) => Err(reason),
                LookupModel::Missing => Ok(None),
                LookupModel::Found(columns) => Ok(Some(AttributesModel::Matrix { rows, columns })),
            },
        }
    } else if tag.name == "Rational"@ {
        match attribute_value(given, "negative"@) {
            LookupModel::Broken(reason) => Err(reason),
            LookupModel::Missing => Ok(None),
            LookupModel::Found(negative) => match attribute_value(given, "numerator"@) {
                LookupModel::Broken(reason) => Err(reason),
                LookupModel::Missing => Ok(None),
                LookupModel::Found(numerator) => match attribute_value(given, "denominator"@) {
                    LookupModel::Broken(reason) => Err(reason),
                    LookupModel::Missing => Ok(None),
                    LookupModel::Found(denominator) => Ok(Some(AttributesModel::Rational { negative, numerator, denominator })),
                },
            },
        }
    } else if tag.name == "SymbolAbstract"@ || tag.name == "Symbol"@ || tag.name == "Sequence"@ || tag.name == "Function"@ || tag.name == "Constant"@ {
        match attribute_value(given, "name"@) {
            LookupModel::Broken(reason) => Err(reason),
            LookupModel::Missing => Ok(None),
            LookupModel::Found(name) => Ok(Some(AttributesModel::SymbolAbstract { name })),
        }
    } else if tag.name == "Unit"@ {
        match attribute_value(given, "prefix"@) {
            LookupModel::Broken(reason) => Err(reason),
            LookupModel::Missing => Ok(None),
            LookupModel::Found(prefix) => match attribute_value(given, "rootSymbol"@) {
                LookupModel::Broken(reason) => Err(reason),
                LookupModel::Missing => Ok(None),
                LookupModel::Found(root_symbol) => Ok(Some(AttributesModel::Unit { prefix, root_symbol })),
            },
        }
    } else {
        Ok(None)
    }
}

/// What reading a value gave, as contracts see it.
pub open spec fn value_model(value: Result<Option<PoincareAttributes>, String>) -> Result<
    Option<AttributesModel>,
    Seq<char>,
> {
    match value {
        Ok(attributes) => Ok(attributes_model(attributes)),
        Err(reason) => Err(reason@),
    }
}

/// The node that an opening tag starts, still without children. A tag without
/// an `id` starts none, and neither does one in which the search for the `id`
/// or for the value meets what the reader refuses.
pub open spec fn node_from_start(tag: StartTagModel) -> Result<NodeModel, Fault> {
    match attribute_value(tag.attributes, "id"@) {
        LookupModel::Broken(reason) => Err(Fault::Source(reason)),
        LookupModel::Missing => Err(Fault::MissingId(tag.name)),
        LookupModel::Found(id) => match attributes_of(tag) {
            Err(reason) => Err(Fault::Source(reason)),
            Ok(attributes) => Ok(
                NodeModel { name: tag.name, id, children: Seq::empty(), attributes },
            ),
        },
    }
}

/// Reading the opening tag of a node: the next event has to be an opening tag
/// with an `id`.
pub open spec fn parse_opening(events: Seq<TagEventModel>) -> Parsed<NodeModel> {
    if events.len() == 0 {
        Parsed::Failed { fault: Fault::Unexpected(TagEventModel::Eof), rest: events }
    } else {
        match events[0] {
            TagEventModel::Start(tag) => match node_from_start(tag) {
                Ok(node) => Parsed::Done { value: node, rest: events.skip(1) },
                Err(fault) => Parsed::Failed { fault, rest: events.skip(1) },
            },
            TagEventModel::Malformed(reason) => Parsed::Failed {
                fault: Fault::Source(reason),
                rest: events.skip(1),
            },
            other => Parsed::Failed { fault: Fault::Unexpected(other), rest: events.skip(1) },
        }
    }
}

/// Reading the children of the node `name` after `children` have been read:
/// every opening tag starts a child, which is read to its end; the closing tag
/// `name` ends the node, and nothing else does. Any other closing tag, any
/// other event and the end of the document are faults.
///
/// (The test on the number of events that are left always holds, see
/// `lemma_parse_children_consumes`; it shows that the reading ends.)
pub open spec fn parse_children(
    name: Seq<char>,
    children: Seq<NodeModel>,
    events: Seq<TagEventModel>,
) -> Parsed<Seq<NodeModel>>
    decreases events.len(),
{
    if events.len() == 0 {
        Parsed::Failed { fault: Fault::Unexpected(TagEventModel::Eof), rest: events }
    } else {
        let rest = events.skip(1);
        match events[0] {
            TagEventModel::Start(tag) => match node_from_start(tag) {
                Err(fault) => Parsed::Failed { fault, rest },
                Ok(child) => match parse_children(tag.name, Seq::empty(), rest) {
                    Parsed::Failed { fault, rest: left } => Parsed::Failed { fault, rest: left },
                    Parsed::Done { value: below, rest: left } => if left.len() < events.len() {
                        parse_children(
                            name,
                            children.push(NodeModel { children: below, ..child }),
                            left,
                        )
                    } else {
                        Parsed::Failed { fault: Fault::Source(Seq::empty()), rest: left }
                    },
                },
            },
            TagEventModel::End(closing) => if closing == name {
                Parsed::Done { value: children, rest }
            } else {
                Parsed::Failed { fault: Fault::Unexpected(TagEventModel::End(closing)), rest }
            },
            TagEventModel::Malformed(reason) => Parsed::Failed { fault: Fault::Source(reason), rest },
            other => Parsed::Failed { fault: Fault::Unexpected(other), rest },
        }
    }
}

/// The events that are left after a part of a trace was read.
pub open spec fn left_over<T>(parsed: Parsed<T>) -> Seq<TagEventModel> {
    match parsed {
        Parsed::Done { rest, .. } => rest,
        Parsed::Failed { rest, .. } => rest,
    }
}

/// Reading the children of a node never hands events back.
pub proof fn lemma_parse_children_consumes(
    name: Seq<char>,
    children: Seq<NodeModel>,
    events: Seq<TagEventModel>,
)
    ensures
        left_over(parse_children(name, children, events)).len() <= events.len(),
    decreases events.len(),
{
    if events.len() > 0 {
        let rest = events.skip(1);
        match events[0] {
            TagEventModel::Start(tag) => match node_from_start(tag) {
                Err(_) => {},
                Ok(child) => {
                    lemma_parse_children_consumes(tag.name, Seq::empty(), rest);
                    match parse_children(tag.name, Seq::empty(), rest) {
                        Parsed::Failed { .. } => {},
                        Parsed::Done { value: below, rest: left } => {
                            lemma_parse_children_consumes(
                                name,
                                children.push(NodeModel { children: below, ..child }),
                                left,
                            );
                        },
                    }
                },
            },
            _ => {},
        }
    }
}

/// Reading a whole node: its opening tag, then its children to its end.
pub open spec fn parse_node(events: Seq<TagEventModel>) -> Parsed<NodeModel> {
    match parse_opening(events) {
        Parsed::Failed { fault, rest } => Parsed::Failed { fault, rest },
        Parsed::Done { value: node, rest } => match parse_children(node.name, Seq::empty(), rest) {
            Parsed::Failed { fault, rest: left } => Parsed::Failed { fault, rest: left },
            Parsed::Done { value: children, rest: left } => Parsed::Done {
                value: NodeModel { children, ..node },
                rest: left,
            },
        },
    }
}

/// Reading the end of what `wrapper` encloses: the next event has to be the
/// closing tag `wrapper`.
pub open spec fn parse_closing(wrapper: Seq<char>, events: Seq<TagEventModel>) -> Parsed<()> {
    if events.len() == 0 {
        Parsed::Failed { fault: Fault::Unexpected(TagEventModel::Eof), rest: events }
    } else {
        match events[0] {
            TagEventModel::End(closing) => if closing == wrapper {
                Parsed::Done { value: (), rest: events.skip(1) }
            } else {
                Parsed::Failed {
                    fault: Fault::Unexpected(TagEventModel::End(closing)),
                    rest: events.skip(1),
                }
            },
            TagEventModel::Malformed(reason) => Parsed::Failed {
                fault: Fault::Source(reason),
                rest: events.skip(1),
            },
            other => Parsed::Failed { fault: Fault::Unexpected(other), rest: events.skip(1) },
        }
    }
}

/// Reading what `wrapper` encloses: one expression node, and the closing tag
/// `wrapper` right after it.
pub open spec fn parse_enclosed(wrapper: Seq<char>, events: Seq<TagEventModel>) -> Parsed<
    NodeModel,
> {
    match parse_node(events) {
        Parsed::Failed { fault, rest } => Parsed::Failed { fault, rest },
        Parsed::Done { value: node, rest } => match parse_closing(wrapper, rest) {
            Parsed::Failed { fault, rest: left } => Parsed::Failed { fault, rest: left },
            Parsed::Done { rest: left, .. } => Parsed::Done { value: node, rest: left },
        },
    }
}

/// Reading a whole node never hands events back.
pub proof fn lemma_parse_node_consumes(events: Seq<TagEventModel>)
    ensures
        left_over(parse_node(events)).len() <= events.len(),
{
    match parse_opening(events) {
        Parsed::Failed { .. } => {},
        Parsed::Done { value: node, rest } => {
            lemma_parse_children_consumes(node.name, Seq::empty(), rest);
        },
    }
}

/// Reading what a wrapper encloses never hands events back.
pub proof fn lemma_parse_enclosed_consumes(wrapper: Seq<char>, events: Seq<TagEventModel>)
    ensures
        left_over(parse_enclosed(wrapper, events)).len() <= events.len(),
{
    lemma_parse_node_consumes(events);
}

impl PoincareAttributes {
    /// Reads the value of a node from its opening tag. The error is the reason
    /// for which the reader refuses an attribute that the search met.
    pub fn try_from_start(start: &StartTag) -> (out: Result<Option<Self>, String>)
        ensures
            value_model(out) == attributes_of(start@),
    {
        let name = start.name.as_str();
        if same_text(name, "BasedInteger") {
            let base = match get_attribute_from_start(start, "base") {
                Lookup::Found(text) => text,
                Lookup::Missing => {
                    return Ok(None);
                },
                Lookup::Broken(reason) => {
                    return Err(reason);
                },
            };
            let integer = match get_attribute_from_start(start, "integer") {
                Lookup::Found(text) => text,
                Lookup::Missing => {
                    return Ok(None);
                },
                Lookup::Broken(reason) => {
                    return Err(reason);
                },
            };
            Ok(Some(Self::BasedInteger { base, integer }))
        } else if same_text(name, "CodePointLayout") {
            let code_point = match get_attribute_from_start(start, "CodePoint") {
                Lookup::Found(text) => text,
                Lookup::Missing => {
                    return Ok(None);
                },
                Lookup::Broken(reason) => {
                    return Err(reason);
                },
            };
            Ok(Some(Self::CodePointLayout { code_point }))
        } else if same_text(name, "Decimal") {
            let negative = match get_attribute_from_start(start, "negative") {
                Lookup::Found(text) => text,
                Lookup::Missing => {
                    return Ok(None);
                },
                Lookup::Broken(reason) => {
                    return Err(reason);
                },
            };
            let mantissa = match get_attribute_from_start(start, "mantissa") {
                Lookup::Found(text) => text,
                Lookup::Missing => {
                    return Ok(None);
                },
                Lookup::Broken(reason) => {
                    return Err(reason);
                },
            };
            let exponent = match get_attribute_from_start(start, "exponent") {
                Lookup::Found(text) => text,
                Lookup::Missing => {
                    return Ok(None);
                },
                Lookup::Broken(reason) => {
                    return Err(reason);
                },
            };
            Ok(Some(Self::Decimal { negative, mantissa, exponent }))
        } else if same_text(name, "Float") {
            let value = match get_attribute_from_start(start, "value") {
                Lookup::Found(text) => text,
                Lookup::Missing => {
                    return Ok(None);
                },
                Lookup::Broken(reason) => {
                    return Err(reason);
                },
            };
            Ok(Some(Self::Float { value }))
        } else if same_text(name, "Infinity") {
            let negative = match get_attribute_from_start(start, "negative") {
                Lookup::Found(text) => text,
                Lookup::Missing => {
                    return Ok(None);
                },
                Lookup::Broken(reason) => {
                    return Err(reason);
                },
            };
            Ok(Some(Self::Infinity { negative }))
        } else if same_text(name, "Integer") {
            let value = match get_attribute_from_start(start, "value") {
                Lookup::Found(text) => text,
                Lookup::Missing => {
                    return Ok(None);
                },
                Lookup::Broken(reason) => {
                    return Err(reason);
                },
            };
            Ok(Some(Self::Integer { value }))
        } else if same_text(name, "Matrix") {
            let rows = match get_attribute_from_start(start, "rows") {
                Lookup::Found(text) => text,
                Lookup::Missing => {
                    return Ok(None);
                },
                Lookup::Broken(reason) => {
                    return Err(reason);
                },
            };
            let columns = match get_attribute_from_start(start, "columns") {
                Lookup::Found(text) => text,
                Lookup::Missing => {
                    return Ok(None);
                },
                Lookup::Broken(reason) => {
                    return Err(reason);
                },
            };
            Ok(Some(Self::Matrix { rows, columns }))
        } else if same_text(name, "Rational") {
            let negative = match get_attribute_from_start(start, "negative") {
                Lookup::Found(text) => text,
                Lookup::Missing => {
                    return Ok(None);
                },
                Lookup::Broken(reason) => {
                    return Err(reason);
                },
            };
            let numerator = match get_attribute_from_start(start, "numerator") {
                Lookup::Found(text) => text,
                Lookup::Missing => {
                    return Ok(None);
                },
                Lookup::Broken(reason) => {
                    return Err(reason);
                },
            };
            let denominator = match get_attribute_from_start(start, "denominator") {
                Lookup::Found(text) => text,
                Lookup::Missing => {
                    return Ok(None);
                },
                Lookup::Broken(reason) => {
                    return Err(reason);
                },
            };
            Ok(Some(Self::Rational { negative, numerator, denominator }))
        } else if same_text(name, "SymbolAbstract") || same_text(name, "Symbol") || same_text(name, "Sequence") || same_text(name, "Function") || same_text(name, "Constant") {
            let name = match get_attribute_from_start(start, "name") {
                Lookup::Found(text) => text,
                Lookup::Missing => {
                    return Ok(None);
                },
                Lookup::Broken(reason) => {
                    return Err(reason);
                },
            };
            Ok(Some(Self::SymbolAbstract { name }))
        } else if same_text(name, "Unit") {
            let prefix = match get_attribute_from_start(start, "prefix") {
                Lookup::Found(text) => text,
                Lookup::Missing => {
                    return Ok(None);
                },
                Lookup::Broken(reason) => {
                    return Err(reason);
                },
            };
            let root_symbol = match get_attribute_from_start(start, "rootSymbol") {
                Lookup::Found(text) => text,
                Lookup::Missing => {
                    return Ok(None);
                },
                Lookup::Broken(reason) => {
                    return Err(reason);
                },
            };
            Ok(Some(Self::Unit { prefix, root_symbol }))
        } else {
            Ok(None)
        }
    }
}

impl PoincareNode {
    /// Starts a node from its opening tag, read at byte offset `pos`.
    pub fn from_start(start: &StartTag, pos: usize) -> (out: Result<Self, TraceError>)
        ensures
            match out {
                Ok(node) => node_from_start(start@) == Ok::<NodeModel, Fault>(node@),
                Err(e) => node_from_start(start@) matches Err(fault) && e@ == fault_at(fault, pos),
            },
    {
        let id = match get_attribute_from_start(start, "id") {
            Lookup::Found(id) => id,
            Lookup::Missing => {
                return Err(TraceError::MissingId { name: start.name.clone(), position: pos });
            },
            Lookup::Broken(reason) => {
                return Err(TraceError::Source { reason, position: pos });
            },
        };
        let attributes = match PoincareAttributes::try_from_start(start) {
            Ok(attributes) => attributes,
            Err(reason) => {
                return Err(TraceError::Source { reason, position: pos });
            },
        };
        let node = PoincareNode { name: start.name.clone(), id, attributes, children: Vec::new() };
        assert(node@.children =~= Seq::empty());
        Ok(node)
    }

    /// Starts a node from the next event, which has to be its opening tag.
    pub fn from_previous(reader: &mut Reader<&[u8]>) -> (out: Result<Self, TraceError>)
        ensures
            pending_events(final(reader)) == left_over(parse_opening(pending_events(old(reader)))),
            match out {
                Ok(node) => parse_opening(pending_events(old(reader))) matches Parsed::Done {
                    value,
                    ..
                } && value == node@,
                Err(e) => parse_opening(pending_events(old(reader))) matches Parsed::Failed {
                    fault,
                    ..
                } && e@ == fault_at(fault, reader_offset(final(reader))),
            },
    {
        let event = next_event(reader);
        let at = position(reader);
        match event {
            TagEvent::Start(start) => Self::from_start(&start, at),
            TagEvent::Malformed(reason) => Err(TraceError::Source { reason, position: at }),
            other => Err(TraceError::Unexpected { event: other, position: at }),
        }
    }

    /// Reads a whole node: its opening tag, which is the next event, and its
    /// children.
    pub fn read(reader: &mut Reader<&[u8]>) -> (out: Result<Self, TraceError>)
        ensures
            pending_events(final(reader)) == left_over(parse_node(pending_events(old(reader)))),
            match out {
                Ok(node) => parse_node(pending_events(old(reader))) matches Parsed::Done {
                    value,
                    ..
                } && value == node@,
                Err(e) => parse_node(pending_events(old(reader))) matches Parsed::Failed {
                    fault,
                    ..
                } && e@ == fault_at(fault, reader_offset(final(reader))),
            },
    {
        let mut node = match Self::from_previous(reader) {
            Ok(node) => node,
            Err(e) => {
                return Err(e);
            },
        };
        let ghost opened = node@;
        match node.build(reader) {
            Ok(_) => {},
            Err(e) => {
                return Err(e);
            },
        }
        assert(node@ == NodeModel { children: node@.children, ..opened });
        Ok(node)
    }

    /// Reads what `wrapper` encloses: one node, and the closing tag `wrapper`
    /// right after it.
    pub fn read_enclosed(reader: &mut Reader<&[u8]>, wrapper: &str) -> (out: Result<
        Self,
        TraceError,
    >)
        ensures
            pending_events(final(reader)) == left_over(
                parse_enclosed(wrapper@, pending_events(old(reader))),
            ),
            match out {
                Ok(node) => parse_enclosed(wrapper@, pending_events(old(reader))) matches Parsed::Done {
                    value,
                    ..
                } && value == node@,
                Err(e) => parse_enclosed(
                    wrapper@,
                    pending_events(old(reader)),
                ) matches Parsed::Failed { fault, .. } && e@ == fault_at(
                    fault,
                    reader_offset(final(reader)),
                ),
            },
    {
        let node = match Self::read(reader) {
            Ok(node) => node,
            Err(e) => {
                return Err(e);
            },
        };
        let event = next_event(reader);
        let at = position(reader);
        match event {
            TagEvent::End(closing) => {
                if same_text(closing.as_str(), wrapper) {
                    Ok(node)
                } else {
                    Err(TraceError::Unexpected { event: TagEvent::End(closing), position: at })
                }
            },
            TagEvent::Malformed(reason) => Err(TraceError::Source { reason, position: at }),
            other => Err(TraceError::Unexpected { event: other, position: at }),
        }
    }

    /// Reads the children of the node, up to the closing tag that ends it.
    pub fn build(&mut self, reader: &mut Reader<&[u8]>) -> (out: Result<(), TraceError>)
        ensures
            final(self)@.name == old(self)@.name,
            final(self)@.id == old(self)@.id,
            final(self)@.attributes == old(self)@.attributes,
            pending_events(final(reader)) == left_over(
                parse_children(old(self)@.name, old(self)@.children, pending_events(old(reader))),
            ),
            match out {
                Ok(_) => parse_children(
                    old(self)@.name,
                    old(self)@.children,
                    pending_events(old(reader)),
                ) matches Parsed::Done { value, .. } && value == final(self)@.children,
                Err(e) => parse_children(
                    old(self)@.name,
                    old(self)@.children,
                    pending_events(old(reader)),
                ) matches Parsed::Failed { fault, .. } && e@ == fault_at(
                    fault,
                    reader_offset(final(reader)),
                ),
            },
        decreases pending_events(old(reader)).len(),
    {
        let ghost goal = parse_children(
            old(self)@.name,
            old(self)@.children,
            pending_events(old(reader)),
        );
        loop
            invariant
                self@.name == old(self)@.name,
                self@.id == old(self)@.id,
                self@.attributes == old(self)@.attributes,
                pending_events(reader).len() <= pending_events(old(reader)).len(),
                goal == parse_children(
                    old(self)@.name,
                    old(self)@.children,
                    pending_events(old(reader)),
                ),
                goal == parse_children(self@.name, self@.children, pending_events(reader)),
            decreases pending_events(reader).len(),
        {
            let ghost events = pending_events(reader);
            let ghost before = self@;
            let event = next_event(reader);
            let at = position(reader);
            match event {
                TagEvent::Eof => {
                    return Err(TraceError::Unexpected { event: TagEvent::Eof, position: at });
                },
                TagEvent::Start(start) => {
                    let mut child = match Self::from_start(&start, at) {
                        Ok(child) => child,
                        Err(e) => {
                            return Err(e);
                        },
                    };
                    let ghost opened = child@;
                    let ghost rest = pending_events(reader);
                    proof {
                        lemma_parse_children_consumes(opened.name, Seq::empty(), rest);
                    }
                    match child.build(reader) {
                        Ok(_) => {},
                        Err(e) => {
                            return Err(e);
                        },
                    }
                    proof {
                        assert(child@ == NodeModel { children: child@.children, ..opened });
                    }
                    self.children.push(child);
                    proof {
                        assert(self@.children =~= before.children.push(child@));
                    }
                },
                TagEvent::End(closing) => {
                    if same_text(closing.as_str(), self.name.as_str()) {
                        return Ok(());
                    } else {
                        return Err(
                            TraceError::Unexpected { event: TagEvent::End(closing), position: at },
                        );
                    }
                },
                TagEvent::Malformed(reason) => {
                    return Err(TraceError::Source { reason, position: at });
                },
                TagEvent::Other => {
                    return Err(TraceError::Unexpected { event: TagEvent::Other, position: at });
                },
            }
        }
    }
}

} // verus!
