//! Steps of a reduction: how they are read from a trace and which of them carry
//! no information.

use quick_xml::reader::Reader;
use vstd::prelude::*;
use vstd::string::*;

use crate::builder::{
    fault_at, left_over, lemma_parse_children_consumes, lemma_parse_enclosed_consumes,
    lemma_parse_node_consumes, parse_enclosed, parse_node, Fault, Parsed,
};
use crate::equality::same_expression;
use crate::error::TraceErrorModel;
use crate::error::TraceError;
use crate::events::{
    attribute_value, get_attribute_from_start, next_event, pending_events, position, Lookup,
    LookupModel,
    reader_offset, StartTag, StartTagModel, TagEvent, TagEventModel,
};
use crate::poincare::{node_text, well_grouped, NodeModel, PoincareNode};
use crate::text::{
    carries, flatten, indent, indented_block, lemma_carries_in_sequence, lemma_carries_itself,
    lemma_flatten_step, lemma_indentation_carries, line_free, same_text, tint, tint_bold,
};

verus! {

/// One transformation applied during a reduction: the expression before and
/// after it, and what happened in between.
#[derive(Debug)]
pub struct StepNode {
    pub before: Option<PoincareNode>,
    pub after: Option<PoincareNode>,
    pub parts: Vec<StepPart>,
    pub name: String,
}

/// What a step is made of: an intermediate state of the expression, with its
/// label where it has one, or a step nested in it.
#[derive(Debug)]
pub enum StepPart {
    State(Option<String>, PoincareNode),
    Substep(StepNode),
}

/// A step as contracts see it.
pub struct StepModel {
    pub before: Option<NodeModel>,
    pub after: Option<NodeModel>,
    pub parts: Seq<PartModel>,
    pub name: Seq<char>,
}

/// A part of a step as contracts see it.
pub enum PartModel {
    State(Option<Seq<char>>, NodeModel),
    Substep(StepModel),
}

/// The model of an optional snapshot.
pub open spec fn snapshot_model(snapshot: Option<PoincareNode>) -> Option<NodeModel> {
    match snapshot {
        Some(node) => Some(node@),
        None => None,
    }
}

/// The model of an optional label.
pub open spec fn label_model(label: Option<String>) -> Option<Seq<char>> {
    match label {
        Some(text) => Some(text@),
        None => None,
    }
}

/// The step that a `StepNode` stands for.
pub open spec fn step_model(step: StepNode) -> StepModel
    decreases step,
{
    StepModel {
        before: snapshot_model(step.before),
        after: snapshot_model(step.after),
        parts: Seq::new(
            step.parts@.len(),
            |i: int|
                if 0 <= i < step.parts@.len() {
                    part_model(step.parts@[i])
                } else {
                    arbitrary()
                },
        ),
        name: step.name@,
    }
}

/// The part that a `StepPart` stands for.
pub open spec fn part_model(part: StepPart) -> PartModel
    decreases part,
{
    match part {
        StepPart::State(label, node) => PartModel::State(label_model(label), node@),
        StepPart::Substep(step) => PartModel::Substep(step_model(step)),
    }
}

/// The parts that a list of `StepPart`s stands for.
pub open spec fn parts_model(parts: Seq<StepPart>) -> Seq<PartModel> {
    Seq::new(parts.len(), |i: int| part_model(parts[i]))
}

/// The step that an opening tag starts, still empty. A tag without a `name`
/// starts none, and neither does one in which the search for the `name` meets
/// what the reader refuses.
pub open spec fn step_from_start(tag: StartTagModel) -> Result<StepModel, Fault> {
    match attribute_value(tag.attributes, "name"@) {
        LookupModel::Found(name) => Ok(
            StepModel { before: None, after: None, parts: Seq::empty(), name },
        ),
        LookupModel::Missing => Err(Fault::MissingName),
        LookupModel::Broken(reason) => Err(Fault::Source(reason)),
    }
}

/// The label that the opening tag of a state gives it: its `name`, if it has
/// one. The search fails where it meets what the reader refuses.
pub open spec fn label_of(tag: StartTagModel) -> Result<Option<Seq<char>>, Seq<char>> {
    match attribute_value(tag.attributes, "name"@) {
        LookupModel::Found(name) => Ok(Some(name)),
        LookupModel::Missing => Ok(None),
        LookupModel::Broken(reason) => Err(reason),
    }
}

/// A step after one more state was read: the states labelled `before` and
/// `after` are the snapshots of the step, the later one replacing an earlier
/// one; any other state is added to the parts.
pub open spec fn with_state(step: StepModel, label: Option<Seq<char>>, node: NodeModel) -> StepModel {
    if label == Some("before"@) {
        StepModel { before: Some(node), ..step }
    } else if label == Some("after"@) {
        StepModel { after: Some(node), ..step }
    } else {
        StepModel { parts: step.parts.push(PartModel::State(label, node)), ..step }
    }
}

/// A step after one more expression was read that stands directly in it: the
/// first is the expression before the step, the second the one after it. A
/// step that has both takes no more.
pub open spec fn with_snapshot(step: StepModel, node: NodeModel) -> Option<StepModel> {
    if step.before is None {
        Some(StepModel { before: Some(node), ..step })
    } else if step.after is None {
        Some(StepModel { after: Some(node), ..step })
    } else {
        None
    }
}

/// Reading what a step holds, after `step` has been read of it: an opening tag
/// `Step` starts a nested step, an opening tag `State` a state, and any other
/// opening tag an expression that stands directly in the step; the closing tag
/// `Step` ends the step, and nothing else does. Anything else, the end of the
/// document too, is a fault.
///
/// (The tests on the number of events that are left always hold, see
/// `lemma_parse_step_consumes`; they show that the reading ends.)
pub open spec fn parse_step(step: StepModel, events: Seq<TagEventModel>) -> Parsed<StepModel>
    decreases events.len(),
{
    if events.len() == 0 {
        Parsed::Failed { fault: Fault::Unexpected(TagEventModel::Eof), rest: events }
    } else {
        let rest = events.skip(1);
        match events[0] {
            TagEventModel::Start(tag) => if tag.name == "Step"@ {
                match step_from_start(tag) {
                    Err(fault) => Parsed::Failed { fault, rest },
                    Ok(nested) => match parse_step(nested, rest) {
                        Parsed::Failed { fault, rest: left } => Parsed::Failed { fault, rest: left },
                        Parsed::Done { value: built, rest: left } => if left.len() < events.len() {
                            parse_step(
                                StepModel {
                                    parts: step.parts.push(PartModel::Substep(built)),
                                    ..step
                                },
                                left,
                            )
                        } else {
                            Parsed::Failed { fault: Fault::Source(Seq::empty()), rest: left }
                        },
                    },
                }
            } else if tag.name == "State"@ {
                match parse_enclosed("State"@, rest) {
                    Parsed::Failed { fault, rest: left } => Parsed::Failed { fault, rest: left },
                    Parsed::Done { value: node, rest: left } => match label_of(tag) {
                        Err(reason) => Parsed::Failed { fault: Fault::Source(reason), rest: left },
                        Ok(label) => if left.len() < events.len() {
                            parse_step(with_state(step, label, node), left)
                        } else {
                            Parsed::Failed { fault: Fault::Source(Seq::empty()), rest: left }
                        },
                    },
                }
            } else {
                match parse_node(events) {
                    Parsed::Failed { fault, rest: left } => Parsed::Failed { fault, rest: left },
                    Parsed::Done { value: node, rest: left } => match with_snapshot(step, node) {
                        None => Parsed::Failed { fault: Fault::TooManyNodes, rest: left },
                        Some(next) => if left.len() < events.len() {
                            parse_step(next, left)
                        } else {
                            Parsed::Failed { fault: Fault::Source(Seq::empty()), rest: left }
                        },
                    },
                }
            },
            TagEventModel::End(closing) => if closing == "Step"@ {
                Parsed::Done { value: step, rest }
            } else {
                Parsed::Failed { fault: Fault::Unexpected(TagEventModel::End(closing)), rest }
            },
            TagEventModel::Malformed(reason) => Parsed::Failed { fault: Fault::Source(reason), rest },
            other => Parsed::Failed { fault: Fault::Unexpected(other), rest },
        }
    }
}

/// Reading what a step holds never hands events back.
pub proof fn lemma_parse_step_consumes(step: StepModel, events: Seq<TagEventModel>)
    ensures
        left_over(parse_step(step, events)).len() <= events.len(),
    decreases events.len(),
{
    if events.len() > 0 {
        let rest = events.skip(1);
        match events[0] {
            TagEventModel::Start(tag) => if tag.name == "Step"@ {
                match step_from_start(tag) {
                    Err(_) => {},
                    Ok(nested) => {
                        lemma_parse_step_consumes(nested, rest);
                        match parse_step(nested, rest) {
                            Parsed::Failed { .. } => {},
                            Parsed::Done { value: built, rest: left } => {
                                lemma_parse_step_consumes(
                                    StepModel {
                                        parts: step.parts.push(PartModel::Substep(built)),
                                        ..step
                                    },
                                    left,
                                );
                            },
                        }
                    },
                }
            } else if tag.name == "State"@ {
                lemma_parse_enclosed_consumes("State"@, rest);
                match parse_enclosed("State"@, rest) {
                    Parsed::Failed { .. } => {},
                    Parsed::Done { value: node, rest: left } => match label_of(tag) {
                        Err(_) => {},
                        Ok(label) => {
                            lemma_parse_step_consumes(with_state(step, label, node), left);
                        },
                    },
                }
            } else {
                lemma_parse_node_consumes(events);
                match parse_node(events) {
                    Parsed::Failed { .. } => {},
                    Parsed::Done { value: node, rest: left } => match with_snapshot(step, node) {
                        None => {},
                        Some(next) => {
                            assert(left.len() < events.len()) by {
                                lemma_parse_children_consumes(tag.name, Seq::empty(), rest);
                            }
                            lemma_parse_step_consumes(next, left);
                        },
                    },
                }
            },
            _ => {},
        }
    }
}

impl StepNode {
    /// Starts a step from its opening tag, read at byte offset `pos`.
    pub fn from_start(start: &StartTag, pos: usize) -> (out: Result<Self, TraceError>)
        ensures
            match out {
                Ok(step) => step_from_start(start@) == Ok::<StepModel, Fault>(step_model(step)),
                Err(e) => step_from_start(start@) matches Err(fault) && e@ == fault_at(fault, pos),
            },
    {
        let name = match get_attribute_from_start(start, "name") {
            Lookup::Found(name) => name,
            Lookup::Missing => {
                return Err(TraceError::MissingName { position: pos });
            },
            Lookup::Broken(reason) => {
                return Err(TraceError::Source { reason, position: pos });
            },
        };
        let step = StepNode { before: None, after: None, parts: Vec::new(), name };
        assert(step_model(step).parts =~= Seq::empty());
        Ok(step)
    }

    /// Puts a state that was read where it belongs in the step.
    fn take_state(&mut self, label: Option<String>, node: PoincareNode)
        ensures
            step_model(*final(self)) == with_state(step_model(*old(self)), label_model(label), node@),
    {
        let ghost before = step_model(*self);
        let named_before = match &label {
            Some(name) => same_text(name.as_str(), "before"),
            None => false,
        };
        let named_after = match &label {
            Some(name) => same_text(name.as_str(), "after"),
            None => false,
        };
        if named_before {
            self.before = Some(node);
            assert(step_model(*self).parts =~= before.parts);
        } else if named_after {
            self.after = Some(node);
            assert(step_model(*self).parts =~= before.parts);
        } else {
            self.parts.push(StepPart::State(label, node));
            assert(step_model(*self).parts =~= before.parts.push(
                PartModel::State(label_model(label), node@),
            ));
        }
    }

    /// Puts an expression that stands directly in the step where it belongs,
    /// and tells whether the step had room for it.
    fn take_snapshot(&mut self, node: PoincareNode) -> (taken: bool)
        ensures
            match with_snapshot(step_model(*old(self)), node@) {
                Some(next) => taken && step_model(*final(self)) == next,
                None => !taken && step_model(*final(self)) == step_model(*old(self)),
            },
    {
        let ghost before = step_model(*self);
        if self.before.is_none() {
            self.before = Some(node);
            assert(step_model(*self).parts =~= before.parts);
            true
        } else if self.after.is_none() {
            self.after = Some(node);
            assert(step_model(*self).parts =~= before.parts);
            true
        } else {
            false
        }
    }

    /// Reads what the step holds, up to the closing tag that ends it.
    pub fn build(&mut self, reader: &mut Reader<&[u8]>) -> (out: Result<(), TraceError>)
        ensures
            pending_events(final(reader)) == left_over(
                parse_step(step_model(*old(self)), pending_events(old(reader))),
            ),
            match out {
                Ok(_) => parse_step(
                    step_model(*old(self)),
                    pending_events(old(reader)),
                ) matches Parsed::Done { value, .. } && value == step_model(*final(self)),
                Err(e) => parse_step(
                    step_model(*old(self)),
                    pending_events(old(reader)),
                ) matches Parsed::Failed { fault, .. } && e@ == fault_at(
                    fault,
                    reader_offset(final(reader)),
                ),
            },
        decreases pending_events(old(reader)).len(),
    {
        let ghost goal = parse_step(step_model(*old(self)), pending_events(old(reader)));
        loop
            invariant
                pending_events(reader).len() <= pending_events(old(reader)).len(),
                goal == parse_step(step_model(*old(self)), pending_events(old(reader))),
                goal == parse_step(step_model(*self), pending_events(reader)),
            decreases pending_events(reader).len(),
        {
            let ghost before = step_model(*self);
            let event = next_event(reader);
            let at = position(reader);
            match event {
                TagEvent::Eof => {
                    return Err(TraceError::Unexpected { event: TagEvent::Eof, position: at });
                },
                TagEvent::Start(start) => {
                    if same_text(start.name.as_str(), "Step") {
                        let mut substep = match StepNode::from_start(&start, at) {
                            Ok(substep) => substep,
                            Err(e) => {
                                return Err(e);
                            },
                        };
                        proof {
                            lemma_parse_step_consumes(step_model(substep), pending_events(reader));
                        }
                        match substep.build(reader) {
                            Ok(_) => {},
                            Err(e) => {
                                return Err(e);
                            },
                        }
                        let ghost built = step_model(substep);
                        self.parts.push(StepPart::Substep(substep));
                        proof {
                            assert(step_model(*self).parts =~= before.parts.push(
                                PartModel::Substep(built),
                            ));
                        }
                    } else if same_text(start.name.as_str(), "State") {
                        proof {
                            lemma_parse_enclosed_consumes("State"@, pending_events(reader));
                        }
                        let node = match PoincareNode::read_enclosed(reader, "State") {
                            Ok(node) => node,
                            Err(e) => {
                                return Err(e);
                            },
                        };
                        let label = match get_attribute_from_start(&start, "name") {
                            Lookup::Found(name) => Some(name),
                            Lookup::Missing => None,
                            Lookup::Broken(reason) => {
                                return Err(
                                    TraceError::Source { reason, position: position(reader) },
                                );
                            },
                        };
                        self.take_state(label, node);
                    } else {
                        let mut node = match PoincareNode::from_start(&start, at) {
                            Ok(node) => node,
                            Err(e) => {
                                return Err(e);
                            },
                        };
                        let ghost opened = node@;
                        proof {
                            lemma_parse_children_consumes(
                                opened.name,
                                Seq::empty(),
                                pending_events(reader),
                            );
                        }
                        match node.build(reader) {
                            Ok(_) => {},
                            Err(e) => {
                                return Err(e);
                            },
                        }
                        assert(node@ == NodeModel { children: node@.children, ..opened });
                        if !self.take_snapshot(node) {
                            return Err(TraceError::TooManyNodes { position: position(reader) });
                        }
                    }
                },
                TagEvent::End(closing) => {
                    if same_text(closing.as_str(), "Step") {
                        return Ok(());
                    } else {
                        return Err(
                            TraceError::Unexpected { event: TagEvent::End(closing), position: at },
                        );
                    }
                },
                TagEvent::Malformed(reason) => {
                    return Err(TraceError::Source { reason, position: at });
                },
                TagEvent::Other => {
                    return Err(TraceError::Unexpected { event: TagEvent::Other, position: at });
                },
            }
        }
    }
}

impl Clone for StepNode {
    fn clone(&self) -> (copy: Self)
        ensures
            step_model(copy) == step_model(*self),
        decreases self,
    {
        let mut parts: Vec<StepPart> = Vec::new();
        let mut i: usize = 0;
        while i < self.parts.len()
            invariant
                i <= self.parts.len(),
                parts@.len() == i,
                forall|j: int|
                    0 <= j < i ==> part_model(#[trigger] parts@[j]) == part_model(self.parts@[j]),
            decreases self.parts.len() - i,
        {
            parts.push(self.parts[i].clone());
            i = i + 1;
        }
        let before = match &self.before {
            Some(node) => Some(node.clone()),
            None => None,
        };
        let after = match &self.after {
            Some(node) => Some(node.clone()),
            None => None,
        };
        let copy = StepNode { before, after, parts, name: self.name.clone() };
        assert(step_model(copy).parts =~= step_model(*self).parts);
        copy
    }
}

impl Clone for StepPart {
    fn clone(&self) -> (copy: Self)
        ensures
            part_model(copy) == part_model(*self),
        decreases self,
    {
        match self {
            StepPart::State(label, node) => {
                let label = match label {
                    Some(name) => Some(name.clone()),
                    None => None,
                };
                StepPart::State(label, node.clone())
            },
            StepPart::Substep(step) => StepPart::Substep(step.clone()),
        }
    }
}

/// The classes of steps that count as trivial although they change the
/// expression.
#[derive(Debug, Clone, Copy, PartialEq, Eq)]
pub struct StepTypeMask {
    /// A number written with a base turning into a rational.
    pub based_integer_to_rational: bool,
    /// An expression collapsing to something undefined.
    pub to_undef: bool,
}

impl Default for StepTypeMask {
    fn default() -> (mask: Self)
        ensures
            !mask.based_integer_to_rational,
            !mask.to_undef,
    {
        Self { based_integer_to_rational: false, to_undef: false }
    }
}

/// Whether a step leaves the expression as it was: it has both snapshots and
/// they are the same expression.
pub open spec fn leaves_unchanged(step: StepModel) -> bool {
    step.before is Some && step.after is Some && same_expression(step.before->0, step.after->0)
}

/// Whether the node or one of its descendants, at any depth, is `Undefined`.
pub open spec fn holds_undefined(node: NodeModel) -> bool
    decreases node,
{
    node.name == "Undefined"@ || exists|i: int|
        0 <= i < node.children.len() && holds_undefined(#[trigger] node.children[i])
}

/// Whether a step belongs to one of the classes that `mask` names. Only a step
/// without parts and with both snapshots can belong to one.
pub open spec fn in_trivial_class(mask: StepTypeMask, step: StepModel) -> bool {
    &&& step.parts.len() == 0
    &&& step.before is Some
    &&& step.after is Some
    &&& {
        ||| mask.based_integer_to_rational && step.before->0.name == "BasedInteger"@
            && step.after->0.name == "Rational"@
        ||| mask.to_undef && holds_undefined(step.after->0)
    }
}

/// Whether a part carries no information: a state when states are hidden, a
/// nested step when the step is useless.
pub open spec fn part_useless(part: PartModel, hide_states: bool, mask: StepTypeMask) -> bool
    decreases part,
{
    match part {
        PartModel::State(..) => hide_states,
        PartModel::Substep(step) => step_useless(step, hide_states, mask),
    }
}

/// Whether a step carries no information. A step without parts is useless when
/// it leaves the expression unchanged or belongs to a trivial class; a step with
/// parts is useless when every part is.
pub open spec fn step_useless(step: StepModel, hide_states: bool, mask: StepTypeMask) -> bool
    decreases step,
{
    if step.parts.len() == 0 {
        leaves_unchanged(step) || in_trivial_class(mask, step)
    } else {
        forall|i: int|
            0 <= i < step.parts.len() ==> part_useless(#[trigger] step.parts[i], hide_states, mask)
    }
}

/// A part that is kept, after pruning: a state as it is, a nested step with its
/// own parts pruned.
pub open spec fn pruned_part(part: PartModel, hide_states: bool, mask: StepTypeMask) -> PartModel
    decreases part,
{
    match part {
        PartModel::State(..) => part,
        PartModel::Substep(step) => PartModel::Substep(
            StepModel { parts: pruned(step.parts, hide_states, mask), ..step },
        ),
    }
}

/// A list of parts after pruning: the useless parts are gone, with all that they
/// hold, and the others follow in their order, each pruned in turn.
pub open spec fn pruned(parts: Seq<PartModel>, hide_states: bool, mask: StepTypeMask) -> Seq<
    PartModel,
>
    decreases parts,
{
    if parts.len() == 0 {
        Seq::empty()
    } else if part_useless(parts[0], hide_states, mask) {
        pruned(parts.skip(1), hide_states, mask)
    } else {
        seq![pruned_part(parts[0], hide_states, mask)] + pruned(parts.skip(1), hide_states, mask)
    }
}

/// What stands in the place of a part once the parts of the steps that stay
/// have been pruned and nothing has been taken out yet: a useless part as it
/// was, any other part pruned.
pub open spec fn staged_part(part: PartModel, hide_states: bool, mask: StepTypeMask) -> PartModel {
    if part_useless(part, hide_states, mask) {
        part
    } else {
        pruned_part(part, hide_states, mask)
    }
}

/// The indices below `upto` of the parts that are useless, in ascending order.
pub open spec fn useless_indices(
    parts: Seq<PartModel>,
    upto: int,
    hide_states: bool,
    mask: StepTypeMask,
) -> Seq<int>
    decreases upto,
{
    if upto <= 0 {
        Seq::empty()
    } else if part_useless(parts[upto - 1], hide_states, mask) {
        useless_indices(parts, upto - 1, hide_states, mask).push(upto - 1)
    } else {
        useless_indices(parts, upto - 1, hide_states, mask)
    }
}

/// The last of the useless indices below `upto` is the index of a useless part,
/// no part between it and `upto` is useless, and the indices before it are the
/// useless indices below it.
pub proof fn lemma_last_useless_index(
    parts: Seq<PartModel>,
    upto: int,
    hide_states: bool,
    mask: StepTypeMask,
)
    requires
        0 <= upto <= parts.len(),
        useless_indices(parts, upto, hide_states, mask).len() > 0,
    ensures
        ({
            let found = useless_indices(parts, upto, hide_states, mask);
            let last = found.last();
            &&& 0 <= last < upto
            &&& part_useless(parts[last], hide_states, mask)
            &&& forall|j: int| last < j < upto ==> !part_useless(#[trigger] parts[j], hide_states, mask)
            &&& useless_indices(parts, last, hide_states, mask) == found.drop_last()
        }),
    decreases upto,
{
    if part_useless(parts[upto - 1], hide_states, mask) {
        assert(useless_indices(parts, upto, hide_states, mask).drop_last() =~= useless_indices(
            parts,
            upto - 1,
            hide_states,
            mask,
        ));
    } else {
        lemma_last_useless_index(parts, upto - 1, hide_states, mask);
    }
}

/// Where there is no useless index below `upto`, no part below `upto` is
/// useless.
pub proof fn lemma_no_useless_index(
    parts: Seq<PartModel>,
    upto: int,
    hide_states: bool,
    mask: StepTypeMask,
)
    requires
        0 <= upto <= parts.len(),
        useless_indices(parts, upto, hide_states, mask).len() == 0,
    ensures
        forall|j: int| 0 <= j < upto ==> !part_useless(#[trigger] parts[j], hide_states, mask),
    decreases upto,
{
    if upto > 0 {
        lemma_no_useless_index(parts, upto - 1, hide_states, mask);
    }
}

/// Pruning keeps a run of parts none of which is useless, each pruned in turn,
/// in front of what it keeps of the rest.
pub proof fn lemma_run_of_useful_parts(
    parts: Seq<PartModel>,
    from: int,
    to: int,
    hide_states: bool,
    mask: StepTypeMask,
)
    requires
        0 <= from <= to <= parts.len(),
        forall|j: int| from <= j < to ==> !part_useless(#[trigger] parts[j], hide_states, mask),
    ensures
        pruned(parts.skip(from), hide_states, mask) == Seq::new(
            (to - from) as nat,
            |j: int| pruned_part(parts[from + j], hide_states, mask),
        ) + pruned(parts.skip(to), hide_states, mask),
    decreases to - from,
{
    let run = Seq::new((to - from) as nat, |j: int| pruned_part(parts[from + j], hide_states, mask));
    let rest = pruned(parts.skip(to), hide_states, mask);
    if from == to {
        assert(run + rest =~= rest);
    } else {
        lemma_run_of_useful_parts(parts, from + 1, to, hide_states, mask);
        let shorter = Seq::new(
            (to - from - 1) as nat,
            |j: int| pruned_part(parts[from + 1 + j], hide_states, mask),
        );
        assert(parts.skip(from)[0] == parts[from]);
        assert(parts.skip(from).skip(1) =~= parts.skip(from + 1));
        assert(seq![pruned_part(parts[from], hide_states, mask)] + (shorter + rest) =~= run + rest);
    }
}

/// How the label of a state is written.
pub open spec fn label_text(label: Option<Seq<char>>) -> Seq<char> {
    match label {
        Some(name) => name + ": "@,
        None => Seq::empty(),
    }
}

/// The lines that a part gives: one line for a state, the block of a nested
/// step moved right behind `|    `.
pub open spec fn part_text(part: PartModel, long_form: bool) -> Seq<char>
    decreases part,
{
    match part {
        PartModel::State(label, node) => "|- "@ + label_text(label) + node_text(node, long_form)
            + "\n"@,
        PartModel::Substep(step) => indented_block(step_text(step, long_form) + "\n"@, "|    "@),
    }
}

/// What the parts of a step give, one after the other.
pub open spec fn parts_text(step: StepModel, long_form: bool) -> Seq<Seq<char>>
    decreases step, 0int,
{
    Seq::new(
        step.parts.len(),
        |i: int|
            if 0 <= i < step.parts.len() {
                part_text(step.parts[i], long_form)
            } else {
                Seq::empty()
            },
    )
}

/// The block of a step, without emphasis: a line with its name, a line with the
/// expression before it where there is one, what its parts give, and a last
/// line with the expression after it, which holds the marker alone when there
/// is none. The last line is not ended.
pub open spec fn step_text(step: StepModel, long_form: bool) -> Seq<char>
    decreases step, 1int,
{
    let header = "/> "@ + step.name + " \n"@;
    let opened = match step.before {
        Some(before) => header + ("|"@ + " "@ + node_text(before, long_form) + "\n"@),
        None => header,
    };
    let body = opened + flatten(parts_text(step, long_form));
    match step.after {
        Some(after) => body + ("\\_"@ + " "@ + node_text(after, long_form)),
        None => body + "\\_"@,
    }
}

/// Whether a part can be written: in the long form always, in the short form
/// where every expression in it is well grouped.
pub open spec fn part_writable(part: PartModel, long_form: bool) -> bool
    decreases part,
{
    match part {
        PartModel::State(_, node) => long_form || well_grouped(node),
        PartModel::Substep(step) => step_writable(step, long_form),
    }
}

/// Whether a step can be written.
pub open spec fn step_writable(step: StepModel, long_form: bool) -> bool
    decreases step,
{
    &&& step.before matches Some(before) ==> long_form || well_grouped(before)
    &&& step.after matches Some(after) ==> long_form || well_grouped(after)
    &&& forall|i: int|
        0 <= i < step.parts.len() ==> part_writable(#[trigger] step.parts[i], long_form)
}

impl StepTypeMask {
    fn node_is_undef(node: &PoincareNode) -> (found: bool)
        ensures
            found == holds_undefined(node@),
        decreases node,
    {
        if same_text(node.name.as_str(), "Undefined") {
            return true;
        }
        let mut i: usize = 0;
        while i < node.children.len()
            invariant
                i <= node.children.len(),
                node@.children.len() == node.children@.len(),
                forall|j: int| 0 <= j < i ==> !holds_undefined(#[trigger] node@.children[j]),
            decreases node.children.len() - i,
        {
            assert(node@.children[i as int] == node.children@[i as int]@);
            if Self::node_is_undef(&node.children[i]) {
                return true;
            }
            i = i + 1;
        }
        false
    }

    /// Tells whether `step` belongs to one of the classes that the mask names.
    pub fn step_is_either(&self, step: &StepNode) -> (either: bool)
        ensures
            either == in_trivial_class(*self, step_model(*step)),
    {
        if step.parts.len() != 0 {
            return false;
        }
        match (&step.before, &step.after) {
            (Some(before), Some(after)) => {
                if self.based_integer_to_rational && same_text(before.name.as_str(), "BasedInteger")
                    && same_text(after.name.as_str(), "Rational") {
                    return true;
                }
                if self.to_undef && Self::node_is_undef(after) {
                    return true;
                }
                false
            },
            _ => false,
        }
    }
}

impl StepNode {
    /// Tells whether the step leaves the expression as it was.
    pub fn does_nothing(&self) -> (nothing: bool)
        ensures
            nothing == leaves_unchanged(step_model(*self)),
    {
        match (&self.before, &self.after) {
            (Some(before), Some(after)) => before == after,
            _ => false,
        }
    }

    /// The step, to be written in the long or in the short form.
    pub fn view(&self, long_form: bool) -> (view: StepView<'_>)
        ensures
            view.step() == step_model(*self),
            view.in_long_form() == long_form,
    {
        StepView { node: self, long_form }
    }
}

impl StepNode {
    /// Tells whether the step carries no information.
    pub fn is_useless(&self, hide_states: bool, mask: StepTypeMask) -> (useless: bool)
        ensures
            useless == step_useless(step_model(*self), hide_states, mask),
        decreases self,
    {
        if self.parts.len() == 0 {
            self.does_nothing() || mask.step_is_either(self)
        } else {
            let mut i: usize = 0;
            while i < self.parts.len()
                invariant
                    i <= self.parts.len(),
                    self.parts@.len() > 0,
                    step_model(*self).parts.len() == self.parts@.len(),
                    forall|j: int|
                        0 <= j < i ==> part_useless(
                            #[trigger] step_model(*self).parts[j],
                            hide_states,
                            mask,
                        ),
                decreases self.parts.len() - i,
            {
                assert(step_model(*self).parts[i as int] == part_model(self.parts@[i as int]));
                if !StepPart::is_useless_recursive(&self.parts[i], hide_states, mask) {
                    return false;
                }
                i = i + 1;
            }
            true
        }
    }

    /// Removes from the step every part that carries no information, at every
    /// depth. The step itself stays.
    pub fn remove_useless_parts(&mut self, hide_states: bool, mask: StepTypeMask)
        ensures
            step_model(*final(self)) == (StepModel {
                parts: pruned(step_model(*old(self)).parts, hide_states, mask),
                ..step_model(*old(self))
            }),
    {
        assert(step_model(*self).parts =~= parts_model(self.parts@));
        StepPart::remove_useless_recursive(&mut self.parts, hide_states, mask);
        assert(step_model(*self).parts =~= parts_model(self.parts@));
    }
}

impl StepPart {
    /// Tells whether a part carries no information.
    pub fn is_useless_recursive(part: &StepPart, hide_states: bool, mask: StepTypeMask) -> (useless:
        bool)
        ensures
            useless == part_useless(part_model(*part), hide_states, mask),
        decreases part,
    {
        match part {
            StepPart::State(..) => hide_states,
            StepPart::Substep(step) => step.is_useless(hide_states, mask),
        }
    }

    /// Removes from `steps` every part that carries no information, and does
    /// the same within each step that stays. States count as useless when
    /// `hide_states` is set; `mask` names the classes of steps that count as
    /// trivial.
    ///
    /// The useless parts are found first, while the parts of the steps that
    /// stay are pruned; then they are taken out from the last one down, so that
    /// the indices of those still to go stay valid.
    pub fn remove_useless_recursive(steps: &mut Vec<StepPart>, hide_states: bool, mask: StepTypeMask)
        ensures
            parts_model(final(steps)@) == pruned(parts_model(old(steps)@), hide_states, mask),
        decreases *old(steps),
    {
        let ghost initial = parts_model(steps@);
        let mut parts_to_remove: Vec<usize> = Vec::new();
        let mut n: usize = 0;
        while n < steps.len()
            invariant
                n <= steps.len(),
                steps@.len() == old(steps)@.len(),
                initial == parts_model(old(steps)@),
                forall|j: int| n <= j < steps@.len() ==> steps@[j] == old(steps)@[j],
                forall|j: int|
                    0 <= j < n ==> part_model(#[trigger] steps@[j]) == staged_part(
                        initial[j],
                        hide_states,
                        mask,
                    ),
                parts_to_remove@.len() == useless_indices(initial, n as int, hide_states, mask).len(),
                forall|k: int|
                    0 <= k < parts_to_remove@.len() ==> (#[trigger] parts_to_remove@[k]) as int
                        == useless_indices(initial, n as int, hide_states, mask)[k],
            decreases steps.len() - n,
        {
            assert(initial[n as int] == part_model(steps@[n as int]));
            if Self::is_useless_recursive(&steps[n], hide_states, mask) {
                parts_to_remove.push(n);
            } else {
                let ghost current = steps@;
                match &mut steps[n] {
                    StepPart::State(..) => {},
                    StepPart::Substep(step) => {
                        Self::remove_useless_recursive(&mut step.parts, hide_states, mask);
                    },
                }
                proof {
                    assert(part_model(steps@[n as int]) == pruned_part(
                        initial[n as int],
                        hide_states,
                        mask,
                    )) by {
                        match current[n as int] {
                            StepPart::State(..) => {},
                            StepPart::Substep(step) => {
                                let after = steps@[n as int]->Substep_0;
                                assert(step_model(after).parts =~= parts_model(after.parts@));
                                assert(step_model(step).parts =~= parts_model(step.parts@));
                            },
                        }
                    }
                }
            }
            n = n + 1;
        }
        let ghost staged = parts_model(steps@);
        let ghost cut: int = steps@.len() as int;
        proof {
            assert(staged.take(cut) =~= staged);
            assert(initial.skip(cut) =~= Seq::empty());
            assert(staged + pruned(initial.skip(cut), hide_states, mask) =~= staged);
        }
        // from the last index down, so that the indices still to go stay valid
        while parts_to_remove.len() > 0
            invariant
                0 <= cut <= staged.len(),
                staged.len() == initial.len(),
                forall|j: int|
                    0 <= j < staged.len() ==> #[trigger] staged[j] == staged_part(
                        initial[j],
                        hide_states,
                        mask,
                    ),
                parts_to_remove@.len() == useless_indices(initial, cut, hide_states, mask).len(),
                forall|k: int|
                    0 <= k < parts_to_remove@.len() ==> (#[trigger] parts_to_remove@[k]) as int
                        == useless_indices(initial, cut, hide_states, mask)[k],
                parts_model(steps@) == staged.take(cut) + pruned(
                    initial.skip(cut),
                    hide_states,
                    mask,
                ),
            decreases parts_to_remove.len(),
        {
            let ghost before = parts_model(steps@);
            let ghost kept = pruned(initial.skip(cut), hide_states, mask);
            let n = parts_to_remove.pop().unwrap();
            proof {
                lemma_last_useless_index(initial, cut, hide_states, mask);
                lemma_run_of_useful_parts(initial, n as int + 1, cut, hide_states, mask);
                assert(before.len() == cut + kept.len());
            }
            steps.remove(n);
            proof {
                let run = Seq::new(
                    (cut - (n as int + 1)) as nat,
                    |j: int| pruned_part(initial[n as int + 1 + j], hide_states, mask),
                );
                assert(initial.skip(n as int)[0] == initial[n as int]);
                assert(initial.skip(n as int).skip(1) =~= initial.skip(n as int + 1));
                assert(parts_model(steps@) =~= before.remove(n as int));
                assert(before.remove(n as int) =~= staged.take(n as int) + (run + kept));
                cut = n as int;
            }
        }
        proof {
            lemma_no_useless_index(initial, cut, hide_states, mask);
            lemma_run_of_useful_parts(initial, 0, cut, hide_states, mask);
            assert(initial.skip(0) =~= initial);
            assert(staged.take(cut) =~= Seq::new(
                cut as nat,
                |j: int| pruned_part(initial[j], hide_states, mask),
            ));
        }
    }
}

/// A step together with the form in which its expressions are to be written.
#[derive(Debug, Clone, Copy)]
pub struct StepView<'a> {
    node: &'a StepNode,
    long_form: bool,
}

impl<'a> StepView<'a> {
    /// The step that is to be written.
    pub closed spec fn step(&self) -> StepModel {
        step_model(*self.node)
    }

    /// Whether its expressions are to be written in the long form.
    pub closed spec fn in_long_form(&self) -> bool {
        self.long_form
    }

    /// Writes one snapshot or state of the step.
    fn expression(&self, node: &PoincareNode, colorize: bool) -> (out: Result<String, TraceError>)
        ensures
            out is Ok <==> self.long_form || well_grouped(node@),
            out matches Err(e) ==> e@ == TraceErrorModel::ParenthesisArity,
            out matches Ok(text) ==> carries(text@, node_text(node@, self.long_form)),
            out matches Ok(text) ==> !colorize ==> text@ == node_text(node@, self.long_form),
    {
        node.pretty_print(0, self.long_form, colorize)
    }

    /// Writes what one part of the step gives.
    fn part(&self, part: &StepPart, colorize: bool) -> (out: Result<String, TraceError>)
        ensures
            out is Ok <==> part_writable(part_model(*part), self.long_form),
            out matches Err(e) ==> e@ == TraceErrorModel::ParenthesisArity,
            out matches Ok(text) ==> carries(text@, part_text(part_model(*part), self.long_form)),
            out matches Ok(text) ==> !colorize ==> text@ == part_text(
                part_model(*part),
                self.long_form,
            ),
        decreases part_model(*part),
    {
        match part {
            StepPart::State(label, state) => {
                let label_text = match label {
                    Some(name) => {
                        let mut named = name.clone();
                        named.append(": ");
                        named
                    },
                    None => String::new(),
                };
                let state_text = match self.expression(state, colorize) {
                    Ok(text) => text,
                    Err(e) => {
                        return Err(e);
                    },
                };
                let marker = tint_bold("|- ", "cyan", colorize);
                let shown_label = tint(label_text.as_str(), "cyan", colorize);
                let mut line = marker.clone();
                line.append(shown_label.as_str());
                line.append(state_text.as_str());
                line.append("\n");
                proof {
                    let plain_state = node_text(state@, self.long_form);
                    lemma_carries_in_sequence(marker@, "|- "@, shown_label@, label_text@);
                    lemma_carries_in_sequence(
                        marker@ + shown_label@,
                        "|- "@ + label_text@,
                        state_text@,
                        plain_state,
                    );
                    lemma_carries_itself("\n"@);
                    lemma_carries_in_sequence(
                        marker@ + shown_label@ + state_text@,
                        "|- "@ + label_text@ + plain_state,
                        "\n"@,
                        "\n"@,
                    );
                }
                Ok(line)
            },
            StepPart::Substep(substep) => {
                let view = substep.view(self.long_form);
                assert(part_model(*part) == PartModel::Substep(view.step()));
                assert(decreases_to!(part_model(*part) => part_model(*part)->Substep_0));
                let mut block = match view.render(colorize) {
                    Ok(text) => text,
                    Err(e) => {
                        return Err(e);
                    },
                };
                let ghost shown = block@;
                block.append("\n");
                proof {
                    let plain = step_text(view.step(), self.long_form);
                    lemma_carries_itself("\n"@);
                    lemma_carries_in_sequence(shown, plain, "\n"@, "\n"@);
                    lemma_marker_is_line_free();
                    lemma_indentation_carries(block@, plain + "\n"@, "|    "@);
                }
                Ok(indent(block.as_str(), "|    "))
            },
        }
    }

    /// Writes the block of the step: its name, the expression before it, its
    /// parts with nested steps moved right, and the expression after it. With
    /// `colorize` the markers and the expressions are emphasised for a
    /// terminal: the text is then the same, with escape codes in between.
    pub fn render(&self, colorize: bool) -> (out: Result<String, TraceError>)
        ensures
            out is Ok <==> step_writable(self.step(), self.in_long_form()),
            out matches Err(e) ==> e@ == TraceErrorModel::ParenthesisArity,
            out matches Ok(text) ==> carries(text@, step_text(self.step(), self.in_long_form())),
            out matches Ok(text) ==> !colorize ==> text@ == step_text(
                self.step(),
                self.in_long_form(),
            ),
        decreases self.step(),
    {
        let ghost step = step_model(*self.node);
        let ghost blocks = parts_text(step, self.long_form);
        let mut header = String::from_str("/> ");
        header.append(self.node.name.as_str());
        header.append(" \n");
        let ghost plain_header = header@;
        let mut output = tint_bold(header.as_str(), "cyan", colorize);
        let ghost opened = match step.before {
            Some(before) => plain_header + ("|"@ + " "@ + node_text(before, self.long_form) + "\n"@),
            None => plain_header,
        };
        match &self.node.before {
            Some(before) => {
                let before_text = match self.expression(before, colorize) {
                    Ok(text) => text,
                    Err(e) => {
                        return Err(e);
                    },
                };
                let marker = tint_bold("|", "cyan", colorize);
                let mut line = marker.clone();
                line.append(" ");
                line.append(before_text.as_str());
                line.append("\n");
                proof {
                    let plain_before = node_text(before@, self.long_form);
                    lemma_carries_itself(" "@);
                    lemma_carries_itself("\n"@);
                    lemma_carries_in_sequence(marker@, "|"@, " "@, " "@);
                    lemma_carries_in_sequence(
                        marker@ + " "@,
                        "|"@ + " "@,
                        before_text@,
                        plain_before,
                    );
                    lemma_carries_in_sequence(
                        marker@ + " "@ + before_text@,
                        "|"@ + " "@ + plain_before,
                        "\n"@,
                        "\n"@,
                    );
                    lemma_carries_in_sequence(
                        output@,
                        plain_header,
                        line@,
                        "|"@ + " "@ + plain_before + "\n"@,
                    );
                }
                output.append(line.as_str());
            },
            None => {},
        }
        assert(carries(output@, opened));
        assert(!colorize ==> output@ == opened);
        assert(opened + flatten(blocks.take(0)) =~= opened);
        let mut i: usize = 0;
        while i < self.node.parts.len()
            invariant
                i <= self.node.parts.len(),
                step == step_model(*self.node),
                blocks == parts_text(step, self.long_form),
                step.parts.len() == self.node.parts@.len(),
                forall|j: int| 0 <= j < i ==> part_writable(#[trigger] step.parts[j], self.long_form),
                carries(output@, opened + flatten(blocks.take(i as int))),
                !colorize ==> output@ == opened + flatten(blocks.take(i as int)),
            decreases self.node.parts.len() - i,
        {
            assert(step.parts[i as int] == part_model(self.node.parts@[i as int]));
            let block = match self.part(&self.node.parts[i], colorize) {
                Ok(text) => text,
                Err(e) => {
                    return Err(e);
                },
            };
            proof {
                lemma_flatten_step(blocks, i as int);
                assert(opened + flatten(blocks.take(i as int)) + blocks[i as int] =~= opened
                    + flatten(blocks.take(i as int + 1)));
                lemma_carries_in_sequence(
                    output@,
                    opened + flatten(blocks.take(i as int)),
                    block@,
                    blocks[i as int],
                );
            }
            output.append(block.as_str());
            i = i + 1;
        }
        assert(blocks.take(self.node.parts.len() as int) =~= blocks);
        let ghost body = opened + flatten(blocks);
        match &self.node.after {
            Some(after) => {
                let after_text = match self.expression(after, colorize) {
                    Ok(text) => text,
                    Err(e) => {
                        return Err(e);
                    },
                };
                let marker = tint_bold("\\_", "cyan", colorize);
                let mut line = marker.clone();
                line.append(" ");
                line.append(after_text.as_str());
                proof {
                    let plain_after = node_text(after@, self.long_form);
                    lemma_carries_itself(" "@);
                    lemma_carries_in_sequence(marker@, "\\_"@, " "@, " "@);
                    lemma_carries_in_sequence(
                        marker@ + " "@,
                        "\\_"@ + " "@,
                        after_text@,
                        plain_after,
                    );
                    lemma_carries_in_sequence(output@, body, line@, "\\_"@ + " "@ + plain_after);
                }
                output.append(line.as_str());
            },
            None => {
                let marker = tint_bold("\\_", "cyan", colorize);
                proof {
                    lemma_carries_in_sequence(output@, body, marker@, "\\_"@);
                }
                output.append(marker.as_str());
            },
        }
        Ok(output)
    }
}

/// The marker that moves a nested block right holds no line break.
pub proof fn lemma_marker_is_line_free()
    ensures
        line_free("|    "@),
{
    reveal_strlit("|    ");
    assert("|    "@.len() == 5);
    assert forall|i: int| 0 <= i < "|    "@.len() implies #[trigger] "|    "@[i] != '\n' by {
        if i == 0 {
            assert("|    "@[0] == '|');
        } else if i == 1 {
            assert("|    "@[1] == ' ');
        } else if i == 2 {
            assert("|    "@[2] == ' ');
        } else if i == 3 {
            assert("|    "@[3] == ' ');
        } else {
            assert("|    "@[4] == ' ');
        }
    }
}

} // verus!
