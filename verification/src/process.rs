//! A whole reduction: the expression it starts from, its steps, and the
//! expression it ends with.

use quick_xml::reader::Reader;
use vstd::prelude::*;
use vstd::string::*;

use crate::builder::{
    fault_at, left_over, lemma_parse_enclosed_consumes, parse_enclosed, Fault, Parsed,
};
use crate::error::{TraceError, TraceErrorModel};
use crate::events::{
    next_event, pending_events, position, reader_offset, TagEvent, TagEventModel,
};
use crate::poincare::{node_text, well_grouped, NodeModel, PoincareNode};
use crate::pruning::lemma_kept_part_is_settled;
use crate::reduction::{
    lemma_marker_is_line_free, lemma_parse_step_consumes, parse_step, pruned, snapshot_model, step_from_start, step_model,
    step_text, step_useless, step_writable, PartModel, StepModel, StepNode, StepTypeMask,
};
use crate::text::{
    carries, flatten, indent, indented_block, lemma_carries_in_sequence, lemma_carries_itself,
    lemma_flatten_step, lemma_indentation_carries, same_text, tint_bold,
};

verus! {

/// One reduction of an expression, as a trace records it.
#[derive(Debug)]
pub struct ReduceProcess {
    pub original_expression: Option<PoincareNode>,
    pub result_expression: Option<PoincareNode>,
    pub steps: Vec<StepNode>,
}

/// A reduction as contracts see it.
pub struct ProcessModel {
    pub original_expression: Option<NodeModel>,
    pub result_expression: Option<NodeModel>,
    pub steps: Seq<StepModel>,
}

/// The steps that a list of `StepNode`s stands for.
pub open spec fn steps_model(steps: Seq<StepNode>) -> Seq<StepModel> {
    Seq::new(steps.len(), |i: int| step_model(steps[i]))
}

/// The reduction that a `ReduceProcess` stands for.
pub open spec fn process_model(process: ReduceProcess) -> ProcessModel {
    ProcessModel {
        original_expression: snapshot_model(process.original_expression),
        result_expression: snapshot_model(process.result_expression),
        steps: steps_model(process.steps@),
    }
}

/// What a trace holds at its top: a whole reduction, or a step by itself.
#[derive(Debug)]
pub enum Trace {
    Process(ReduceProcess),
    Step(StepNode),
}

/// An entry of a trace as contracts see it.
pub enum TraceModel {
    Process(ProcessModel),
    Step(StepModel),
}

/// What a `Trace` stands for.
pub open spec fn trace_model(trace: Trace) -> TraceModel {
    match trace {
        Trace::Process(process) => TraceModel::Process(process_model(process)),
        Trace::Step(step) => TraceModel::Step(step_model(step)),
    }
}

/// The model of an optional trace.
pub open spec fn found_model(found: Option<Trace>) -> Option<TraceModel> {
    match found {
        Some(trace) => Some(trace_model(trace)),
        None => None,
    }
}

impl Clone for ReduceProcess {
    fn clone(&self) -> (copy: Self)
        ensures
            process_model(copy) == process_model(*self),
    {
        let mut steps: Vec<StepNode> = Vec::new();
        let mut i: usize = 0;
        while i < self.steps.len()
            invariant
                i <= self.steps.len(),
                steps@.len() == i,
                forall|j: int|
                    0 <= j < i ==> step_model(#[trigger] steps@[j]) == step_model(self.steps@[j]),
            decreases self.steps.len() - i,
        {
            steps.push(self.steps[i].clone());
            i = i + 1;
        }
        let original_expression = match &self.original_expression {
            Some(node) => Some(node.clone()),
            None => None,
        };
        let result_expression = match &self.result_expression {
            Some(node) => Some(node.clone()),
            None => None,
        };
        let copy = ReduceProcess { original_expression, result_expression, steps };
        assert(process_model(copy).steps =~= process_model(*self).steps);
        copy
    }
}

impl Clone for Trace {
    fn clone(&self) -> (copy: Self)
        ensures
            trace_model(copy) == trace_model(*self),
    {
        match self {
            Trace::Process(process) => Trace::Process(process.clone()),
            Trace::Step(step) => Trace::Step(step.clone()),
        }
    }
}

/// A reduction of which nothing has been read yet.
pub open spec fn empty_process() -> ProcessModel {
    ProcessModel { original_expression: None, result_expression: None, steps: Seq::empty() }
}

/// Reading what a reduction holds, after `process` has been read of it: an
/// opening tag `Step` starts a step, which is added to the steps; the opening
/// tags `OriginalExpression` and `ResultExpression` enclose one expression each
/// and may occur once; the closing tag `ReduceProcess` ends the reduction, and
/// nothing else does. Anything else, the end of the document too, is a fault.
///
/// (The tests on the number of events that are left always hold, see
/// `lemma_parse_process_consumes`; they show that the reading ends.)
pub open spec fn parse_process(process: ProcessModel, events: Seq<TagEventModel>) -> Parsed<
    ProcessModel,
>
    decreases events.len(),
{
    if events.len() == 0 {
        Parsed::Failed { fault: Fault::Unexpected(TagEventModel::Eof), rest: events }
    } else {
        let rest = events.skip(1);
        match events[0] {
            TagEventModel::Start(tag) => if tag.name == "Step"@ {
                match step_from_start(tag) {
                    Err(fault) => Parsed::Failed { fault, rest },
                    Ok(step) => match parse_step(step, rest) {
                        Parsed::Failed { fault, rest: left } => Parsed::Failed { fault, rest: left },
                        Parsed::Done { value: built, rest: left } => if left.len() < events.len() {
                            parse_process(
                                ProcessModel { steps: process.steps.push(built), ..process },
                                left,
                            )
                        } else {
                            Parsed::Failed { fault: Fault::Source(Seq::empty()), rest: left }
                        },
                    },
                }
            } else if tag.name == "OriginalExpression"@ {
                if process.original_expression is Some {
                    Parsed::Failed { fault: Fault::Unexpected(TagEventModel::Start(tag)), rest }
                } else {
                    match parse_enclosed("OriginalExpression"@, rest) {
                        Parsed::Failed { fault, rest: left } => Parsed::Failed { fault, rest: left },
                        Parsed::Done { value: node, rest: left } => if left.len() < events.len() {
                            parse_process(
                                ProcessModel { original_expression: Some(node), ..process },
                                left,
                            )
                        } else {
                            Parsed::Failed { fault: Fault::Source(Seq::empty()), rest: left }
                        },
                    }
                }
            } else if tag.name == "ResultExpression"@ {
                if process.result_expression is Some {
                    Parsed::Failed { fault: Fault::Unexpected(TagEventModel::Start(tag)), rest }
                } else {
                    match parse_enclosed("ResultExpression"@, rest) {
                        Parsed::Failed { fault, rest: left } => Parsed::Failed { fault, rest: left },
                        Parsed::Done { value: node, rest: left } => if left.len() < events.len() {
                            parse_process(
                                ProcessModel { result_expression: Some(node), ..process },
                                left,
                            )
                        } else {
                            Parsed::Failed { fault: Fault::Source(Seq::empty()), rest: left }
                        },
                    }
                }
            } else {
                Parsed::Failed { fault: Fault::Unexpected(TagEventModel::Start(tag)), rest }
            },
            TagEventModel::End(closing) => if closing == "ReduceProcess"@ {
                Parsed::Done { value: process, rest }
            } else {
                Parsed::Failed { fault: Fault::Unexpected(TagEventModel::End(closing)), rest }
            },
            TagEventModel::Malformed(reason) => Parsed::Failed { fault: Fault::Source(reason), rest },
            other => Parsed::Failed { fault: Fault::Unexpected(other), rest },
        }
    }
}

/// Reading what a reduction holds never hands events back.
pub proof fn lemma_parse_process_consumes(process: ProcessModel, events: Seq<TagEventModel>)
    ensures
        left_over(parse_process(process, events)).len() <= events.len(),
    decreases events.len(),
{
    if events.len() > 0 {
        let rest = events.skip(1);
        match events[0] {
            TagEventModel::Start(tag) => if tag.name == "Step"@ {
                match step_from_start(tag) {
                    Err(_) => {},
                    Ok(step) => {
                        lemma_parse_step_consumes(step, rest);
                        match parse_step(step, rest) {
                            Parsed::Failed { .. } => {},
                            Parsed::Done { value: built, rest: left } => {
                                lemma_parse_process_consumes(
                                    ProcessModel { steps: process.steps.push(built), ..process },
                                    left,
                                );
                            },
                        }
                    },
                }
            } else if tag.name == "OriginalExpression"@ {
                lemma_parse_enclosed_consumes("OriginalExpression"@, rest);
                match parse_enclosed("OriginalExpression"@, rest) {
                    Parsed::Failed { .. } => {},
                    Parsed::Done { value: node, rest: left } => {
                        lemma_parse_process_consumes(
                            ProcessModel { original_expression: Some(node), ..process },
                            left,
                        );
                    },
                }
            } else if tag.name == "ResultExpression"@ {
                lemma_parse_enclosed_consumes("ResultExpression"@, rest);
                match parse_enclosed("ResultExpression"@, rest) {
                    Parsed::Failed { .. } => {},
                    Parsed::Done { value: node, rest: left } => {
                        lemma_parse_process_consumes(
                            ProcessModel { result_expression: Some(node), ..process },
                            left,
                        );
                    },
                }
            },
            _ => {},
        }
    }
}

/// Reading the next entry of a trace: nothing at the end of the document, a
/// whole reduction after an opening tag `ReduceProcess`, a whole step after an
/// opening tag `Step`, and a fault on anything else.
pub open spec fn parse_trace(events: Seq<TagEventModel>) -> Parsed<Option<TraceModel>> {
    if events.len() == 0 {
        Parsed::Done { value: None, rest: events }
    } else {
        let rest = events.skip(1);
        match events[0] {
            TagEventModel::Start(tag) => if tag.name == "ReduceProcess"@ {
                match parse_process(empty_process(), rest) {
                    Parsed::Failed { fault, rest: left } => Parsed::Failed { fault, rest: left },
                    Parsed::Done { value: built, rest: left } => Parsed::Done {
                        value: Some(TraceModel::Process(built)),
                        rest: left,
                    },
                }
            } else if tag.name == "Step"@ {
                match step_from_start(tag) {
                    Err(fault) => Parsed::Failed { fault, rest },
                    Ok(step) => match parse_step(step, rest) {
                        Parsed::Failed { fault, rest: left } => Parsed::Failed { fault, rest: left },
                        Parsed::Done { value: built, rest: left } => Parsed::Done {
                            value: Some(TraceModel::Step(built)),
                            rest: left,
                        },
                    },
                }
            } else {
                Parsed::Failed { fault: Fault::Unexpected(TagEventModel::Start(tag)), rest }
            },
            TagEventModel::Malformed(reason) => Parsed::Failed { fault: Fault::Source(reason), rest },
            other => Parsed::Failed { fault: Fault::Unexpected(other), rest },
        }
    }
}

/// A list of steps after pruning: the useless steps are gone, with all that
/// they hold, and the others follow in their order, each with its parts pruned.
pub open spec fn pruned_steps(steps: Seq<StepModel>, hide_states: bool, mask: StepTypeMask) -> Seq<
    StepModel,
>
    decreases steps.len(),
{
    if steps.len() == 0 {
        Seq::empty()
    } else if step_useless(steps[0], hide_states, mask) {
        pruned_steps(steps.skip(1), hide_states, mask)
    } else {
        seq![StepModel { parts: pruned(steps[0].parts, hide_states, mask), ..steps[0] }]
            + pruned_steps(steps.skip(1), hide_states, mask)
    }
}

/// Pruning the steps that were pruned, under the same configuration, gives the
/// same steps.
pub proof fn lemma_pruning_steps_twice_is_pruning_once(
    steps: Seq<StepModel>,
    hide_states: bool,
    mask: StepTypeMask,
)
    ensures
        pruned_steps(pruned_steps(steps, hide_states, mask), hide_states, mask) == pruned_steps(
            steps,
            hide_states,
            mask,
        ),
    decreases steps.len(),
{
    if steps.len() > 0 {
        let rest = pruned_steps(steps.skip(1), hide_states, mask);
        lemma_pruning_steps_twice_is_pruning_once(steps.skip(1), hide_states, mask);
        if !step_useless(steps[0], hide_states, mask) {
            let kept = StepModel { parts: pruned(steps[0].parts, hide_states, mask), ..steps[0] };
            lemma_kept_part_is_settled(PartModel::Substep(steps[0]), hide_states, mask);
            let result = seq![kept] + rest;
            assert(result.skip(1) =~= rest);
            assert(result[0] == kept);
        }
    }
}

/// The lines that the steps of a reduction give, each block moved right behind
/// `|    `.
pub open spec fn step_blocks(process: ProcessModel, long_form: bool) -> Seq<Seq<char>> {
    Seq::new(
        process.steps.len(),
        |i: int| indented_block(step_text(process.steps[i], long_form) + "\n"@, "|    "@),
    )
}

/// The report of a reduction, without emphasis: a line with the expression it
/// starts from, the block of each step moved right, and, where the trace gives
/// the result, a line with it. Every line is ended.
pub open spec fn process_text(process: ProcessModel, long_form: bool) -> Seq<char> {
    let header = match process.original_expression {
        Some(start) => "/>"@ + (" "@ + node_text(start, long_form)) + "\n"@,
        None => "/>"@ + "\n"@,
    };
    let body = header + flatten(step_blocks(process, long_form));
    match process.result_expression {
        Some(result) => body + ("\\_"@ + " "@ + node_text(result, long_form) + "\n"@),
        None => body,
    }
}

/// Whether a reduction can be written: in the long form always, in the short
/// form where every expression in it is well grouped.
pub open spec fn process_writable(process: ProcessModel, long_form: bool) -> bool {
    &&& process.original_expression matches Some(start) ==> long_form || well_grouped(start)
    &&& process.result_expression matches Some(result) ==> long_form || well_grouped(result)
    &&& forall|i: int|
        0 <= i < process.steps.len() ==> step_writable(#[trigger] process.steps[i], long_form)
}

impl ReduceProcess {
    /// A reduction of which nothing has been read yet.
    pub fn new() -> (process: Self)
        ensures
            process_model(process) == empty_process(),
    {
        let process = ReduceProcess {
            original_expression: None,
            result_expression: None,
            steps: Vec::new(),
        };
        assert(process_model(process).steps =~= Seq::empty());
        process
    }

    /// Reads what the reduction holds, up to the closing tag that ends it.
    pub fn build(&mut self, reader: &mut Reader<&[u8]>) -> (out: Result<(), TraceError>)
        ensures
            pending_events(final(reader)) == left_over(
                parse_process(process_model(*old(self)), pending_events(old(reader))),
            ),
            match out {
                Ok(_) => parse_process(
                    process_model(*old(self)),
                    pending_events(old(reader)),
                ) matches Parsed::Done { value, .. } && value == process_model(*final(self)),
                Err(e) => parse_process(
                    process_model(*old(self)),
                    pending_events(old(reader)),
                ) matches Parsed::Failed { fault, .. } && e@ == fault_at(
                    fault,
                    reader_offset(final(reader)),
                ),
            },
    {
        let ghost goal = parse_process(process_model(*old(self)), pending_events(old(reader)));
        loop
            invariant
                goal == parse_process(process_model(*old(self)), pending_events(old(reader))),
                goal == parse_process(process_model(*self), pending_events(reader)),
            decreases pending_events(reader).len(),
        {
            let ghost before = process_model(*self);
            let event = next_event(reader);
            let at = position(reader);
            match event {
                TagEvent::Eof => {
                    return Err(TraceError::Unexpected { event: TagEvent::Eof, position: at });
                },
                TagEvent::Start(start) => {
                    if same_text(start.name.as_str(), "Step") {
                        let mut step = match StepNode::from_start(&start, at) {
                            Ok(step) => step,
                            Err(e) => {
                                return Err(e);
                            },
                        };
                        proof {
                            lemma_parse_step_consumes(step_model(step), pending_events(reader));
                        }
                        match step.build(reader) {
                            Ok(_) => {},
                            Err(e) => {
                                return Err(e);
                            },
                        }
                        let ghost built = step_model(step);
                        self.steps.push(step);
                        proof {
                            assert(process_model(*self).steps =~= before.steps.push(built));
                        }
                    } else if same_text(start.name.as_str(), "OriginalExpression") {
                        if self.original_expression.is_some() {
                            return Err(
                                TraceError::Unexpected {
                                    event: TagEvent::Start(start),
                                    position: at,
                                },
                            );
                        }
                        proof {
                            lemma_parse_enclosed_consumes(
                                "OriginalExpression"@,
                                pending_events(reader),
                            );
                        }
                        let node = match PoincareNode::read_enclosed(reader, "OriginalExpression") {
                            Ok(node) => node,
                            Err(e) => {
                                return Err(e);
                            },
                        };
                        self.original_expression = Some(node);
                    } else if same_text(start.name.as_str(), "ResultExpression") {
                        if self.result_expression.is_some() {
                            return Err(
                                TraceError::Unexpected {
                                    event: TagEvent::Start(start),
                                    position: at,
                                },
                            );
                        }
                        proof {
                            lemma_parse_enclosed_consumes(
                                "ResultExpression"@,
                                pending_events(reader),
                            );
                        }
                        let node = match PoincareNode::read_enclosed(reader, "ResultExpression") {
                            Ok(node) => node,
                            Err(e) => {
                                return Err(e);
                            },
                        };
                        self.result_expression = Some(node);
                    } else {
                        return Err(
                            TraceError::Unexpected { event: TagEvent::Start(start), position: at },
                        );
                    }
                },
                TagEvent::End(closing) => {
                    if same_text(closing.as_str(), "ReduceProcess") {
                        return Ok(());
                    } else {
                        return Err(
                            TraceError::Unexpected { event: TagEvent::End(closing), position: at },
                        );
                    }
                },
                TagEvent::Malformed(reason) => {
                    return Err(TraceError::Source { reason, position: at });
                },
                TagEvent::Other => {
                    return Err(TraceError::Unexpected { event: TagEvent::Other, position: at });
                },
            }
        }
    }

    /// Removes the steps that carry no information, and from each step that
    /// stays the parts that carry none.
    pub fn remove_useless(&mut self, hide_states: bool, mask: StepTypeMask)
        ensures
            process_model(*final(self)) == (ProcessModel {
                steps: pruned_steps(process_model(*old(self)).steps, hide_states, mask),
                ..process_model(*old(self))
            }),
    {
        let ghost initial = steps_model(self.steps@);
        let mut i: usize = self.steps.len();
        assert(steps_model(self.steps@).skip(i as int) =~= Seq::empty());
        assert(initial.skip(i as int) =~= Seq::empty());
        while i > 0
            invariant
                i <= self.steps.len(),
                i <= old(self).steps@.len(),
                initial == steps_model(old(self).steps@),
                self.original_expression == old(self).original_expression,
                self.result_expression == old(self).result_expression,
                forall|j: int| 0 <= j < i ==> self.steps@[j] == old(self).steps@[j],
                steps_model(self.steps@).skip(i as int) == pruned_steps(
                    initial.skip(i as int),
                    hide_states,
                    mask,
                ),
            decreases i,
        {
            i = i - 1;
            let ghost current = self.steps@;
            proof {
                assert(initial.skip(i as int).skip(1) =~= initial.skip(i as int + 1));
                assert(initial.skip(i as int)[0] == step_model(current[i as int]));
            }
            if self.steps[i].is_useless(hide_states, mask) {
                self.steps.remove(i);
                proof {
                    assert(steps_model(self.steps@).skip(i as int) =~= steps_model(current).skip(
                        i as int + 1,
                    ));
                }
            } else {
                let step = &mut self.steps[i];
                step.remove_useless_parts(hide_states, mask);
                proof {
                    assert(steps_model(self.steps@).skip(i as int) =~= seq![
                        step_model(self.steps@[i as int]),
                    ] + steps_model(current).skip(i as int + 1));
                }
            }
        }
        proof {
            assert(steps_model(self.steps@).skip(0) =~= steps_model(self.steps@));
            assert(initial.skip(0) =~= initial);
        }
    }

    /// Writes the report of the reduction. With `colorize` the markers and the
    /// expressions are emphasised for a terminal: the text is then the same,
    /// with escape codes in between.
    pub fn render(&self, long_form: bool, colorize: bool) -> (out: Result<String, TraceError>)
        ensures
            out is Ok <==> process_writable(process_model(*self), long_form),
            out matches Err(e) ==> e@ == TraceErrorModel::ParenthesisArity,
            out matches Ok(text) ==> carries(text@, process_text(process_model(*self), long_form)),
            out matches Ok(text) ==> !colorize ==> text@ == process_text(
                process_model(*self),
                long_form,
            ),
    {
        let ghost process = process_model(*self);
        let ghost blocks = step_blocks(process, long_form);
        let marker = tint_bold("/>", "cyan", colorize);
        let mut output = marker.clone();
        let ghost opened = match process.original_expression {
            Some(start) => "/>"@ + (" "@ + node_text(start, long_form)) + "\n"@,
            None => "/>"@ + "\n"@,
        };
        match &self.original_expression {
            Some(start) => {
                let start_text = match start.pretty_print(0, long_form, colorize) {
                    Ok(text) => text,
                    Err(e) => {
                        return Err(e);
                    },
                };
                let mut spaced = String::from_str(" ");
                spaced.append(start_text.as_str());
                proof {
                    let plain_start = node_text(start@, long_form);
                    lemma_carries_itself(" "@);
                    lemma_carries_in_sequence(" "@, " "@, start_text@, plain_start);
                    lemma_carries_in_sequence(marker@, "/>"@, spaced@, " "@ + plain_start);
                }
                output.append(spaced.as_str());
            },
            None => {},
        }
        proof {
            lemma_carries_itself("\n"@);
            match process.original_expression {
                Some(start) => {
                    lemma_carries_in_sequence(
                        output@,
                        "/>"@ + (" "@ + node_text(start, long_form)),
                        "\n"@,
                        "\n"@,
                    );
                },
                None => {
                    lemma_carries_in_sequence(output@, "/>"@, "\n"@, "\n"@);
                },
            }
        }
        output.append("\n");
        assert(carries(output@, opened));
        assert(!colorize ==> output@ == opened);
        assert(opened + flatten(blocks.take(0)) =~= opened);
        let mut i: usize = 0;
        while i < self.steps.len()
            invariant
                i <= self.steps.len(),
                process == process_model(*self),
                blocks == step_blocks(process, long_form),
                forall|j: int| 0 <= j < i ==> step_writable(#[trigger] process.steps[j], long_form),
                carries(output@, opened + flatten(blocks.take(i as int))),
                !colorize ==> output@ == opened + flatten(blocks.take(i as int)),
            decreases self.steps.len() - i,
        {
            assert(process.steps[i as int] == step_model(self.steps@[i as int]));
            let mut block = match self.steps[i].view(long_form).render(colorize) {
                Ok(text) => text,
                Err(e) => {
                    return Err(e);
                },
            };
            let ghost shown = block@;
            block.append("\n");
            proof {
                let plain = step_text(process.steps[i as int], long_form);
                lemma_carries_itself("\n"@);
                lemma_carries_in_sequence(shown, plain, "\n"@, "\n"@);
                lemma_marker_is_line_free();
                lemma_indentation_carries(block@, plain + "\n"@, "|    "@);
            }
            let block = indent(block.as_str(), "|    ");
            proof {
                lemma_flatten_step(blocks, i as int);
                assert(opened + flatten(blocks.take(i as int)) + blocks[i as int] =~= opened
                    + flatten(blocks.take(i as int + 1)));
                lemma_carries_in_sequence(
                    output@,
                    opened + flatten(blocks.take(i as int)),
                    block@,
                    blocks[i as int],
                );
            }
            output.append(block.as_str());
            i = i + 1;
        }
        assert(blocks.take(self.steps.len() as int) =~= blocks);
        let ghost body = opened + flatten(blocks);
        match &self.result_expression {
            Some(result) => {
                let result_text = match result.pretty_print(0, long_form, colorize) {
                    Ok(text) => text,
                    Err(e) => {
                        return Err(e);
                    },
                };
                let marker = tint_bold("\\_", "cyan", colorize);
                let mut line = marker.clone();
                line.append(" ");
                line.append(result_text.as_str());
                line.append("\n");
                proof {
                    let plain_result = node_text(result@, long_form);
                    lemma_carries_itself(" "@);
                    lemma_carries_in_sequence(marker@, "\\_"@, " "@, " "@);
                    lemma_carries_in_sequence(
                        marker@ + " "@,
                        "\\_"@ + " "@,
                        result_text@,
                        plain_result,
                    );
                    lemma_carries_in_sequence(
                        marker@ + " "@ + result_text@,
                        "\\_"@ + " "@ + plain_result,
                        "\n"@,
                        "\n"@,
                    );
                    lemma_carries_in_sequence(
                        output@,
                        body,
                        line@,
                        "\\_"@ + " "@ + plain_result + "\n"@,
                    );
                }
                output.append(line.as_str());
            },
            None => {},
        }
        Ok(output)
    }
}

/// The text of an entry of a trace, without emphasis: the report of a
/// reduction, or the block of a step.
pub open spec fn trace_text(trace: TraceModel, long_form: bool) -> Seq<char> {
    match trace {
        TraceModel::Process(process) => process_text(process, long_form),
        TraceModel::Step(step) => step_text(step, long_form),
    }
}

/// Whether an entry of a trace can be written.
pub open spec fn trace_writable(trace: TraceModel, long_form: bool) -> bool {
    match trace {
        TraceModel::Process(process) => process_writable(process, long_form),
        TraceModel::Step(step) => step_writable(step, long_form),
    }
}

impl Trace {
    /// Writes the entry: the report of a reduction, or the block of a step.
    pub fn render(&self, long_form: bool, colorize: bool) -> (out: Result<String, TraceError>)
        ensures
            out is Ok <==> trace_writable(trace_model(*self), long_form),
            out matches Err(e) ==> e@ == TraceErrorModel::ParenthesisArity,
            out matches Ok(text) ==> carries(text@, trace_text(trace_model(*self), long_form)),
            out matches Ok(text) ==> !colorize ==> text@ == trace_text(
                trace_model(*self),
                long_form,
            ),
    {
        match self {
            Trace::Process(process) => process.render(long_form, colorize),
            Trace::Step(step) => step.view(long_form).render(colorize),
        }
    }

    /// Reads the next entry of a trace, if the trace holds one more. The
    /// reader is expected to leave out the white space between tags.
    pub fn read_next(reader: &mut Reader<&[u8]>) -> (out: Result<Option<Trace>, TraceError>)
        ensures
            pending_events(final(reader)) == left_over(parse_trace(pending_events(old(reader)))),
            match out {
                Ok(found) => parse_trace(pending_events(old(reader))) matches Parsed::Done {
                    value,
                    ..
                } && value == found_model(found),
                Err(e) => parse_trace(pending_events(old(reader))) matches Parsed::Failed {
                    fault,
                    ..
                } && e@ == fault_at(fault, reader_offset(final(reader))),
            },
    {
        let event = next_event(reader);
        let at = position(reader);
        match event {
            TagEvent::Eof => Ok(None),
            TagEvent::Start(start) => {
                if same_text(start.name.as_str(), "ReduceProcess") {
                    let mut process = ReduceProcess::new();
                    match process.build(reader) {
                        Ok(_) => Ok(Some(Trace::Process(process))),
                        Err(e) => Err(e),
                    }
                } else if same_text(start.name.as_str(), "Step") {
                    let mut step = match StepNode::from_start(&start, at) {
                        Ok(step) => step,
                        Err(e) => {
                            return Err(e);
                        },
                    };
                    match step.build(reader) {
                        Ok(_) => Ok(Some(Trace::Step(step))),
                        Err(e) => Err(e),
                    }
                } else {
                    Err(TraceError::Unexpected { event: TagEvent::Start(start), position: at })
                }
            },
            TagEvent::Malformed(reason) => Err(TraceError::Source { reason, position: at }),
            other => Err(TraceError::Unexpected { event: other, position: at }),
        }
    }
}

} // verus!
