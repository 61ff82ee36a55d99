//! The display options, and what they ask of a step before it is written.

use vstd::prelude::*;
use vstd::string::*;

use quick_xml::reader::Reader;

use crate::builder::{fault_at, left_over, Parsed};
use crate::error::{TraceError, TraceErrorModel};
use crate::events::{pending_events, reader_offset};
use crate::process::{
    parse_trace, process_model, pruned_steps, trace_model, trace_text, trace_writable,
    ProcessModel, ReduceProcess, Trace, TraceModel,
};
use crate::reduction::{pruned, step_model, StepModel, StepNode, StepTypeMask};
use crate::text::{carries, same_text, starts_with, trim, trimmed};

verus! {

/// The display options. They are read by the program around this library.
#[derive(Debug, Clone, PartialEq, Eq)]
pub struct Arguments {
    /// Keep the steps that carry no information.
    pub show_useless: bool,
    /// Keep the steps that turn a number written with a base into a rational.
    pub show_number_to_rational: bool,
    /// Keep the steps that collapse to something undefined.
    pub show_to_undef: bool,
    /// Count the intermediate states of a step as carrying no information.
    pub dont_show_intermediate_states: bool,
    /// Write every expression in the long form.
    pub print_long_form: bool,
    /// The files to read.
    pub files: Vec<String>,
}

/// The `Arguments` as contracts see them.
pub struct ArgumentsModel {
    pub show_useless: bool,
    pub show_number_to_rational: bool,
    pub show_to_undef: bool,
    pub dont_show_intermediate_states: bool,
    pub print_long_form: bool,
    pub files: Seq<Seq<char>>,
}

impl View for Arguments {
    type V = ArgumentsModel;

    open spec fn view(&self) -> ArgumentsModel {
        ArgumentsModel {
            show_useless: self.show_useless,
            show_number_to_rational: self.show_number_to_rational,
            show_to_undef: self.show_to_undef,
            dont_show_intermediate_states: self.dont_show_intermediate_states,
            print_long_form: self.print_long_form,
            files: self.files@.map_values(|file: String| file@),
        }
    }
}

/// Whether an argument is written as an option: it begins with `--`.
pub open spec fn names_option(argument: Seq<char>) -> bool {
    "--"@.is_prefix_of(argument)
}

/// Whether an argument is understood: one of the options, or the name of a
/// file.
pub open spec fn is_understood(argument: Seq<char>) -> bool {
    ||| argument == "--useless"@
    ||| argument == "--number-to-rational"@
    ||| argument == "--to-undef"@
    ||| argument == "--long"@
    ||| argument == "--no-states"@
    ||| !names_option(argument)
}

/// The options after one more argument: an option sets its field, any other
/// argument that is not written as an option is one more file to read, and an
/// option that is not known changes nothing.
pub open spec fn with_argument(options: ArgumentsModel, argument: Seq<char>) -> ArgumentsModel {
    if argument == "--useless"@ {
        ArgumentsModel { show_useless: true, ..options }
    } else if argument == "--number-to-rational"@ {
        ArgumentsModel { show_number_to_rational: true, ..options }
    } else if argument == "--to-undef"@ {
        ArgumentsModel { show_to_undef: true, ..options }
    } else if argument == "--long"@ {
        ArgumentsModel { print_long_form: true, ..options }
    } else if argument == "--no-states"@ {
        ArgumentsModel { dont_show_intermediate_states: true, ..options }
    } else if !names_option(argument) {
        ArgumentsModel { files: options.files.push(argument), ..options }
    } else {
        options
    }
}

impl Default for Arguments {
    fn default() -> (arguments: Self)
        ensures
            !arguments.show_useless,
            !arguments.show_number_to_rational,
            !arguments.show_to_undef,
            arguments.dont_show_intermediate_states,
            !arguments.print_long_form,
            arguments.files@.len() == 0,
    {
        Self {
            show_useless: false,
            show_number_to_rational: false,
            show_to_undef: false,
            dont_show_intermediate_states: true,
            print_long_form: false,
            files: Vec::new(),
        }
    }
}

impl Arguments {
    /// Takes one argument of the command line, with nothing around it, and
    /// tells whether it was understood.
    pub fn accept_trimmed(&mut self, argument: &str) -> (understood: bool)
        ensures
            final(self)@ == with_argument(old(self)@, argument@),
            understood == is_understood(argument@),
    {
        let ghost before = self@;
        if same_text(argument, "--useless") {
            self.show_useless = true;
            true
        } else if same_text(argument, "--number-to-rational") {
            self.show_number_to_rational = true;
            true
        } else if same_text(argument, "--to-undef") {
            self.show_to_undef = true;
            true
        } else if same_text(argument, "--long") {
            self.print_long_form = true;
            true
        } else if same_text(argument, "--no-states") {
            self.dont_show_intermediate_states = true;
            true
        } else if !starts_with(argument, "--") {
            self.files.push(String::from_str(argument));
            assert(self@.files =~= before.files.push(argument@));
            true
        } else {
            false
        }
    }

    /// Takes one argument of the command line, white space around it set
    /// aside, and tells whether it was understood.
    pub fn accept(&mut self, argument: &str) -> (understood: bool)
        ensures
            final(self)@ == with_argument(old(self)@, trimmed(argument@)),
            understood == is_understood(trimmed(argument@)),
    {
        self.accept_trimmed(trim(argument))
    }

    /// The classes of steps that the options ask to remove.
    pub open spec fn removed_classes(&self) -> StepTypeMask {
        StepTypeMask {
            based_integer_to_rational: !self.show_number_to_rational,
            to_undef: !self.show_to_undef,
        }
    }

    /// What is left of a step under these options: the step itself with its
    /// parts pruned, or the whole step when useless steps are to be shown.
    pub open spec fn kept_of(&self, step: StepModel) -> StepModel {
        if self.show_useless {
            step
        } else {
            StepModel {
                parts: pruned(
                    step.parts,
                    self.dont_show_intermediate_states,
                    self.removed_classes(),
                ),
                ..step
            }
        }
    }

    /// The classes of steps that the options ask to remove.
    pub fn steps_to_remove_mask(&self) -> (mask: StepTypeMask)
        ensures
            mask == self.removed_classes(),
    {
        StepTypeMask {
            based_integer_to_rational: !self.show_number_to_rational,
            to_undef: !self.show_to_undef,
        }
    }

    /// Prunes the parts of a step as the options ask. The step itself stays.
    pub fn prune(&self, step: &mut StepNode)
        ensures
            step_model(*final(step)) == self.kept_of(step_model(*old(step))),
    {
        if !self.show_useless {
            step.remove_useless_parts(
                self.dont_show_intermediate_states,
                self.steps_to_remove_mask(),
            );
        }
    }

    /// What is left of a reduction under these options: the steps that carry
    /// information, each with its parts pruned, or every step when useless
    /// steps are to be shown.
    pub open spec fn kept_of_process(&self, process: ProcessModel) -> ProcessModel {
        if self.show_useless {
            process
        } else {
            ProcessModel {
                steps: pruned_steps(
                    process.steps,
                    self.dont_show_intermediate_states,
                    self.removed_classes(),
                ),
                ..process
            }
        }
    }

    /// Prunes the steps of a reduction as the options ask.
    pub fn prune_process(&self, process: &mut ReduceProcess)
        ensures
            process_model(*final(process)) == self.kept_of_process(process_model(*old(process))),
    {
        if !self.show_useless {
            process.remove_useless(
                self.dont_show_intermediate_states,
                self.steps_to_remove_mask(),
            );
        }
    }

    /// What is left of an entry of a trace under these options.
    pub open spec fn kept_of_trace(&self, trace: TraceModel) -> TraceModel {
        match trace {
            TraceModel::Process(process) => TraceModel::Process(self.kept_of_process(process)),
            TraceModel::Step(step) => TraceModel::Step(self.kept_of(step)),
        }
    }

    /// Prunes an entry of a trace as the options ask.
    pub fn prune_trace(&self, trace: &mut Trace)
        ensures
            trace_model(*final(trace)) == self.kept_of_trace(trace_model(*old(trace))),
    {
        match trace {
            Trace::Process(process) => self.prune_process(process),
            Trace::Step(step) => self.prune(step),
        }
    }

    /// Reads the next entry of a trace, prunes it and writes it, all as the
    /// options ask: `None` at the end of the document, the text of the entry
    /// otherwise, with escape codes in between where `colorize` is set. A trace that is refused, and an entry that cannot be written,
    /// give the error that says why.
    pub fn report_next(&self, reader: &mut Reader<&[u8]>, colorize: bool) -> (out: Result<
        Option<String>,
        TraceError,
    >)
        ensures
            pending_events(final(reader)) == left_over(parse_trace(pending_events(old(reader)))),
            match parse_trace(pending_events(old(reader))) {
                Parsed::Failed { fault, .. } => out matches Err(e) && e@ == fault_at(
                    fault,
                    reader_offset(final(reader)),
                ),
                Parsed::Done { value: None, .. } => out matches Ok(None),
                Parsed::Done { value: Some(trace), .. } => {
                    let kept = self.kept_of_trace(trace);
                    if trace_writable(kept, self.print_long_form) {
                        out matches Ok(Some(text)) && carries(
                            text@,
                            trace_text(kept, self.print_long_form),
                        ) && (!colorize ==> text@ == trace_text(kept, self.print_long_form))
                    } else {
                        out matches Err(e) && e@ == TraceErrorModel::ParenthesisArity
                    }
                },
            },
    {
        let mut trace = match Trace::read_next(reader) {
            Ok(Some(trace)) => trace,
            Ok(None) => {
                return Ok(None);
            },
            Err(e) => {
                return Err(e);
            },
        };
        self.prune_trace(&mut trace);
        match trace.render(self.print_long_form, colorize) {
            Ok(text) => Ok(Some(text)),
            Err(e) => Err(e),
        }
    }
}

} // verus!
