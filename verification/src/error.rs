//! The ways in which a trace is refused.

use vstd::prelude::*;
use vstd::string::*;

use crate::events::{event_text, TagEvent, TagEventModel};
use crate::text::{decimal, decimal_digits};

verus! {

/// Why a trace could not be built or rendered. None of these is recovered from.
#[derive(Debug, Clone, PartialEq, Eq)]
pub enum TraceError {
    /// The document is broken at `position`, for the reason that the reader
    /// gives.
    Source { reason: String, position: usize },
    /// An event that may not stand where it was read.
    Unexpected { event: TagEvent, position: usize },
    /// An expression node without an `id`.
    MissingId { name: String, position: usize },
    /// A step without a `name`.
    MissingName { position: usize },
    /// A third expression directly in a step, which can hold two: the one before
    /// and the one after.
    TooManyNodes { position: usize },
    /// A `Parenthesis` node that does not have exactly one child.
    ParenthesisArity,
}

/// A `TraceError` as contracts see it, with texts as sequences of
/// characters.
pub enum TraceErrorModel {
    Source { reason: Seq<char>, position: usize },
    Unexpected { event: TagEventModel, position: usize },
    MissingId { name: Seq<char>, position: usize },
    MissingName { position: usize },
    TooManyNodes { position: usize },
    ParenthesisArity,
}

impl View for TraceError {
    type V = TraceErrorModel;

    open spec fn view(&self) -> TraceErrorModel {
        match self {
            TraceError::Source { reason, position } => TraceErrorModel::Source {
                reason: reason@,
                position: *position,
            },
            TraceError::Unexpected { event, position } => TraceErrorModel::Unexpected {
                event: event@,
                position: *position,
            },
            TraceError::MissingId { name, position } => TraceErrorModel::MissingId {
                name: name@,
                position: *position,
            },
            TraceError::MissingName { position } => TraceErrorModel::MissingName {
                position: *position,
            },
            TraceError::TooManyNodes { position } => TraceErrorModel::TooManyNodes {
                position: *position,
            },
            TraceError::ParenthesisArity => TraceErrorModel::ParenthesisArity,
        }
    }
}

/// The words in which an error is reported: what is wrong, and the byte offset
/// in the document where it is known.
pub open spec fn message_text(error: TraceErrorModel) -> Seq<char> {
    match error {
        TraceErrorModel::Source { reason, position } => "Error at position "@ + decimal_digits(
            position as nat,
        ) + ": "@ + reason,
        TraceErrorModel::Unexpected { event, position } => "Unexpected `"@ + event_text(event)
            + "` at position "@ + decimal_digits(position as nat),
        TraceErrorModel::MissingId { name, position } => "no id for node "@ + name
            + " at position "@ + decimal_digits(position as nat),
        TraceErrorModel::MissingName { position } => "A step must have a name, at position "@
            + decimal_digits(position as nat),
        TraceErrorModel::TooManyNodes { position } => "A step can only have two nodes, at position "@
            + decimal_digits(position as nat),
        TraceErrorModel::ParenthesisArity => "ParenthesisNode can only have exactly one child"@,
    }
}

impl TraceError {
    /// Writes the words in which the error is reported.
    pub fn message(&self) -> (out: String)
        ensures
            out@ == message_text(self@),
    {
        match self {
            TraceError::Source { reason, position } => {
                let mut out = String::from_str("Error at position ");
                out.append(decimal(*position).as_str());
                out.append(": ");
                out.append(reason.as_str());
                out
            },
            TraceError::Unexpected { event, position } => {
                let mut out = String::from_str("Unexpected `");
                out.append(event.describe().as_str());
                out.append("` at position ");
                out.append(decimal(*position).as_str());
                out
            },
            TraceError::MissingId { name, position } => {
                let mut out = String::from_str("no id for node ");
                out.append(name.as_str());
                out.append(" at position ");
                out.append(decimal(*position).as_str());
                out
            },
            TraceError::MissingName { position } => {
                let mut out = String::from_str("A step must have a name, at position ");
                out.append(decimal(*position).as_str());
                out
            },
            TraceError::TooManyNodes { position } => {
                let mut out = String::from_str("A step can only have two nodes, at position ");
                out.append(decimal(*position).as_str());
                out
            },
            TraceError::ParenthesisArity => String::from_str(
                "ParenthesisNode can only have exactly one child",
            ),
        }
    }
}

} // verus!
