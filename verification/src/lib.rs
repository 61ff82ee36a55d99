//! Turns the tag-structured debug trace of a symbolic reduction engine into a
//! readable, indented report, after pruning the steps that carry no information.
//!
//! The trace is pulled as tag events from a `quick_xml` reader, built into a tree
//! of steps and expression nodes, pruned, and rendered as text. Every function is
//! verified against a contract over the models of these types.

pub mod text;

pub mod events;
pub mod error;
pub mod notation;
pub mod poincare;
pub mod equality;
pub mod builder;
pub mod reduction;
pub mod nesting;
pub mod pruning;
pub mod process;
pub mod options;
