//! An interactively driven Game of Life on an unbounded plane.
//!
//! The live cells form a sparse set of signed coordinates. A pure
//! generation step applies the birth/survival rule; a small state
//! machine decodes input events into actions and applies them to the
//! simulation state. Terminal I/O lives outside this crate.

pub mod action;
pub mod cell;
pub mod colony;
pub mod input;
pub mod counter;
pub mod liveset;
pub mod run;
