//! A grid robot driven by discrete, reversible commands.
//!
//! The robot holds a position, a heading and a pen state.  Commands (move,
//! turn, pen up/down) execute against a robot and can be rolled back; a
//! scanner and an interpreter turn a small text command language into a
//! command list.

pub mod command;
pub mod error;
pub mod interpreter;
pub mod robot;
