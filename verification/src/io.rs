//! What goes wrong when bytes are moved.
use vstd::prelude::*;

verus! {

/// The part of an error of the operating system on which anything depends.
#[derive(Debug, PartialEq, Eq, Structural, Copy, Clone)]
pub enum ErrorKind {
    /// The operation would have had to wait.
    WouldBlock,
    Other,
}

/// An error of the operating system, with its number where it has one.
#[derive(Debug, PartialEq, Eq, Structural, Copy, Clone)]
pub struct IoError {
    pub kind: ErrorKind,
    pub code: Option<i32>,
}

} // verus!
