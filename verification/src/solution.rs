//! The results of one solve, keyed by the handles used during construction.
//!
//! The solving engine is an external collaborator; after it has run, its
//! reported status, objective value and column values arrive here as plain
//! data ([`RawSolution`]) and are wrapped in a [`Solution`] that translates a
//! column handle into its solved value.

use vstd::prelude::*;

use crate::handles::Col;
use crate::scalar::Scalar;

verus! {

/// The termination status a solving engine reports. Opaque to this layer:
/// the caller branches on it before trusting the objective or column values.
#[derive(Copy, Clone, PartialEq, Eq, Structural, Debug)]
pub enum Status {
    NotStarted,
    Stopped,
    Abandoned,
    Finished,
}

/// What an engine reports after one solve, as plain data: the termination
/// status, the objective value, and one value per column in column order.
#[derive(Clone, Debug, PartialEq, Eq)]
pub struct RawSolution {
    pub status: Status,
    pub obj_value: Scalar,
    pub col_solution: Vec<Scalar>,
}

/// A read-only wrapper pairing one solve's results with the typed handles of
/// the model that produced the problem: it owns the engine's reported data
/// exclusively and translates a [`Col`] into its solved value.
pub struct Solution {
    raw: RawSolution,
}

impl View for Solution {
    type V = RawSolution;

    closed spec fn view(&self) -> RawSolution {
        self.raw
    }
}

impl Solution {
    /// Wraps the data an engine reported for one solve.
    pub fn new(raw: RawSolution) -> (solution: Solution)
        ensures
            solution@ == raw,
    {
        Solution { raw }
    }

    /// Read access to the wrapped engine results.
    pub fn raw(&self) -> (raw: &RawSolution)
        ensures
            *raw == self@,
    {
        &self.raw
    }

    /// Releases the wrapped engine results to the caller, transferring
    /// ownership.
    pub fn into_raw(self) -> (raw: RawSolution)
        ensures
            raw == self@,
    {
        self.raw
    }

    /// The engine's termination status, passed through unchanged.
    pub fn status(&self) -> (status: Status)
        ensures
            status == self@.status,
    {
        self.raw.status
    }

    /// The objective value the engine reports, passed through unchanged.
    pub fn obj_value(&self) -> (value: Scalar)
        ensures
            value == self@.obj_value,
    {
        self.raw.obj_value
    }

    /// The solved value of column `col`. Valid only for handles minted by the
    /// model that produced this solution.
    pub fn col(&self, col: Col) -> (value: Scalar)
        requires
            (col@ as int) < self@.col_solution@.len(),
        ensures
            value == self@.col_solution@[col@ as int],
    {
        self.raw.col_solution[col.as_usize()]
    }
}

} // verus!
