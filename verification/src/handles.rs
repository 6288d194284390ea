//! Opaque handles for the columns and rows of a model.
//!
//! Handles wrap a zero-based index and are minted only by the builder's add
//! operations, never constructed by a caller. Equality and ordering derive
//! from the wrapped index alone, and creation order matches index order.

use vstd::prelude::*;

verus! {

/// Identifies one column (decision variable) of the model that minted it.
///
/// Valid only for that model; successive `add_col` calls return handles with
/// strictly increasing indices.
#[derive(Copy, Clone, PartialEq, Eq, PartialOrd, Ord, Hash)]
pub struct Col(u32);

impl View for Col {
    type V = u32;

    closed spec fn view(&self) -> u32 {
        self.0
    }
}

impl Col {
    /// Mints the handle for the column at `index`. Only the builder calls this.
    pub(crate) fn from_index(index: u32) -> (col: Col)
        ensures
            col@ == index,
    {
        Col(index)
    }

    /// The zero-based index of the column inside the model that minted it.
    pub fn as_usize(self) -> (index: usize)
        ensures
            index == self@ as usize,
    {
        self.0 as usize
    }
}

/// Identifies one row (constraint) of the model that minted it.
///
/// Valid only for that model; successive `add_row` calls return handles with
/// strictly increasing indices.
#[derive(Copy, Clone, PartialEq, Eq, PartialOrd, Ord, Hash)]
pub struct Row(u32);

impl View for Row {
    type V = u32;

    closed spec fn view(&self) -> u32 {
        self.0
    }
}

impl Row {
    /// Mints the handle for the row at `index`. Only the builder calls this.
    pub(crate) fn from_index(index: u32) -> (row: Row)
        ensures
            row@ == index,
    {
        Row(index)
    }

    /// The wrapped index, used as the key of sparse column entries.
    pub(crate) fn index(self) -> (index: u32)
        ensures
            index == self@,
    {
        self.0
    }

    /// The zero-based index of the row inside the model that minted it.
    pub fn as_usize(self) -> (index: usize)
        ensures
            index == self@ as usize,
    {
        self.0 as usize
    }
}

} // verus!
