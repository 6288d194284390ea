//! The sparse MILP builder and its assembly into flat solver arrays.
//!
//! A [`Model`] accumulates columns, rows, bounds, objective coefficients,
//! integrality flags and the sparse weight matrix under the handles it mints,
//! and assembles the problem on demand into a [`RawProblem`]: the compressed
//! sparse-column triple plus bound and objective vectors that a solving
//! engine's problem-loading entry point consumes.

use vstd::prelude::*;

use crate::handles::{Col, Row};
use crate::scalar::{
    NEG_INFINITY_BITS, ONE_BITS, POS_INFINITY_BITS, POS_ZERO_BITS, Scalar,
};
use crate::sparse::{
    Entry, entries_wf, flat_entries, flat_prefix, lemma_flat_column_slice,
    lemma_flat_prefix_extends, lemma_set_entry_idempotent, lemma_set_entry_lookup,
    lemma_set_entry_wf, set_entry, weight_of,
};

verus! {

/// The direction of optimization for the objective.
#[derive(Copy, Clone, PartialEq, Eq, Structural, Debug)]
pub enum Sense {
    Minimize,
    Maximize,
}

/// The mathematical content of a [`Model`]: counts, per-column and per-row
/// vectors, one ordered entry sequence per column, and the objective sense.
#[verifier::ext_equal]
pub struct ModelView {
    pub num_cols: int,
    pub num_rows: int,
    pub col_lower: Seq<Scalar>,
    pub col_upper: Seq<Scalar>,
    pub row_lower: Seq<Scalar>,
    pub row_upper: Seq<Scalar>,
    pub obj_coefficients: Seq<Scalar>,
    pub weights: Seq<Seq<Entry>>,
    pub is_integer: Seq<bool>,
    pub sense: Sense,
}

impl ModelView {
    /// Well-formedness: every per-column vector has length `num_cols`, every
    /// per-row vector has length `num_rows`, and each column's entries are
    /// strictly ascending by row, nonzero, and within the row count.
    pub open spec fn wf(self) -> bool {
        &&& 0 <= self.num_cols <= u32::MAX as int
        &&& 0 <= self.num_rows <= u32::MAX as int
        &&& self.col_lower.len() == self.num_cols
        &&& self.col_upper.len() == self.num_cols
        &&& self.obj_coefficients.len() == self.num_cols
        &&& self.weights.len() == self.num_cols
        &&& self.is_integer.len() == self.num_cols
        &&& self.row_lower.len() == self.num_rows
        &&& self.row_upper.len() == self.num_rows
        &&& forall|c: int|
            0 <= c < self.num_cols ==> entries_wf(#[trigger] self.weights[c], self.num_rows)
    }

    /// The model with no columns and no rows, minimizing.
    pub open spec fn empty() -> ModelView {
        ModelView {
            num_cols: 0,
            num_rows: 0,
            col_lower: Seq::empty(),
            col_upper: Seq::empty(),
            row_lower: Seq::empty(),
            row_upper: Seq::empty(),
            obj_coefficients: Seq::empty(),
            weights: Seq::empty(),
            is_integer: Seq::empty(),
            sense: Sense::Minimize,
        }
    }

    /// One column appended with the default attributes: objective coefficient
    /// zero, no weights, continuous, bounds `[0, +infinity)`.
    pub open spec fn with_new_col(self) -> ModelView {
        ModelView {
            num_cols: self.num_cols + 1,
            col_lower: self.col_lower.push(Scalar { bits: POS_ZERO_BITS }),
            col_upper: self.col_upper.push(Scalar { bits: POS_INFINITY_BITS }),
            obj_coefficients: self.obj_coefficients.push(Scalar { bits: POS_ZERO_BITS }),
            weights: self.weights.push(Seq::empty()),
            is_integer: self.is_integer.push(false),
            ..self
        }
    }

    /// One row appended, unconstrained: bounds `(-infinity, +infinity)`.
    pub open spec fn with_new_row(self) -> ModelView {
        ModelView {
            num_rows: self.num_rows + 1,
            row_lower: self.row_lower.push(Scalar { bits: NEG_INFINITY_BITS }),
            row_upper: self.row_upper.push(Scalar { bits: POS_INFINITY_BITS }),
            ..self
        }
    }

    /// Column `col`'s weight on `row` set to `w`; zero removes the entry.
    pub open spec fn with_weight(self, col: int, row: u32, w: Scalar) -> ModelView {
        ModelView {
            weights: self.weights.update(col, set_entry(self.weights[col], row, w)),
            ..self
        }
    }

    /// Column `col`'s lower bound overwritten with `value`.
    pub open spec fn with_col_lower(self, col: int, value: Scalar) -> ModelView {
        ModelView { col_lower: self.col_lower.update(col, value), ..self }
    }

    /// Column `col`'s upper bound overwritten with `value`.
    pub open spec fn with_col_upper(self, col: int, value: Scalar) -> ModelView {
        ModelView { col_upper: self.col_upper.update(col, value), ..self }
    }

    /// Column `col`'s objective coefficient overwritten with `value`.
    pub open spec fn with_obj_coeff(self, col: int, value: Scalar) -> ModelView {
        ModelView { obj_coefficients: self.obj_coefficients.update(col, value), ..self }
    }

    /// Row `row`'s lower bound overwritten with `value`.
    pub open spec fn with_row_lower(self, row: int, value: Scalar) -> ModelView {
        ModelView { row_lower: self.row_lower.update(row, value), ..self }
    }

    /// Row `row`'s upper bound overwritten with `value`.
    pub open spec fn with_row_upper(self, row: int, value: Scalar) -> ModelView {
        ModelView { row_upper: self.row_upper.update(row, value), ..self }
    }

    /// Column `col`'s integrality flag overwritten with `integer`.
    pub open spec fn with_integrality(self, col: int, integer: bool) -> ModelView {
        ModelView { is_integer: self.is_integer.update(col, integer), ..self }
    }

    /// The objective sense overwritten with `sense`.
    pub open spec fn with_sense(self, sense: Sense) -> ModelView {
        ModelView { sense, ..self }
    }
}

/// The sparse problem builder. Owns all per-column and per-row vectors and
/// the sparse weight matrix; columns and rows are appended only, and every
/// attribute can be rewritten until assembly.
#[derive(Clone)]
pub struct Model {
    num_cols: u32,
    num_rows: u32,
    col_lower: Vec<Scalar>,
    col_upper: Vec<Scalar>,
    row_lower: Vec<Scalar>,
    row_upper: Vec<Scalar>,
    obj_coefficients: Vec<Scalar>,
    weights: Vec<Vec<Entry>>,
    is_integer: Vec<bool>,
    sense: Sense,
}

impl View for Model {
    type V = ModelView;

    closed spec fn view(&self) -> ModelView {
        ModelView {
            num_cols: self.num_cols as int,
            num_rows: self.num_rows as int,
            col_lower: self.col_lower@,
            col_upper: self.col_upper@,
            row_lower: self.row_lower@,
            row_upper: self.row_upper@,
            obj_coefficients: self.obj_coefficients@,
            weights: self.weights@.map_values(|column: Vec<Entry>| column@),
            is_integer: self.is_integer@,
            sense: self.sense,
        }
    }
}

impl Model {
    /// The empty model: zero columns, zero rows, minimizing.
    pub fn new() -> (model: Model)
        ensures
            model@ == ModelView::empty(),
            model@.wf(),
    {
        let model = Model {
            num_cols: 0,
            num_rows: 0,
            col_lower: Vec::new(),
            col_upper: Vec::new(),
            row_lower: Vec::new(),
            row_upper: Vec::new(),
            obj_coefficients: Vec::new(),
            weights: Vec::new(),
            is_integer: Vec::new(),
            sense: Sense::Minimize,
        };
        proof {
            assert(model@ =~= ModelView::empty());
        }
        model
    }

    /// Appends a column with the default attributes: objective coefficient
    /// zero, empty weight set, continuous, bounds `[0, +infinity)`. The
    /// returned handle's index is the prior column count, so successive
    /// handles strictly increase.
    pub fn add_col(&mut self) -> (col: Col)
        requires
            old(self)@.wf(),
            old(self)@.num_cols < u32::MAX as int,
        ensures
            final(self)@ == old(self)@.with_new_col(),
            final(self)@.wf(),
            col@ as int == old(self)@.num_cols,
    {
        let col = Col::from_index(self.num_cols);
        self.num_cols = self.num_cols + 1;
        self.obj_coefficients.push(Scalar { bits: POS_ZERO_BITS });
        self.weights.push(Vec::new());
        self.is_integer.push(false);
        self.col_lower.push(Scalar { bits: POS_ZERO_BITS });
        self.col_upper.push(Scalar { bits: POS_INFINITY_BITS });
        proof {
            assert(self@.weights =~= old(self)@.weights.push(Seq::empty()));
            assert(self@ =~= old(self)@.with_new_col());
            assert forall|c: int| 0 <= c < self@.num_cols implies entries_wf(
                #[trigger] self@.weights[c],
                self@.num_rows,
            ) by {
                if c < old(self)@.num_cols {
                    assert(self@.weights[c] == old(self)@.weights[c]);
                }
            }
        }
        col
    }

    /// Appends a row with bounds `(-infinity, +infinity)`, non-binding until
    /// set. The returned handle's index is the prior row count, so successive
    /// handles strictly increase.
    pub fn add_row(&mut self) -> (row: Row)
        requires
            old(self)@.wf(),
            old(self)@.num_rows < u32::MAX as int,
        ensures
            final(self)@ == old(self)@.with_new_row(),
            final(self)@.wf(),
            row@ as int == old(self)@.num_rows,
    {
        let row = Row::from_index(self.num_rows);
        self.num_rows = self.num_rows + 1;
        self.row_lower.push(Scalar { bits: NEG_INFINITY_BITS });
        self.row_upper.push(Scalar { bits: POS_INFINITY_BITS });
        proof {
            assert(self@ =~= old(self)@.with_new_row());
            assert forall|c: int| 0 <= c < self@.num_cols implies entries_wf(
                #[trigger] self@.weights[c],
                self@.num_rows,
            ) by {
                assert(self@.weights[c] == old(self)@.weights[c]);
                assert(entries_wf(old(self)@.weights[c], old(self)@.num_rows));
            }
        }
        row
    }

    /// Sets column `col`'s coefficient on `row`. A zero weight removes any
    /// stored entry, restoring the implicit zero; a nonzero weight inserts or
    /// overwrites. Matrix dimensions are unchanged.
    pub fn set_weight(&mut self, row: Row, col: Col, weight: Scalar)
        requires
            old(self)@.wf(),
            (col@ as int) < old(self)@.num_cols,
            (row@ as int) < old(self)@.num_rows,
        ensures
            final(self)@ == old(self)@.with_weight(col@ as int, row@, weight),
            final(self)@.wf(),
    {
        let c = col.as_usize();
        let updated = crate::sparse::update_entries(&self.weights[c], row.index(), weight);
        self.weights[c] = updated;
        proof {
            let ghost v0 = old(self)@;
            assert(self@.weights =~= v0.weights.update(
                col@ as int,
                set_entry(v0.weights[col@ as int], row@, weight),
            ));
            assert(self@ =~= v0.with_weight(col@ as int, row@, weight));
            lemma_set_entry_wf(v0.weights[col@ as int], row@, weight, v0.num_rows);
            assert forall|cc: int| 0 <= cc < self@.num_cols implies entries_wf(
                #[trigger] self@.weights[cc],
                self@.num_rows,
            ) by {
                if cc != col@ as int {
                    assert(self@.weights[cc] == v0.weights[cc]);
                }
            }
        }
    }

    /// Marks the column integer-constrained. Mutually exclusive with
    /// [`Model::set_continuous`]; the last write wins.
    pub fn set_integer(&mut self, col: Col)
        requires
            old(self)@.wf(),
            (col@ as int) < old(self)@.num_cols,
        ensures
            final(self)@ == old(self)@.with_integrality(col@ as int, true),
            final(self)@.wf(),
    {
        self.is_integer[col.as_usize()] = true;
        proof {
            self.lemma_same_weights_wf(old(self)@);
            assert(self@ =~= old(self)@.with_integrality(col@ as int, true));
        }
    }

    /// Marks the column continuous. Mutually exclusive with
    /// [`Model::set_integer`]; the last write wins.
    pub fn set_continuous(&mut self, col: Col)
        requires
            old(self)@.wf(),
            (col@ as int) < old(self)@.num_cols,
        ensures
            final(self)@ == old(self)@.with_integrality(col@ as int, false),
            final(self)@.wf(),
    {
        self.is_integer[col.as_usize()] = false;
        proof {
            self.lemma_same_weights_wf(old(self)@);
            assert(self@ =~= old(self)@.with_integrality(col@ as int, false));
        }
    }

    /// Makes the column a 0/1 variable: integer-constrained with bounds
    /// `[0, 1]`, overwriting whatever bounds were set before. Equivalent to
    /// `set_integer`, `set_col_lower(col, 0)`, `set_col_upper(col, 1)` in
    /// that order.
    pub fn set_binary(&mut self, col: Col)
        requires
            old(self)@.wf(),
            (col@ as int) < old(self)@.num_cols,
        ensures
            final(self)@ == old(self)@.with_integrality(col@ as int, true).with_col_lower(
                col@ as int,
                Scalar { bits: POS_ZERO_BITS },
            ).with_col_upper(col@ as int, Scalar { bits: ONE_BITS }),
            final(self)@.is_integer[col@ as int] == true,
            final(self)@.col_lower[col@ as int] == (Scalar { bits: POS_ZERO_BITS }),
            final(self)@.col_upper[col@ as int] == (Scalar { bits: ONE_BITS }),
            final(self)@.wf(),
    {
        self.set_integer(col);
        self.set_col_lower(col, Scalar { bits: POS_ZERO_BITS });
        self.set_col_upper(col, Scalar { bits: ONE_BITS });
    }

    /// Overwrites the column's upper bound; any value is accepted, including
    /// `+infinity` for an unconstrained bound.
    pub fn set_col_upper(&mut self, col: Col, value: Scalar)
        requires
            old(self)@.wf(),
            (col@ as int) < old(self)@.num_cols,
        ensures
            final(self)@ == old(self)@.with_col_upper(col@ as int, value),
            final(self)@.wf(),
    {
        self.col_upper[col.as_usize()] = value;
        proof {
            self.lemma_same_weights_wf(old(self)@);
            assert(self@ =~= old(self)@.with_col_upper(col@ as int, value));
        }
    }

    /// Overwrites the column's lower bound; any value is accepted, including
    /// `-infinity` for an unconstrained bound.
    pub fn set_col_lower(&mut self, col: Col, value: Scalar)
        requires
            old(self)@.wf(),
            (col@ as int) < old(self)@.num_cols,
        ensures
            final(self)@ == old(self)@.with_col_lower(col@ as int, value),
            final(self)@.wf(),
    {
        self.col_lower[col.as_usize()] = value;
        proof {
            self.lemma_same_weights_wf(old(self)@);
            assert(self@ =~= old(self)@.with_col_lower(col@ as int, value));
        }
    }

    /// Overwrites the column's objective coefficient.
    pub fn set_obj_coeff(&mut self, col: Col, value: Scalar)
        requires
            old(self)@.wf(),
            (col@ as int) < old(self)@.num_cols,
        ensures
            final(self)@ == old(self)@.with_obj_coeff(col@ as int, value),
            final(self)@.wf(),
    {
        self.obj_coefficients[col.as_usize()] = value;
        proof {
            self.lemma_same_weights_wf(old(self)@);
            assert(self@ =~= old(self)@.with_obj_coeff(col@ as int, value));
        }
    }

    /// Overwrites the row's upper bound; any value is accepted, including
    /// `+infinity` for a non-binding bound.
    pub fn set_row_upper(&mut self, row: Row, value: Scalar)
        requires
            old(self)@.wf(),
            (row@ as int) < old(self)@.num_rows,
        ensures
            final(self)@ == old(self)@.with_row_upper(row@ as int, value),
            final(self)@.wf(),
    {
        self.row_upper[row.as_usize()] = value;
        proof {
            self.lemma_same_weights_wf(old(self)@);
            assert(self@ =~= old(self)@.with_row_upper(row@ as int, value));
        }
    }

    /// Overwrites the row's lower bound; any value is accepted, including
    /// `-infinity` for a non-binding bound.
    pub fn set_row_lower(&mut self, row: Row, value: Scalar)
        requires
            old(self)@.wf(),
            (row@ as int) < old(self)@.num_rows,
        ensures
            final(self)@ == old(self)@.with_row_lower(row@ as int, value),
            final(self)@.wf(),
    {
        self.row_lower[row.as_usize()] = value;
        proof {
            self.lemma_same_weights_wf(old(self)@);
            assert(self@ =~= old(self)@.with_row_lower(row@ as int, value));
        }
    }

    /// Sets the direction of optimization for the objective.
    pub fn set_obj_sense(&mut self, sense: Sense)
        requires
            old(self)@.wf(),
        ensures
            final(self)@ == old(self)@.with_sense(sense),
            final(self)@.wf(),
    {
        self.sense = sense;
        proof {
            self.lemma_same_weights_wf(old(self)@);
            assert(self@ =~= old(self)@.with_sense(sense));
        }
    }

    /// A mutation that left the counts and the weight matrix alone, and every
    /// vector at its length, keeps the model well formed.
    proof fn lemma_same_weights_wf(&self, v0: ModelView)
        requires
            v0.wf(),
            self@.num_cols == v0.num_cols,
            self@.num_rows == v0.num_rows,
            self@.weights == v0.weights,
            self@.col_lower.len() == v0.col_lower.len(),
            self@.col_upper.len() == v0.col_upper.len(),
            self@.obj_coefficients.len() == v0.obj_coefficients.len(),
            self@.row_lower.len() == v0.row_lower.len(),
            self@.row_upper.len() == v0.row_upper.len(),
            self@.is_integer.len() == v0.is_integer.len(),
        ensures
            self@.wf(),
    {
        assert forall|c: int| 0 <= c < self@.num_cols implies entries_wf(
            #[trigger] self@.weights[c],
            self@.num_rows,
        ) by {
            assert(entries_wf(v0.weights[c], v0.num_rows));
        }
    }
}

impl Default for Model {
    /// The empty model, as [`Model::new`] builds it.
    fn default() -> (model: Model)
        ensures
            model@ == ModelView::empty(),
            model@.wf(),
    {
        Model::new()
    }
}

/// A model assembled into the flat arrays a solving engine loads: the CSC
/// triple `start`/`index`/`value` plus the bound, objective and integrality
/// vectors and the objective sense. Column `c`'s nonzeros occupy
/// `index[start[c]..start[c + 1]]` and `value[start[c]..start[c + 1]]`,
/// sorted by ascending row index within the column.
#[derive(Clone, Debug, PartialEq, Eq)]
pub struct RawProblem {
    pub num_cols: usize,
    pub num_rows: usize,
    pub start: Vec<i32>,
    pub index: Vec<i32>,
    pub value: Vec<Scalar>,
    pub col_lower: Vec<Scalar>,
    pub col_upper: Vec<Scalar>,
    pub obj_coefficients: Vec<Scalar>,
    pub row_lower: Vec<Scalar>,
    pub row_upper: Vec<Scalar>,
    pub is_integer: Vec<bool>,
    pub sense: Sense,
}

/// `raw` is the CSC assembly of the model `v`: `start` holds the cumulative
/// entry counts of the columns, `index` and `value` list every column's
/// entries in column order (each column's in ascending row order), and the
/// bound, objective, integrality and sense data carry over unchanged.
pub open spec fn is_assembly(v: ModelView, raw: RawProblem) -> bool {
    &&& raw.num_cols as int == v.num_cols
    &&& raw.num_rows as int == v.num_rows
    &&& raw.start@.len() == v.num_cols + 1
    &&& (forall|c: int|
        0 <= c <= v.num_cols ==> (#[trigger] raw.start@[c]) as int == flat_prefix(
            v.weights,
            c,
        ).len() as int)
    &&& raw.index@.len() == flat_entries(v.weights).len()
    &&& raw.value@.len() == flat_entries(v.weights).len()
    &&& (forall|k: int|
        0 <= k < raw.index@.len() ==> (#[trigger] raw.index@[k]) as int == flat_entries(
            v.weights,
        )[k].row as int)
    &&& (forall|k: int|
        0 <= k < raw.value@.len() ==> (#[trigger] raw.value@[k]) == flat_entries(
            v.weights,
        )[k].weight)
    &&& raw.col_lower@ == v.col_lower
    &&& raw.col_upper@ == v.col_upper
    &&& raw.obj_coefficients@ == v.obj_coefficients
    &&& raw.row_lower@ == v.row_lower
    &&& raw.row_upper@ == v.row_upper
    &&& raw.is_integer@ == v.is_integer
    &&& raw.sense == v.sense
}

/// Copies a vector of scalar values.
fn copy_scalars(src: &Vec<Scalar>) -> (out: Vec<Scalar>)
    ensures
        out@ == src@,
{
    let mut out: Vec<Scalar> = Vec::new();
    let mut i: usize = 0;
    while i < src.len()
        invariant
            i <= src@.len(),
            out@ == src@.subrange(0, i as int),
        decreases src@.len() - i,
    {
        out.push(src[i]);
        proof {
            assert(src@.subrange(0, i as int).push(src@[i as int]) =~= src@.subrange(
                0,
                i as int + 1,
            ));
        }
        i += 1;
    }
    proof {
        assert(src@.subrange(0, src@.len() as int) =~= src@);
    }
    out
}

/// Copies a vector of flags.
fn copy_flags(src: &Vec<bool>) -> (out: Vec<bool>)
    ensures
        out@ == src@,
{
    let mut out: Vec<bool> = Vec::new();
    let mut i: usize = 0;
    while i < src.len()
        invariant
            i <= src@.len(),
            out@ == src@.subrange(0, i as int),
        decreases src@.len() - i,
    {
        out.push(src[i]);
        proof {
            assert(src@.subrange(0, i as int).push(src@[i as int]) =~= src@.subrange(
                0,
                i as int + 1,
            ));
        }
        i += 1;
    }
    proof {
        assert(src@.subrange(0, src@.len() as int) =~= src@);
    }
    out
}

impl Model {
    /// Assembles the current state into the flat arrays a solving engine
    /// loads. A pure read: the model is borrowed, not consumed, and can be
    /// assembled again; any two assemblies of the same state agree (see
    /// [`lemma_assembly_deterministic`]). The row count and the total entry
    /// count must fit the engine's 32-bit index arrays.
    pub fn to_raw(&self) -> (raw: RawProblem)
        requires
            self@.wf(),
            self@.num_rows <= i32::MAX as int,
            flat_entries(self@.weights).len() <= i32::MAX as int,
        ensures
            is_assembly(self@, raw),
    {
        let ghost ws = self@.weights;
        let ncols = self.num_cols as usize;
        let mut start: Vec<i32> = Vec::new();
        let mut index: Vec<i32> = Vec::new();
        let mut value: Vec<Scalar> = Vec::new();
        start.push(0);
        let mut c: usize = 0;
        while c < ncols
            invariant
                self@.wf(),
                self@.num_rows <= i32::MAX as int,
                flat_entries(self@.weights).len() <= i32::MAX as int,
                ws == self@.weights,
                ncols == self@.num_cols,
                c <= ncols,
                start@.len() == c + 1,
                forall|j: int|
                    0 <= j <= c ==> (#[trigger] start@[j]) as int == flat_prefix(
                        ws,
                        j,
                    ).len() as int,
                index@.len() == flat_prefix(ws, c as int).len(),
                value@.len() == index@.len(),
                forall|k: int|
                    0 <= k < index@.len() ==> (#[trigger] index@[k]) as int == flat_entries(
                        ws,
                    )[k].row as int,
                forall|k: int|
                    0 <= k < value@.len() ==> (#[trigger] value@[k]) == flat_entries(
                        ws,
                    )[k].weight,
            decreases ncols - c,
        {
            let column = &self.weights[c];
            proof {
                assert(column@ == ws[c as int]);
                lemma_flat_column_slice(ws, c as int);
            }
            let mut k: usize = 0;
            while k < column.len()
                invariant
                    self@.wf(),
                    self@.num_rows <= i32::MAX as int,
                    flat_entries(self@.weights).len() <= i32::MAX as int,
                    ws == self@.weights,
                    ncols == self@.num_cols,
                    c < ncols,
                    column@ == ws[c as int],
                    k <= column@.len(),
                    index@.len() == flat_prefix(ws, c as int).len() + k,
                    value@.len() == index@.len(),
                    forall|t: int|
                        0 <= t < index@.len() ==> (#[trigger] index@[t]) as int == flat_entries(
                            ws,
                        )[t].row as int,
                    forall|t: int|
                        0 <= t < value@.len() ==> (#[trigger] value@[t]) == flat_entries(
                            ws,
                        )[t].weight,
                decreases column@.len() - k,
            {
                proof {
                    lemma_flat_column_slice(ws, c as int);
                    assert(flat_entries(ws).subrange(
                        flat_prefix(ws, c as int).len() as int,
                        flat_prefix(ws, c as int + 1).len() as int,
                    )[k as int] == ws[c as int][k as int]);
                    assert(flat_entries(ws)[flat_prefix(ws, c as int).len() + k] == ws[
                        c as int
                    ][k as int]);
                    assert(entries_wf(ws[c as int], self@.num_rows));
                    assert(ws[c as int][k as int].row < self@.num_rows);
                }
                index.push(column[k].row as i32);
                value.push(column[k].weight);
                k += 1;
            }
            proof {
                lemma_flat_column_slice(ws, c as int);
                lemma_flat_prefix_extends(ws, c as int + 1, ws.len() as int);
                assert(flat_prefix(ws, c as int + 1).len() <= flat_entries(ws).len());
                assert(index@.len() <= i32::MAX as int);
            }
            start.push(index.len() as i32);
            c += 1;
        }
        proof {
            assert(flat_entries(ws) == flat_prefix(ws, ncols as int));
        }
        let raw = RawProblem {
            num_cols: ncols,
            num_rows: self.num_rows as usize,
            start,
            index,
            value,
            col_lower: copy_scalars(&self.col_lower),
            col_upper: copy_scalars(&self.col_upper),
            obj_coefficients: copy_scalars(&self.obj_coefficients),
            row_lower: copy_scalars(&self.row_lower),
            row_upper: copy_scalars(&self.row_upper),
            is_integer: copy_flags(&self.is_integer),
            sense: self.sense,
        };
        raw
    }
}

/// Sparsity canonicalization: after a weight is set and the same position is
/// then set to zero, the column stores nothing for that row; after a nonzero
/// weight is set, the lookup yields exactly that weight.
pub proof fn lemma_weight_canonicalization(
    v: ModelView,
    col: int,
    row: u32,
    w: Scalar,
    z: Scalar,
)
    requires
        v.wf(),
        0 <= col < v.num_cols,
        (row as int) < v.num_rows,
        z.spec_is_zero(),
    ensures
        weight_of(v.with_weight(col, row, w).with_weight(col, row, z).weights[col], row)
            == None::<Scalar>,
        !w.spec_is_zero() ==> weight_of(v.with_weight(col, row, w).weights[col], row) == Some(w),
{
    let s = v.weights[col];
    lemma_set_entry_wf(s, row, w, v.num_rows);
    lemma_set_entry_lookup(s, row, w, row);
    assert(v.with_weight(col, row, w).weights[col] == set_entry(s, row, w));
    lemma_set_entry_lookup(set_entry(s, row, w), row, z, row);
    assert(v.with_weight(col, row, w).with_weight(col, row, z).weights[col] == set_entry(
        set_entry(s, row, w),
        row,
        z,
    ));
}

/// Idempotence: setting the same weight twice leaves the model exactly as
/// setting it once does.
pub proof fn lemma_set_weight_idempotent(v: ModelView, col: int, row: u32, w: Scalar)
    requires
        v.wf(),
        0 <= col < v.num_cols,
    ensures
        v.with_weight(col, row, w).with_weight(col, row, w) == v.with_weight(col, row, w),
{
    lemma_set_entry_idempotent(v.weights[col], row, w);
    let once = v.with_weight(col, row, w);
    assert(once.weights[col] == set_entry(v.weights[col], row, w));
    assert(once.with_weight(col, row, w).weights =~= once.weights);
    assert(once.with_weight(col, row, w) =~= once);
}

/// Monotonic handle validity: the handle minted by the next `add_col` is the
/// current column count, and appending strictly grows the count, so handles
/// of either kind strictly increase in creation order.
pub proof fn lemma_handles_strictly_increase(v: ModelView)
    ensures
        v.num_cols < v.with_new_col().num_cols,
        v.num_rows < v.with_new_row().num_rows,
{
}

/// Assembly is a function of the model alone: two assemblies of the same
/// model agree on every array and attribute.
pub proof fn lemma_assembly_deterministic(v: ModelView, a: RawProblem, b: RawProblem)
    requires
        is_assembly(v, a),
        is_assembly(v, b),
    ensures
        a.num_cols == b.num_cols,
        a.num_rows == b.num_rows,
        a.start@ == b.start@,
        a.index@ == b.index@,
        a.value@ == b.value@,
        a.col_lower@ == b.col_lower@,
        a.col_upper@ == b.col_upper@,
        a.obj_coefficients@ == b.obj_coefficients@,
        a.row_lower@ == b.row_lower@,
        a.row_upper@ == b.row_upper@,
        a.is_integer@ == b.is_integer@,
        a.sense == b.sense,
{
    assert forall|c: int| 0 <= c < a.start@.len() implies a.start@[c] == b.start@[c] by {
        assert(a.start@[c] as int == flat_prefix(v.weights, c).len() as int);
        assert(b.start@[c] as int == flat_prefix(v.weights, c).len() as int);
    }
    assert(a.start@ =~= b.start@);
    assert forall|k: int| 0 <= k < a.index@.len() implies a.index@[k] == b.index@[k] by {
        assert(a.index@[k] as int == flat_entries(v.weights)[k].row as int);
        assert(b.index@[k] as int == flat_entries(v.weights)[k].row as int);
    }
    assert(a.index@ =~= b.index@);
    assert(a.value@ =~= b.value@);
}

/// CSC assembly correctness for one column: in an assembled problem, column
/// `c`'s entries occupy `index[start[c]..start[c + 1]]` and
/// `value[start[c]..start[c + 1]]`, listing exactly the column's stored
/// entries in ascending row order.
pub proof fn lemma_assembly_column_slice(v: ModelView, raw: RawProblem, c: int)
    requires
        v.wf(),
        is_assembly(v, raw),
        0 <= c < v.num_cols,
    ensures
        0 <= raw.start@[c] as int <= raw.start@[c + 1] as int <= raw.index@.len(),
        raw.index@.subrange(raw.start@[c] as int, raw.start@[c + 1] as int).map_values(
            |x: i32| x as int,
        ) == v.weights[c].map_values(|e: Entry| e.row as int),
        raw.value@.subrange(raw.start@[c] as int, raw.start@[c + 1] as int) == v.weights[
            c
        ].map_values(|e: Entry| e.weight),
{
    lemma_flat_column_slice(v.weights, c);
    lemma_flat_prefix_extends(v.weights, c + 1, v.weights.len() as int);
    let lc = raw.start@[c] as int;
    let lc1 = raw.start@[c + 1] as int;
    assert(lc == flat_prefix(v.weights, c).len() as int);
    assert(lc1 == flat_prefix(v.weights, c + 1).len() as int);
    let slice = flat_entries(v.weights).subrange(lc, lc1);
    assert(slice == v.weights[c]);
    assert forall|k: int| 0 <= k < lc1 - lc implies (#[trigger] raw.index@.subrange(lc, lc1)[
        k
    ]) as int == v.weights[c][k].row as int by {
        assert(raw.index@.subrange(lc, lc1)[k] == raw.index@[lc + k]);
        assert(raw.index@[lc + k] as int == flat_entries(v.weights)[lc + k].row as int);
        assert(flat_entries(v.weights)[lc + k] == slice[k]);
    }
    assert forall|k: int| 0 <= k < lc1 - lc implies (#[trigger] raw.value@.subrange(lc, lc1)[k])
        == v.weights[c][k].weight by {
        assert(raw.value@.subrange(lc, lc1)[k] == raw.value@[lc + k]);
        assert(raw.value@[lc + k] == flat_entries(v.weights)[lc + k].weight);
        assert(flat_entries(v.weights)[lc + k] == slice[k]);
    }
    assert(raw.index@.subrange(lc, lc1).map_values(|x: i32| x as int) =~= v.weights[c].map_values(
        |e: Entry| e.row as int,
    ));
    assert(raw.value@.subrange(lc, lc1) =~= v.weights[c].map_values(|e: Entry| e.weight));
}

} // verus!
