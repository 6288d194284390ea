//! Tests of the model builder and its CSC assembly.

use milp_model::model::{Model, RawProblem, Sense};
use milp_model::scalar::{
    Scalar, NEG_INFINITY_BITS, NEG_ZERO_BITS, ONE_BITS, POS_INFINITY_BITS, POS_ZERO_BITS,
};

fn val(x: f64) -> Scalar {
    Scalar { bits: x.to_bits() }
}

fn as_f64(s: Scalar) -> f64 {
    f64::from_bits(s.bits)
}

#[test]
fn empty_model_assembles_degenerate() {
    let m = Model::new();
    let raw = m.to_raw();
    assert_eq!(raw.num_cols, 0);
    assert_eq!(raw.num_rows, 0);
    assert_eq!(raw.start, vec![0]);
    assert!(raw.index.is_empty());
    assert!(raw.value.is_empty());
    assert!(raw.col_lower.is_empty());
    assert!(raw.row_lower.is_empty());
    assert_eq!(raw.sense, Sense::Minimize);
}

#[test]
fn add_col_defaults() {
    let mut m = Model::new();
    let c = m.add_col();
    assert_eq!(c.as_usize(), 0);
    let raw = m.to_raw();
    assert_eq!(raw.num_cols, 1);
    assert_eq!(raw.col_lower, vec![Scalar { bits: POS_ZERO_BITS }]);
    assert_eq!(raw.col_upper, vec![Scalar { bits: POS_INFINITY_BITS }]);
    assert_eq!(raw.obj_coefficients, vec![Scalar { bits: POS_ZERO_BITS }]);
    assert_eq!(raw.is_integer, vec![false]);
    assert_eq!(raw.start, vec![0, 0]);
}

#[test]
fn add_row_defaults() {
    let mut m = Model::new();
    let r = m.add_row();
    assert_eq!(r.as_usize(), 0);
    let raw = m.to_raw();
    assert_eq!(raw.num_rows, 1);
    assert_eq!(raw.row_lower, vec![Scalar { bits: NEG_INFINITY_BITS }]);
    assert_eq!(raw.row_upper, vec![Scalar { bits: POS_INFINITY_BITS }]);
}

#[test]
fn handles_strictly_increase() {
    let mut m = Model::new();
    let c0 = m.add_col();
    let c1 = m.add_col();
    let c2 = m.add_col();
    assert!(c0.as_usize() < c1.as_usize());
    assert!(c1.as_usize() < c2.as_usize());
    let r0 = m.add_row();
    let r1 = m.add_row();
    assert!(r0.as_usize() < r1.as_usize());
}

#[test]
fn vector_lengths_track_counts() {
    let mut m = Model::new();
    let r = m.add_row();
    let c = m.add_col();
    m.add_col();
    m.set_weight(r, c, val(3.5));
    m.set_binary(c);
    m.set_row_upper(r, val(7.0));
    let raw = m.to_raw();
    assert_eq!(raw.num_cols, 2);
    assert_eq!(raw.num_rows, 1);
    assert_eq!(raw.col_lower.len(), 2);
    assert_eq!(raw.col_upper.len(), 2);
    assert_eq!(raw.obj_coefficients.len(), 2);
    assert_eq!(raw.is_integer.len(), 2);
    assert_eq!(raw.row_lower.len(), 1);
    assert_eq!(raw.row_upper.len(), 1);
    assert_eq!(raw.start.len(), 3);
}

#[test]
fn set_weight_then_clear_removes_entry() {
    let mut m = Model::new();
    let r = m.add_row();
    let c = m.add_col();
    m.set_weight(r, c, val(4.25));
    m.set_weight(r, c, val(0.0));
    let raw = m.to_raw();
    assert_eq!(raw.start, vec![0, 0]);
    assert!(raw.index.is_empty());
    assert!(raw.value.is_empty());
}

#[test]
fn set_weight_nonzero_lookup() {
    let mut m = Model::new();
    let r = m.add_row();
    let c = m.add_col();
    m.set_weight(r, c, val(4.25));
    let raw = m.to_raw();
    assert_eq!(raw.start, vec![0, 1]);
    assert_eq!(raw.index, vec![0]);
    assert_eq!(as_f64(raw.value[0]), 4.25);
}

#[test]
fn negative_zero_also_clears() {
    let mut m = Model::new();
    let r = m.add_row();
    let c = m.add_col();
    m.set_weight(r, c, val(4.25));
    m.set_weight(r, c, Scalar { bits: NEG_ZERO_BITS });
    let raw = m.to_raw();
    assert_eq!(raw.start, vec![0, 0]);
    assert!(raw.index.is_empty());
}

#[test]
fn set_weight_overwrites() {
    let mut m = Model::new();
    let r = m.add_row();
    let c = m.add_col();
    m.set_weight(r, c, val(4.25));
    m.set_weight(r, c, val(-1.5));
    let raw = m.to_raw();
    assert_eq!(raw.start, vec![0, 1]);
    assert_eq!(raw.index, vec![0]);
    assert_eq!(as_f64(raw.value[0]), -1.5);
}

#[test]
fn set_weight_idempotent() {
    let mut m = Model::new();
    let r = m.add_row();
    let c = m.add_col();
    m.set_weight(r, c, val(2.5));
    let once = m.to_raw();
    m.set_weight(r, c, val(2.5));
    let twice = m.to_raw();
    assert_eq!(once, twice);
}

#[test]
fn weights_assemble_in_ascending_row_order() {
    let mut m = Model::new();
    let r0 = m.add_row();
    let r1 = m.add_row();
    let r2 = m.add_row();
    let c = m.add_col();
    m.set_weight(r2, c, val(3.0));
    m.set_weight(r0, c, val(1.0));
    m.set_weight(r1, c, val(2.0));
    let raw = m.to_raw();
    assert_eq!(raw.start, vec![0, 3]);
    assert_eq!(raw.index, vec![0, 1, 2]);
    assert_eq!(as_f64(raw.value[0]), 1.0);
    assert_eq!(as_f64(raw.value[1]), 2.0);
    assert_eq!(as_f64(raw.value[2]), 3.0);
}

#[test]
fn set_binary_forces_bounds() {
    let mut m = Model::new();
    let c = m.add_col();
    m.set_col_lower(c, val(-5.0));
    m.set_col_upper(c, val(99.0));
    m.set_binary(c);
    let raw = m.to_raw();
    assert_eq!(raw.is_integer, vec![true]);
    assert_eq!(raw.col_lower, vec![Scalar { bits: POS_ZERO_BITS }]);
    assert_eq!(raw.col_upper, vec![Scalar { bits: ONE_BITS }]);
}

#[test]
fn integrality_last_write_wins() {
    let mut m = Model::new();
    let c = m.add_col();
    m.set_integer(c);
    assert_eq!(m.to_raw().is_integer, vec![true]);
    m.set_continuous(c);
    assert_eq!(m.to_raw().is_integer, vec![false]);
    m.set_integer(c);
    assert_eq!(m.to_raw().is_integer, vec![true]);
}

#[test]
fn bound_setters_overwrite() {
    let mut m = Model::new();
    let r = m.add_row();
    let c = m.add_col();
    m.set_col_lower(c, val(-2.0));
    m.set_col_upper(c, val(8.0));
    m.set_obj_coeff(c, val(1.25));
    m.set_row_lower(r, val(-3.0));
    m.set_row_upper(r, val(6.0));
    let raw = m.to_raw();
    assert_eq!(as_f64(raw.col_lower[0]), -2.0);
    assert_eq!(as_f64(raw.col_upper[0]), 8.0);
    assert_eq!(as_f64(raw.obj_coefficients[0]), 1.25);
    assert_eq!(as_f64(raw.row_lower[0]), -3.0);
    assert_eq!(as_f64(raw.row_upper[0]), 6.0);
}

#[test]
fn obj_sense_is_carried() {
    let mut m = Model::new();
    assert_eq!(m.to_raw().sense, Sense::Minimize);
    m.set_obj_sense(Sense::Maximize);
    assert_eq!(m.to_raw().sense, Sense::Maximize);
    m.set_obj_sense(Sense::Minimize);
    assert_eq!(m.to_raw().sense, Sense::Minimize);
}

#[test]
fn csc_assembly_two_columns() {
    // columns with weight sets {} and {row0: 2}
    let mut m = Model::new();
    let r0 = m.add_row();
    let _c0 = m.add_col();
    let c1 = m.add_col();
    m.set_weight(r0, c1, val(2.0));
    let raw = m.to_raw();
    assert_eq!(raw.start, vec![0, 0, 1]);
    assert_eq!(raw.index, vec![r0.as_usize() as i32]);
    assert_eq!(raw.value.len(), 1);
    assert_eq!(as_f64(raw.value[0]), 2.0);
}

#[test]
fn csc_assembly_cumulative_starts() {
    let mut m = Model::new();
    let r0 = m.add_row();
    let r1 = m.add_row();
    let c0 = m.add_col();
    let c1 = m.add_col();
    m.set_weight(r1, c0, val(-4.0));
    m.set_weight(r0, c0, val(3.0));
    m.set_weight(r1, c1, val(7.5));
    let raw = m.to_raw();
    assert_eq!(raw.start, vec![0, 2, 3]);
    assert_eq!(raw.index, vec![0, 1, 1]);
    assert_eq!(as_f64(raw.value[0]), 3.0);
    assert_eq!(as_f64(raw.value[1]), -4.0);
    assert_eq!(as_f64(raw.value[2]), 7.5);
}

#[test]
fn assembly_is_repeatable() {
    let mut m = Model::new();
    let r = m.add_row();
    m.set_row_upper(r, val(10.0));
    let c0 = m.add_col();
    let c1 = m.add_col();
    m.set_binary(c0);
    m.set_weight(r, c0, val(2.0));
    m.set_weight(r, c1, val(8.0));
    m.set_obj_coeff(c0, val(5.0));
    m.set_obj_sense(Sense::Maximize);
    let first: RawProblem = m.to_raw();
    let second: RawProblem = m.to_raw();
    assert_eq!(first, second);
}

#[test]
fn default_model_is_empty() {
    let m = Model::default();
    let raw = m.to_raw();
    assert_eq!(raw.num_cols, 0);
    assert_eq!(raw.num_rows, 0);
    assert_eq!(raw.start, vec![0]);
    assert_eq!(raw.sense, Sense::Minimize);
}

#[test]
fn knapsack_assembly() {
    // the 0/1 knapsack model: one capacity row, five binary columns
    let mut m = Model::new();
    let row = m.add_row();
    m.set_row_upper(row, val(10.0));
    let cols = vec![m.add_col(), m.add_col(), m.add_col(), m.add_col(), m.add_col()];
    for &c in &cols {
        m.set_binary(c);
    }
    let weights = [2.0, 8.0, 4.0, 2.0, 5.0];
    let objs = [5.0, 3.0, 2.0, 7.0, 4.0];
    for (i, &c) in cols.iter().enumerate() {
        m.set_weight(row, c, val(weights[i]));
        m.set_obj_coeff(c, val(objs[i]));
    }
    m.set_obj_sense(Sense::Maximize);

    let raw = m.to_raw();
    assert_eq!(raw.num_cols, 5);
    assert_eq!(raw.num_rows, 1);
    assert_eq!(raw.start, vec![0, 1, 2, 3, 4, 5]);
    assert_eq!(raw.index, vec![0, 0, 0, 0, 0]);
    for i in 0..5 {
        assert_eq!(as_f64(raw.value[i]), weights[i]);
        assert_eq!(as_f64(raw.obj_coefficients[i]), objs[i]);
        assert!(raw.is_integer[i]);
        assert_eq!(as_f64(raw.col_lower[i]), 0.0);
        assert_eq!(as_f64(raw.col_upper[i]), 1.0);
    }
    assert_eq!(as_f64(raw.row_upper[0]), 10.0);
    assert_eq!(raw.sense, Sense::Maximize);
}
