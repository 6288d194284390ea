//! Tests of the solution wrapper around engine-reported data.

use milp_model::model::Model;
use milp_model::scalar::Scalar;
use milp_model::solution::{RawSolution, Solution, Status};

fn val(x: f64) -> Scalar {
    Scalar { bits: x.to_bits() }
}

fn as_f64(s: Scalar) -> f64 {
    f64::from_bits(s.bits)
}

#[test]
fn solution_col_lookup() {
    // handles from the model key into the engine's column-solution vector;
    // these are the values of the knapsack optimum
    let mut m = Model::new();
    m.add_row();
    let cols = vec![m.add_col(), m.add_col(), m.add_col(), m.add_col(), m.add_col()];
    let reported = RawSolution {
        status: Status::Finished,
        obj_value: val(16.0),
        col_solution: vec![val(1.0), val(0.0), val(0.0), val(1.0), val(1.0)],
    };
    let sol = Solution::new(reported);
    assert_eq!(Status::Finished, sol.status());
    assert_eq!(16.0, as_f64(sol.obj_value()));
    assert_eq!(1.0, as_f64(sol.col(cols[0])));
    assert_eq!(0.0, as_f64(sol.col(cols[1])));
    assert_eq!(0.0, as_f64(sol.col(cols[2])));
    assert_eq!(1.0, as_f64(sol.col(cols[3])));
    assert_eq!(1.0, as_f64(sol.col(cols[4])));
}

#[test]
fn solution_raw_passthrough() {
    let reported = RawSolution {
        status: Status::Stopped,
        obj_value: val(-3.5),
        col_solution: vec![val(2.0)],
    };
    let sol = Solution::new(reported.clone());
    assert_eq!(*sol.raw(), reported);
    assert_eq!(sol.raw().status, Status::Stopped);
    assert_eq!(as_f64(sol.raw().obj_value), -3.5);
}

#[test]
fn solution_into_raw_releases_data() {
    let reported = RawSolution {
        status: Status::Abandoned,
        obj_value: val(0.0),
        col_solution: vec![],
    };
    let sol = Solution::new(reported.clone());
    let back = sol.into_raw();
    assert_eq!(back, reported);
}

#[test]
fn handle_indices() {
    let mut m = Model::new();
    let c0 = m.add_col();
    let c1 = m.add_col();
    let r0 = m.add_row();
    assert_eq!(c0.as_usize(), 0);
    assert_eq!(c1.as_usize(), 1);
    assert_eq!(r0.as_usize(), 0);
}
