//! A typed builder for mixed-integer linear programs.
//!
//! A [`model::Model`] accumulates decision variables (columns), constraints
//! (rows), bounds, objective coefficients and integrality flags under opaque
//! handles, and assembles the problem on demand into the compressed
//! sparse-column (CSC) arrays that a numerical solving engine loads. The
//! engine itself is an external collaborator: this crate produces the arrays
//! it consumes and wraps the values it reports back.

pub mod handles;
pub mod model;
pub mod scalar;
pub mod solution;
pub mod sparse;
