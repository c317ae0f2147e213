//! A one-dimensional finite-difference time-domain (Yee cell) field simulator.
//!
//! The engine is generic over the value held in each cell: callers supply the
//! stencil rule and the injection sum, so the update order, the boundaries, the
//! signal timing and the snapshot buffering are proved here for any cell type.

pub mod config;
pub mod field;
pub mod models;
