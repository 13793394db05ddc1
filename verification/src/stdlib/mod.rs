//! The Boon standard library: the formula book and executable number
//! calls.
pub mod counting;
pub mod formula;
pub mod geometry;
