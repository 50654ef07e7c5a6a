//! Small reusable collection utilities.

pub mod collection;
