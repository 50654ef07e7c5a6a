//! Classification of poker lines (3- or 5-card hands) into ranked
//! combinations, with verified straight, flush, and pairing analysis.

pub mod helper;
pub mod poker;
