//! Bucketed counter: a histogram over one numeric column of a tabular
//! dataset. Values are classified into five fixed, contiguous ranges,
//! counted, and reported as proportional ASCII bars.

pub mod histogram;
pub mod parse;
pub mod ranges;
pub mod render;
pub mod table;
