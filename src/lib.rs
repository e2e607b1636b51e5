//! Schema discovery over newline-delimited JSON: for a fixed list of field
//! names, find the distinct value shapes that each field takes across a
//! stream of records.

pub mod category;
pub mod classify;
pub mod json;
pub mod laws;
pub mod numeric;
pub mod pipeline;
pub mod summary;
