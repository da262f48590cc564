//! Query synthesis for a one-shot relational table transfer: parsing of
//! compact mapping syntax, projection and join synthesis, destination column
//! lists, cell coercion, and literal value tuples.

pub mod model;
pub mod row;
pub mod synth;
pub mod text;
