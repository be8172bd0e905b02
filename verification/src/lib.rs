//! A pipe-delimited ("markdown") table library: a column-oriented table
//! model, a three-phase parser that builds it from text, and a renderer
//! that writes the model back out with normalized spacing and alignment.

pub mod laws;
pub mod markdown;
pub mod parser;
pub mod round_trip;
pub mod table;
