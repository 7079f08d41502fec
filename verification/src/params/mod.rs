//! Job parameters: definitions, constraints, values, and how they come together.

pub mod coerce;
pub mod constraints;
pub mod floats;
pub mod json;
pub mod merge;
pub mod paths;
pub mod preprocess;
pub mod readings;
pub mod satisfiable;
pub mod symbols;
pub mod template;
pub mod tighten;
pub mod values;
