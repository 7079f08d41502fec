//! Job parameters and file snapshots, with machine-checked contracts.

pub mod params;
pub mod snapshots;
pub mod text;
