//! Dot-path extraction from JSON-shaped text without a parse tree, and the
//! decisions of a spin-then-yield executor for a single task.
//!
//! - [`json`] extracts the value that a path such as `releases.1.v`
//!   addresses, by narrowing the text segment by segment; [`scan`] finds
//!   where a value ends, [`text`] and [`decimal`] hold what both need of
//!   characters and numbers.
//! - [`values`] and [`laws`] state and prove what extraction guarantees.
//! - [`executor`] decides what a polling executor does after each poll.
//! - [`registry`] and [`compact`] read the record of a crate from a
//!   registry's response and render download counts.

pub mod compact;
pub mod decimal;
pub mod executor;
pub mod json;
pub mod laws;
pub mod registry;
pub mod scan;
pub mod text;
pub mod values;

pub use compact::format_number;
pub use json::Json;
pub use registry::CrateInfo;
