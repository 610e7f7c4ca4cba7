//! Verified cleaning and aggregation engine for flood-control contract
//! records.
//!
//! Raw tabular rows are validated into [`model::Project`] entities (year
//! window, date parsing through a trusted calendar wrapper, positive
//! fixed-point money amounts, coordinate fallback per province), and three
//! aggregate tables plus a global digest are derived from the validated set:
//! regional efficiency, contractor reliability, and year-over-year
//! cost-overrun trends.
//!
//! All quantities with two decimal places (money, percentages, scores) are
//! held as integers scaled by 100; divisions round half away from zero, so
//! every derived figure is an exact mathematical function of the input rows.
pub mod arith;
pub mod contractor;
pub mod dates;
pub mod group;
pub mod laws;
pub mod model;
pub mod parse;
pub mod rank;
pub mod regional;
pub mod stats;
pub mod summary;
pub mod text;
pub mod trend;
pub mod validate;
