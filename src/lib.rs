//! Similarity graph over loan-applicant records and its degree histogram.
//!
//! Two applicants are linked when they share an education category or a
//! loan-intent category. The graph keeps only applicants with at least one
//! link; the histogram counts, for each degree, how many of them have it.
pub mod record;
pub mod adjacency;
pub mod histogram;
pub mod points;
pub mod ingest;

pub use record::LoanRecord;
pub use adjacency::LoanGraph;
pub use ingest::parse_record;
pub use points::{degree_points, largest_degree_and_count};
