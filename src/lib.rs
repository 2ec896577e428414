//! Streaming min/mean/max aggregation of `key;value` records.
//!
//! The library holds the byte-level logic of the engine: cutting a stream
//! into records, splitting each record at its delimiter, grouping keys in a
//! hash table under a choice of hash function, ordering the groups byte-wise
//! and laying out the final report.
use vstd::prelude::*;

pub mod axis;
pub mod engine;
pub mod index;
pub mod order;
pub mod record;
pub mod report;
pub mod table;

pub use axis::x_range;
pub use engine::{Aggregator, Iteration, RecordError};
pub use index::HashPolicy;
pub use record::{find_delimiter, record_of, split_record};
pub use report::ReportError;
pub use table::GroupTable;
