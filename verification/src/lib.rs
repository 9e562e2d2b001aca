//! Parser and aggregator for free-form plain-text daily work logs.
//!
//! A log is a sequence of lines such as `7:30-8 someproject`, each giving a
//! clock-time range on an ambiguous 12-hour clock and a billing-code label,
//! optionally followed by `- note` lines.  The library locates the tracking
//! block inside arbitrary surrounding text, parses it into entries, checks
//! it for chronological anomalies, and aggregates total working time, dead
//! time between entries, and name-sorted per-project summaries.
//!
//! Every public function carries a contract that pins its result to a
//! specification-level model of the same pipeline, and `laws` proves the
//! properties that relate several functions, such as the `H:MM` formatting
//! round trip and the irrelevance of header and footer text around the
//! tracking block.

pub mod format;
pub mod laws;
pub mod parser;
pub mod project_summary;
pub mod text;
pub mod time;
pub mod time_entry;
pub mod time_tracking_data;

pub use format::format_time;
pub use format::format_time_option;
pub use format::generate_sample_output;
pub use parser::parse_time_tracking_data;
pub use project_summary::ProjectSummary;
pub use time::Hour;
pub use time::Minute;
pub use time::Time;
pub use time_entry::TimeEntry;
pub use time_tracking_data::TimeTrackingData;
