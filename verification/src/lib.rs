//! Verified core of a one-shot huge-page usage reporter.
//!
//! The crate parses the kernel's huge-page pool directory data and
//! per-process memory-map descriptor text into typed records, filters the
//! mappings that are backed by huge pages, and renders the final textual
//! report. All I/O stays with the caller: every function here maps plain
//! values to plain values.

pub mod num;
pub mod pool;
pub mod process;
pub mod render;
pub mod smaps;
pub mod text;

pub use num::parse_u64_dec;
pub use pool::PoolEntry;
pub use pool::PoolError;
pub use pool::PoolSource;
pub use pool::parse_count;
pub use pool::pool_entries_from_sources;
pub use pool::pool_entry_from_source;
pub use pool::size_from_dir_name;
pub use process::HUGE_PAGE_THRESHOLD_KB;
pub use process::ProcessHugepageReport;
pub use process::aggregate_process;
pub use process::build_process_report;
pub use process::filter_huge_mappings;
pub use process::parse_pid;
pub use process::process_name_from_status;
pub use render::construct_str;
pub use render::construct_system_str;
pub use render::format_process_str;
pub use render::pool_summary;
pub use render::size_label;
pub use smaps::MappingEntry;
pub use smaps::parse_smap_entries;
