//! Allocation accounting: per-thread and per-call-site bookkeeping for a
//! tracking global allocator, with the reports built from it.

mod backtrace_support;
mod csv;
mod laws;
mod metric;
mod mode;
mod names;
mod size;
mod text;
mod threads;
mod tracker;

pub use backtrace_support::{hash_ips, is_internal_frame, HashedBacktrace};
pub use csv::{csv_round_trip, parse_csv_line, CsvRecord, CSV_HEADER};
pub use laws::{
    allocations_add_up, cross_thread_free, cross_thread_free_in_report, cross_thread_free_lowers_in_use, free_ends_tracking, same_site_shares_record,
};
pub use metric::BacktraceMetric;
pub use mode::BacktraceMode;
pub use names::{group_names, thread_report_by_name};
pub use size::{Size, SizeUnit};
pub use text::{escape_field, escape_round_trip, parse_u64, unescape_field};
pub use threads::{thread_report, ThreadMetric, ThreadReport, ThreadTable, MAX_THREADS};
pub use tracker::{AllocTrack, BacktraceReport, FreeError, SlotError, Tracker};
