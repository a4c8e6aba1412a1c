//! A command-line time tracker's core logic: a task lifecycle state machine
//! with elapsed-time accounting, a period-range calculus over calendar dates,
//! report filtering and aggregation, record amendment, and the request/response
//! protocol spoken with external upload plugins.
//!
//! The state file and the record file are shared mutable files across process
//! invocations with no advisory locking: two concurrent invocations can race
//! and silently overwrite each other's state. That is a known limit of the
//! design, accepted here; callers wanting hardening must lock externally.
pub mod amend;
pub mod date;
pub mod duration;
pub mod json;
pub mod numbers;
pub mod period;
pub mod plugin;
pub mod records;
pub mod report;
pub mod state;
pub mod text;
pub mod wire;

pub use amend::amend;
pub use amend::contains_substring;
pub use amend::AmendChanges;
pub use amend::AmendError;
pub use amend::AmendOutcome;
pub use date::format_date;
pub use date::parse_date;
pub use date::weekday_short;
pub use date::Date;
pub use duration::clamp_nonneg;
pub use duration::fmt_duration;
pub use duration::fmt_hms_ms;
pub use period::period_name;
pub use period::period_range;
pub use period::period_title;
pub use period::Period;
pub use plugin::interpret_plugin_result;
pub use plugin::parse_plugin_response;
pub use plugin::plugin_display_name;
pub use plugin::select_plugin;
pub use plugin::PluginOutput;
pub use plugin::PluginRunError;
pub use plugin::PluginSelectError;
pub use records::parse_i64;
pub use records::record_from_fields;
pub use records::record_to_fields;
pub use records::Record;
pub use records::RecordParseError;
pub use report::filter_records;
pub use report::fmt_record_for_period;
pub use report::sort_records;
pub use report::total_duration;
pub use state::pause;
pub use state::resume;
pub use state::start;
pub use state::status;
pub use state::stop;
pub use state::State;
pub use state::TransitionError;
pub use text::emph;
pub use wire::serialize_request;
