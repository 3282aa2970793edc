//! Core of a personal work-time tracker: a punched-in work `Day` made of
//! ordered task blocks and break markers, its legal state transitions and
//! time arithmetic, and the multi-day aggregation used for range summaries.

pub mod aggregate_day;
pub mod components;
pub mod config;
pub mod convert_input;
pub mod day;
pub mod generate_random_string;
pub mod human_readable;
pub mod interval;
pub mod misc;
pub mod render_list_for_user;
pub mod text;
pub mod work_summary;

pub use aggregate_day::AggregateDay;
pub use components::Note;
pub use components::TimeBlock;
pub use config::Config;
pub use day::Day;
pub use day::DayError;
pub use interval::Dt;
pub use interval::Interval;
pub use work_summary::WorkSummary;
