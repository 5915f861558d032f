//! Command-line options, results and the text the commands print.

pub mod analysis_text;
pub mod analyze;
pub mod explore;
pub mod fault_spec;
pub mod inject;
pub mod junit;
pub mod output;
pub mod replay;
pub mod run;

pub use inject::{parse_duration, parse_duration_range, InjectArgs};
pub use junit::{chrono_timestamp, iso_timestamp, xml_escape, Failure};
pub use output::{TimeScale, TraceEntry};
pub use replay::{NetworkEvent, NetworkEventType, ReplayResult, ReplayState, TaskState};
pub use run::{RunArgs, RunConfig, RunResult, StrategyArg};
