//! Visualization of recorded runs: timeline, message sequence, report and
//! replay controls.

pub mod replay;
pub mod report;
pub mod sequence;
pub mod timeline;

pub use replay::{ReplayController, ReplayState};
pub use report::{Report, ReportConfig};
pub use sequence::{SequenceDiagram, SequenceMessage};
pub use timeline::{TaskInfo, Timeline, TimelineBuilder, TimelineEntry};
