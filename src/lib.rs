//! An in-process collector of spans and events: producers push lifecycle
//! notifications onto a bounded queue, and a single consumer drains it,
//! pairs span enters with exits into timed intervals, keeps a bounded
//! history of events, and filters that history by level and target glob.

pub mod collector;
pub mod filter;
pub mod history;
pub mod level;
pub mod notification;
pub mod spans;
pub mod time;
pub mod transport;

pub use globset;

pub use collector::{EguiTracing, SpanError, DEFAULT_CAPACITY};
pub use filter::{passes, FilterError, State, TargetFilter, TargetMatcher};
pub use history::History;
pub use level::{Level, LevelFilter};
pub use notification::{
    ClosedSpan, CollectedEvent, CollectedTracings, EnterSpan, ExitSpan, MessageVisitor, NewSpan,
};
pub use spans::{FinishedSpan, OpenSpan, SpanStage};
pub use time::DurationExt;
pub use transport::TransportQueue;
