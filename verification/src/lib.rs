//! Structured-logging enrichment and formatting for nested execution spans:
//! field inheritance across a span tree, span timing, and rendering of each
//! span transition or event as one newline-delimited JSON record in the
//! Bunyan schema.

pub mod clock;
pub mod filter;
pub mod formatter;
pub mod text;
pub mod timing;
pub mod storage;
pub mod value;

pub use clock::UtcTimestamp;
pub use filter::FilteringMode;
pub use filter::JsonStorageFilter;
pub use formatter::format_event_message;
pub use formatter::format_span_context;
pub use formatter::BunyanFormattingLayer;
pub use formatter::RecordMetadata;
pub use formatter::SkipFieldError;
pub use formatter::Type;
pub use storage::Field;
pub use storage::JsonStorage;
pub use storage::JsonStorageLayer;
pub use timing::SpanTiming;
pub use value::FieldValue;

use vstd::prelude::*;

verus! {

/// The five severity levels a span or event can carry, from least to most severe.
#[derive(Clone, Copy, Debug, PartialEq, Eq, Structural)]
pub enum Level {
    Trace,
    Debug,
    Info,
    Warn,
    Error,
}

impl Level {
    /// The fixed numeric code the Bunyan schema assigns to each severity level.
    pub fn to_bunyan_level(&self) -> (code: u16)
        ensures
            code == self.spec_bunyan_level(),
    {
        match self {
            Level::Error => 50,
            Level::Warn => 40,
            Level::Info => 30,
            Level::Debug => 20,
            Level::Trace => 10,
        }
    }

    pub open spec fn spec_bunyan_level(self) -> u16 {
        match self {
            Level::Error => 50,
            Level::Warn => 40,
            Level::Info => 30,
            Level::Debug => 20,
            Level::Trace => 10,
        }
    }
}

} // verus!
