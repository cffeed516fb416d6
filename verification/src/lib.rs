//! Structured JSON logging for services: the configuration rules, the shape
//! of each emitted log event, and the text formats they use.
//!
//! Every event carries `timestamp`, `level`, `message`, `service` and
//! `version` at top level; caller fields and span fields are nested under
//! `context`, and trace correlation adds `trace_id` and `span_id`.
pub mod builder;
pub mod config;
pub mod fields;
pub mod layer;
pub mod otel;
pub mod text;
pub mod timestamp;

pub use builder::{builder, try_init, Builder, Environment, Pipeline, Settings};
pub use config::{InitError, LevelFilter};
pub use fields::{FieldMap, FieldValue, JsonVisitor};
pub use layer::{JsonLayer, Level, LogEvent};
