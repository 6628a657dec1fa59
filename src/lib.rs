//! Host/engine framework for code linting: the NDJSON envelope protocol,
//! configuration merging, the ruleset runtime with annotation masking and
//! line mapping, and the decision logic of engine servers and engine hosts.

pub mod annotation;
pub mod capabilities;
pub mod config;
pub mod diagnostic;
pub mod engine;
pub mod json;
pub mod keyed;
pub mod linter;
pub mod position;
pub mod protocol;
pub mod ruleset;
pub mod server;
pub mod text;
pub mod toml_value;
