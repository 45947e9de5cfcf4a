//! A model registry, a cache of loaded models, chat messages and tool-call
//! parsing for a harness around a local inference engine.
pub mod error;
pub mod ffi;
pub mod harness;
pub mod json;
pub mod message;
pub mod model;
pub mod registry;
pub mod scan;
pub mod text;
pub mod tool;
pub mod tool_attr;
