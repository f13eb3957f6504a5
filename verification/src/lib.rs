//! A declarative HTTP gateway core: placeholder patterns, interpolation
//! templates, router rules, a content-addressed service graph, and the
//! per-request rule interpreter.

pub mod builder;
pub mod config_types;
pub mod encode;
pub mod httptypes;
pub mod kvlist;
pub mod laws;
pub mod matcher;
pub mod ops;
pub mod parse;
pub mod paths;
pub mod pattern_compile;
pub mod pattern_match;
pub mod pattern_types;
pub mod route;
pub mod router_ctx;
pub mod strutil;
pub mod template;
