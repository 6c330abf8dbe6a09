//! dead_poets — find unused gettext keys across a polyglot codebase.

pub mod text;
pub mod decode;
pub mod guard;
pub mod po;
pub mod extract;
pub mod liveness;
pub mod syntax;
pub mod config;
pub mod pattern;
pub mod order;
pub mod audit;
pub mod report;
pub mod scan;
pub mod walk;
pub mod engine;
