//! One turn at a time.

pub mod accounting;
pub mod builtins;
pub mod config;
pub mod diagnostics;
pub mod drive;
pub mod effects;
pub mod gate;
pub mod laws;
pub mod legal;
pub mod memory;
pub mod progress;
pub mod prompt;
pub mod reply;
pub mod retrieval;
pub mod routing;
pub mod run;
pub mod specs;
pub mod steer;
pub mod tools;
