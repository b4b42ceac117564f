//! The fixed set of tasks that the engine is measured on, with every model a
//! scripted double: six abilities of memory, then three tasks on a desktop.
//!
//! What is graded is what the engine put in front of the models, never what a
//! double said back.

pub mod desk;
pub mod grade;
pub mod report;
pub mod shown;
