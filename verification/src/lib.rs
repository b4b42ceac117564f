//! The turn engine of a conversational harness: the event log and its
//! projections, the decisions of the turn loop, the guards in front of every
//! action, the reply interceptors and the reference memory store.
//!
//! Every type that carries text has a ghost twin (`Event` has `EventV`), which
//! `deep_view` produces and which all contracts speak of.

pub mod contexts;
pub mod dispatch;
pub mod echo;
pub mod eval;
pub mod events;
pub mod facts;
pub mod ground;
pub mod guards;
pub mod json;
pub mod ranking;
pub mod replay;
pub mod router;
pub mod script;
pub mod state;
pub mod store;
pub mod text;
pub mod trace;
pub mod turn;
pub mod types;
pub mod unicode;
