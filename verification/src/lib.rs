//! Command execution and live-output broadcast for a small container dashboard.
//!
//! The library holds the rules of the dashboard: which commands a task runs and
//! in which order, how the output of a running command is cut into lines, which
//! events are published for it, and which of the events on the shared bus are
//! forwarded to an observer. Running processes, reading files and serving HTTP
//! are left to the caller, which reports what happened and is told what to do
//! next.

pub mod args;
pub mod bus;
pub mod command;
pub mod container;
pub mod error;
pub mod image;
pub mod lines;
pub mod listing;
pub mod model;
pub mod recipe;
pub mod routes;
pub mod runner;
pub mod session;
pub mod text;
pub mod trace;
