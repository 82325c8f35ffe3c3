//! Core of a load-generation harness for publish/subscribe relay servers.
//!
//! A run opens a number of client connections at a fixed rate, drives each
//! through a repeated request/response cycle until its keepalive expires or
//! the connection drops, and aggregates what happened.
//!
//! This crate holds every decision of such a run and nothing that waits:
//!
//! - [`stats`]: the two sets of counters and the updates that change them;
//! - [`spawner`]: which connection to launch next, and when to pause;
//! - [`lifecycle`]: the phases of one connection and how its end is classified;
//! - [`request_loop`]: the request cycle on an established connection;
//! - [`reporter`]: the periodic summary and the end of the run;
//! - [`options`]: the configuration of a run;
//! - [`run`]: a model of a whole run, and the laws proved of it;
//! - [`traffic`]: a model of all request loops together, and the laws of the
//!   event statistics.
//!
//! The caller owns the sockets, the timers, the tasks and the lock around the
//! statistics. It reports each thing that happened and carries out the answer.

pub mod error;
pub mod lifecycle;
pub mod options;
pub mod reporter;
pub mod request_loop;
pub mod run;
pub mod spawner;
pub mod stats;
pub mod traffic;
