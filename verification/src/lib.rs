//! The decisions of a controller for `Echo` objects: what the watch means for the store and the
//! work queue, which key a worker gets and when, what one reconciliation attempt does to an
//! object, and what follows each attempt. The caller performs the requests and the waiting;
//! nothing here touches the cluster.

pub mod action;
pub mod attempt;
pub mod document;
pub mod echo;
pub mod error;
pub mod finalizer;
pub mod lifecycle;
pub mod queue;
pub mod resource;
pub mod runner;
pub mod schedule;
pub mod store;
pub mod watch;

pub use crate::resource::{Echo, EchoSpec, EchoStatus};
