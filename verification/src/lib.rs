//! A verified core for a DAG of feature-processing steps: a validator for
//! declared graphs, a coordinator that routes value messages between steps,
//! and the stateful step kinds (fan-in join, batch pooler, sinks) with
//! proved semantics. I/O, timers and numeric leaf work live outside.

pub mod config;
pub mod coordinator;
pub mod graph_visualizer;
pub mod messages;
pub mod step;
pub mod steps;
pub mod validator;
