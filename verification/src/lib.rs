//! A declarative HTTP load-testing engine: plans are expanded into a flat list of
//! steps, templates are resolved against a run context, and the decisions of a run
//! (pacing, scheduling, verdicts) are computed here for the program that performs them.

pub mod backend;
pub mod benchmark;
pub mod checker;
pub mod config;
pub mod error;
pub mod interpolator;
pub mod node;
pub mod service;
pub mod tags;
pub mod text;
pub mod value;
