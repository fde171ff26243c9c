//! The engine of a coding agent: sessions and their turns, the two wire formats
//! of model services, the tools that a model can call and the rules by which
//! their calls are run, asked about or refused.
//!
//! Everything here computes on plain values. Files, processes, the network, the
//! clock and the database belong to the program around the library, which hands
//! over what it has read and does what it is told.

use vstd::prelude::*;

pub mod agent;
pub mod chars;
pub mod command;
pub mod compact;
pub mod config;
pub mod diff;
pub mod edit;
pub mod effect;
pub mod fetch;
pub mod files;
pub mod gate;
pub mod git;
pub mod json;
pub mod lossy;
pub mod manager;
pub mod media;
pub mod mock;
pub mod models_registry;
pub mod order;
pub mod paths;
pub mod patterns;
pub mod permissions;
pub mod probe;
pub mod project;
pub mod prompt;
pub mod protocol;
pub mod provider;
pub mod ranking;
pub mod replay;
pub mod rollout;
pub mod schemas;
pub mod search;
pub mod session;
pub mod shell;
pub mod state;
pub mod store;
pub mod stream;
pub mod subagent;
pub mod task;
pub mod text;
pub mod title;
pub mod tool;
pub mod tracker;

pub use config::data_dir;
pub use protocol::AppConfig;

verus! {

} // verus!
