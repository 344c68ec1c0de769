//! Git Relay: the decision core of a Git-first edge relay.

pub mod audit;
pub mod classification;
pub mod cli;
pub mod config;
pub mod crash;
pub mod deploy;
pub mod flake;
pub mod git;
pub mod hooks;
pub mod lock;
pub mod locking;
pub mod maintenance;
pub mod migration;
pub mod order;
pub mod path;
pub mod platform;
pub mod read_path;
pub mod reconcile;
pub mod refs;
pub mod release;
pub mod relock;
pub mod run;
pub mod sanitize;
pub mod shorthand;
pub mod ssh_wrapper;
pub mod sweep;
pub mod table;
pub mod text;
pub mod upstream;
pub mod validator;
