//! Core of a daemon that watches command-line activity and binds user-configured
//! "action" child processes to the lifetime of matching commands.
//!
//! The crate holds the daemon's verified logic: the rule configuration model,
//! the glob-based rule engine with its fingerprint cache, the action
//! orchestrator's bookkeeping (single-instance keys, active children, the
//! stdin-close / grace / kill lifecycle), path resolution for action
//! executables, and the shell probe's message framing and synthetic-pid
//! allocation. Process spawning, sockets, file watching and the async runtime
//! live outside, handing this crate plain values and taking plain values back.

pub mod action_orchestrator;
pub mod config;
pub mod config_watcher;
pub mod event_bus;
pub mod platform;
pub mod rule_engine;
pub mod shell_probe;
pub mod strutil;
pub mod supervisor;
