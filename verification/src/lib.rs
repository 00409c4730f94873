//! Session core of a collaborative terminal-sharing server.
//!
//! A session brokers between one upstream agent, which owns the real shells,
//! and many browser clients that watch and drive them. This crate holds the
//! per-session state machine, the rule by which data fragments become one
//! monotone byte stream per shell, the cursor logic of chunk subscriptions and
//! the decisions of the per-client gateway. Every function carries a contract
//! over a mathematical model of the session and is proved against it.

pub mod chunks;
pub mod clock;
pub mod error;
pub mod gateway;
pub mod history;
pub mod layout;
pub mod protocol;
pub mod queue;
pub mod schedule;
pub mod session;
pub mod shell;
pub mod shell_map;
pub mod shutdown;
pub mod source;
pub mod wake;
