//! The logic of an agent's error collector and subagent tools.
//!
//! - [`error_collector`]: error observations, deduplicated by fingerprint.
//! - [`claw_callback`]: the callback that a claw subagent posts when it completes.
//! - [`subagent_notifier`]: the notifications that completed subagents leave, and the messages that
//!   they become.
//! - [`tools`]: `read_errors`, `check_subagent_status` and `spawn_agent`.
//! - [`json`], [`text`] and [`clock`]: JSON values, strings and the system clock.
//!
//! What reads files, serves requests and runs subagents is not here: it hands this library plain
//! values and carries out what the library decides.

pub mod claw_callback;
pub mod clock;
pub mod error_collector;
pub mod json;
pub mod subagent_notifier;
pub mod text;
pub mod tools;
