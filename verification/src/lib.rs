//! Tailing a growing text file across log rotation, as a verified state machine.
//!
//! The watcher never touches the file system. It answers every completed
//! operation with the next operation it wants carried out: read a line,
//! reposition, probe the path, wait, hand an event to the consumer. A driver
//! performs these operations and reports their outcomes.
//!
//! `watcher` holds the state machine. `world` models a driver over files held
//! as byte sequences, and `run` the watcher at work in that world. `laws`
//! proves what a consumer is given when everything was written before the
//! watch begins, exchange by exchange; `schedule` and `progress` prove the
//! order of what it is given, and that it is given all of it, when the writes
//! fall anywhere between the watcher's exchanges.

pub mod event;
pub mod exchange;
pub mod watcher;
pub mod world;
pub mod run;
pub mod laws;
pub mod schedule;
pub mod progress;

pub use event::{strip_newline, LogWatcherAction, LogWatcherEvent};
pub use exchange::{ProbeOutcome, WatchReply, WatchRequest};
pub use watcher::{LogWatcher, Phase, RotationState, BACKOFF_SECONDS};
