pub mod api;
pub mod config;
pub mod mailbox;
pub mod tags;
pub mod time;
pub mod error;
pub mod metrics;
pub mod monitor;
pub mod runtime;
pub mod timer;
pub mod text;
pub mod remote;
