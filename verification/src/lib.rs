//! Relay core: the switching logic behind a software KVM for Macs that share
//! one monitor and one set of Logitech input devices.

pub mod text;
pub mod types;
pub mod config;
pub mod config_watch;
pub mod plan;
pub mod coordinator;
pub mod trigger;
pub mod display;
pub mod device;
pub mod executor;
pub mod log;
pub mod runtime;
pub mod tray;
pub mod cli;
pub mod paths;
pub mod ipc;
