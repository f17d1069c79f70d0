//! Verified core of a serial-console debugger for embedded Linux targets.
//!
//! The library decides; the program around it performs input and output. Each
//! module states, over mathematical models, what its functions return and how
//! they change state.
#![allow(unused_imports)]

pub mod boot_detector;
pub mod bridge;
pub mod command_queue;
pub mod config;
pub mod config_map;
pub mod connection_learner;
pub mod console;
pub mod dutabo;
pub mod engine_tools;
pub mod error;
pub mod highlight;
pub mod inotify_watcher;
pub mod lock_manager;
pub mod log_manager;
pub mod marker;
pub mod mcp;
pub mod mcp_tools;
pub mod power_control;
pub mod reconnect;
pub mod relay_manager;
pub mod restart;
pub mod serial_engine;
pub mod serial_sim;
pub mod stage_learner;
pub mod state_manager;
pub mod statusline_watch;
pub mod task_manager;
pub mod text;
