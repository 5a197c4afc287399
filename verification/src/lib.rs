//! Shared foundations for the RatClick auto-clicker: configuration, keyboard
//! accelerators, the session-bus contract, the global-shortcut backends, the
//! click scheduler, and what the command line, the windows and the installation
//! check decide, each with its behaviour stated and proved.
#![allow(unused_imports)]

pub mod text;
pub mod accel;
pub mod accel_laws;
pub mod shortcut;
pub mod config;
pub mod ipc;
pub mod cli;
pub mod engine;
pub mod setup;
pub mod bridge;
pub mod window;
pub mod first_run;
pub mod doctor;
