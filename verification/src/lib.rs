//! Picks an Xcode workspace or project and one of its schemes, and drives
//! `xcode-build-server config` for the pair.
//!
//! The library decides; its caller acts. [`program::run`] takes what happened last and
//! says what to do next, from entering the terminal to the exit of the process.

pub mod args;
pub mod commands;
pub mod failures;
pub mod history;
pub mod keys;
pub mod layout;
pub mod paths;
pub mod pickers;
pub mod program;
pub mod schemes;
pub mod screens;
pub mod session;
pub mod sorting;
pub mod steps;
pub mod targets;
pub mod text;
