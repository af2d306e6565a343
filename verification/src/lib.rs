//! Throttle: a per-process bandwidth monitor and limiter.
//!
//! This crate holds the decisions of the program: attributing packets to
//! processes, metering and shaping them, keeping the rules, and working out
//! what the window shows. Drivers, sockets, files, threads and drawing live in
//! the program around it.

pub mod addr;
pub mod artwork;
pub mod backend;
pub mod cli;
pub mod gui;
pub mod icon;
pub mod table;
pub mod text;
pub mod types;
pub mod wire;
