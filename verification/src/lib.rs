//! blackbox: a flight recorder for a developer's day.
//!
//! This crate is the verified part: what the daemon remembers of the repositories that it
//! polls, how it grades its own health, what it records of AI coding sessions, and what
//! the live dashboard shows. Reading files, talking to processes and the terminal, and the
//! database are left to the program around it, which hands over plain values.
//!
//! Paths are texts, with `/` between their components.

pub mod activity;
pub mod claude_tracking;
pub mod config;
pub mod daemon;
pub mod decimal;
pub mod doctor;
pub mod feed;
pub mod notifications;
pub mod path_order;
pub mod path_set;
pub mod paths;
pub mod platform;
pub mod poll_loop;
pub mod poller;
pub mod repo_states;
pub mod report;
pub mod screen;
pub mod session_poll;
pub mod snapshot;
pub mod sorting;
pub mod status;
pub mod text;
pub mod time;
pub mod tui;
