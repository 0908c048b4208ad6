//! A two-person chat kept in a shared GitHub Gist: the verified core.
//!
//! Each participant appends JSON lines to a file of their own in the gist;
//! reading merges both files into one conversation. This crate holds the
//! decisions of the tool (validation, framing, merging, windowing, retry
//! policy and command dispatch); network, terminal and file access live
//! in the binary around it.

pub mod chat;
pub mod cli;
pub mod clock;
pub mod config;
pub mod decimal;
pub mod display;
pub mod gist;
pub mod jsonl;
pub mod messages;
pub mod text;
pub mod view;
