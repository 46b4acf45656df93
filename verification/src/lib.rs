//! Declarative Git & GitHub CLI multi-account manager: the verified core.
//!
//! The library holds the manifest model and its validation, the account
//! resolution rules, the shell export lines, the diagnostics, and the
//! terminal report formatting.  Reading files, running `git` and talking to
//! the terminal happen in the program around it.

pub mod text;
pub mod paths;
pub mod config;
pub mod cli;
pub mod resolver;
pub mod doctor;
pub mod ui;
pub mod commands;
