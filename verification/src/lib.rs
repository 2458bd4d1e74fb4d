//! Verified core of a language-agnostic test runner: the worker wire
//! protocol and its tallying rules, JUnit rendering, run provenance, and
//! the text helpers they share.
use vstd::prelude::*;

pub mod agent;
pub mod checkers;
pub mod cli;
pub mod config;
pub mod deps;
pub mod filter;
pub mod git;
pub mod github;
pub mod hashing;
pub mod hooks;
pub mod keymap;
pub mod logbuf;
pub mod metadata;
pub mod noticebuf;
pub mod package;
pub mod paths;
pub mod plain;
pub mod plugins;
pub mod pool;
pub mod preflight;
pub mod prose;
pub mod protocol;
pub mod python;
pub mod r;
pub mod registry;
pub mod report;
pub mod reporter;
pub mod run_events;
pub mod text;
pub mod walk;

verus! {
} // verus!
