//! tellme — git blame, but for prompts and decisions.
//!
//! The verified core of `tellme`: line selectors, edit spans, hook scripts and
//! settings, the prompt-blame join, reconciliation, cross-layer journeys,
//! Python data-flow analysis, ASCII flow graphs, and the interactive browser's
//! key handling.

pub mod analysis;
pub mod blame;
pub mod capture;
pub mod cli;
pub mod commands;
pub mod completion;
pub mod config;
pub mod error;
pub mod git;
pub mod graph;
pub mod journey;
pub mod json;
pub mod lineref;
pub mod order;
pub mod paths;
pub mod reconcile;
pub mod store;
pub mod text;
pub mod tui;

