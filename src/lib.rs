//! Core logic of a command-line client for a proxy controller: a model of
//! the controller's proxy snapshot, the active-chain resolver, group
//! selection, switch validation, mode parsing and column padding.

pub mod api;
pub mod chain;
pub mod cli;
pub mod mode;
pub mod models;
pub mod select;
pub mod switch;
pub mod text;
pub mod utils;
