//! Core logic for kare: report parsing, history analysis, scoring and
//! rendering, with the history store reached through SQLite.

pub mod config;
pub mod db;
pub mod model;
pub mod parser;
pub mod render;
pub mod sort;
pub mod text;
pub mod analysis;
pub mod ci;
