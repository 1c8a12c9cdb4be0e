//! Compiles quiz definitions into a table of small integer codes.

pub mod codes;
pub mod config;
pub mod document;
pub mod export;
pub mod pairs;
pub mod quiz;
pub mod text;
