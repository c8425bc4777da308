//! Shortening of prompts for local models, with every requirement of a prompt kept.
pub mod clock;
pub mod compression;
pub mod config;
pub mod contents;
pub mod error;
pub mod evaluation;
pub mod integers;
pub mod parts;
pub mod runtime;
pub mod text;
pub mod text_map;
pub mod types;
