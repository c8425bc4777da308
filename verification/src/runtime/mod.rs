//! Turning a request into a shorter prompt, and checking that nothing required is lost.
pub mod backend;
pub mod benchmark;
pub mod budget;
pub mod clauses;
pub mod compression_cache;
pub mod constraints;
pub mod corrections;
pub mod digest;
pub mod draft;
pub mod embedded;
pub mod fragments;
pub mod http;
pub mod json;
pub mod matching;
pub mod model_download;
pub mod model_files;
pub mod noise;
pub mod output_parser;
pub mod polish;
pub mod preprocess;
pub mod prompts;
pub mod restoration;
pub mod server;
pub mod sessions;
pub mod spacing;
pub mod spans;
pub mod structure;
pub mod terms;
pub mod thread_tuning;
pub mod typos;
