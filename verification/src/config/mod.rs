//! Catalogues that a configuration gives: profiles, models, runtimes and the wording of prompts.
pub mod catalog;
pub mod identifiers;
pub mod profile;
