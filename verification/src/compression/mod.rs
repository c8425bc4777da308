//! What a compression keeps of a request, and the service that runs one.
pub mod literals;
pub mod numbers;
pub mod service;
pub mod token_estimator;
pub mod verification;
