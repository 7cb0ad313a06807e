//! Traffic matching: decides which image an HTTP client gets from its address.
pub mod ip;
pub mod rule;
pub mod engine;
