//! Human tables and JSON documents.
pub mod human;
pub mod json;
