//! Extraction of embedded image payloads from recorded HTTP traffic: which
//! entries are extractable, where each one goes, and what bytes it holds.

pub mod text;
pub mod registry;
pub mod location;
pub mod resolve;
pub mod extract;
pub mod laws;
