//! Session descriptions: their grammar, and the codec that validates a text
//! against it.

pub mod codec;
pub mod description;
pub mod grammar;
pub mod laws;
