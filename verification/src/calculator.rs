//! The calculator core.
//!
//! A line of text is split into tokens, and the tokens are evaluated by
//! recursive descent against a store of named memory slots.
//!
//! Numbers are IEEE-754 binary64 values, carried as their 64-bit patterns.
//! The library decides how a line is read and in which order its operations
//! are applied; the arithmetic itself, and the reading of a numeric literal,
//! are done by functions that the caller hands in.

pub mod error;
pub mod eval;
pub mod grammar;
pub mod memory;
pub mod number;
pub mod session;
pub mod syntax;
pub mod token;
pub mod words;
