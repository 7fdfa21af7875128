//! Notations for move sequences.
pub mod singmaster;
