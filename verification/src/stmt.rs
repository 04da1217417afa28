//! Statements, read from text.

pub use crate::parse::{assign, Statement};
