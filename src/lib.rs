//! Extraction of email addresses from lines of text.
pub mod cli;
pub mod extract;
pub mod grammar;
pub mod output;
pub mod pattern;
