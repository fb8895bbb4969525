//! A set of domain rules that learns while it is in use.
//!
//! Names are looked up in compiled rules that are replaced as a whole, while
//! requests append, remove, clear and reload rules. All changes of the rule file
//! go through one worker, in order. This crate decides what is listed, written,
//! matched and answered; it does no input or output of its own.
pub mod backend;
pub mod error;
pub mod fixtures;
pub mod laws;
pub mod listing;
pub mod matcher;
pub mod name;
pub mod patterns;
pub mod requests;
pub mod rules;
pub mod snapshot;
pub mod state;
pub mod storage;
pub mod text;
pub mod worker;
