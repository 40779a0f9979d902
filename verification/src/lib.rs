//! A small interactive command interpreter, as a verified library.
//!
//! The crate holds the decisions of the shell: how a line of text becomes a
//! sequence of pipeline stages, how each stage is dispatched, and how the
//! session state changes in response. Talking to the operating system is left
//! to the caller, which performs the actions the library asks for and reports
//! back what happened.

pub mod chars;
pub mod error;
pub mod instruction;
pub mod text_processing;
pub mod utils;
pub mod session;
pub mod execution;
pub mod user;
