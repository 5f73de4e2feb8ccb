//! Finding `node_modules` directories beneath a root and deleting the ones
//! that are selected, as decisions on plain values.
//!
//! Nothing here reads a directory, asks a user or removes a file. The scanner
//! is handed what a walk of the tree came upon and says which directories are
//! to be listed; the commands say what they need next and are told what came
//! of it. What is proved of them holds of every tree and of every answer.

pub mod command;
pub mod delete;
pub mod entry;
pub mod error;
pub mod order;
pub mod path;
pub mod report;
pub mod scan;
pub mod select;
