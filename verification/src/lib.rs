//! yoyo's REPL logic as a verified library: recognising slash commands and
//! their arguments, the decisions behind each command, searching and
//! summarising the conversation, and the bookkeeping of a prompt run.
//!
//! - `text`: character-level string helpers (trimming, lines, truncation,
//!   joining, searching, UTF-8 widths) with their specifications.
//! - `message`: conversation messages as plain values and the text read
//!   from them.
//! - `search`: case-insensitive history search with excerpts.
//! - `commands`: command recognition and the command handlers' decisions.
//! - `prompt`: turn counting, text collection and usage totals of a run.
use vstd::prelude::*;

pub mod commands;
pub mod message;
pub mod prompt;
pub mod search;
pub mod text;

verus! {

} // verus!
