//! A verified core for an editor-integration grammar checker.
//!
//! The library tracks the text of open documents, builds the fixed
//! instruction prompt for an external language-model endpoint, parses the
//! model's JSON reply into structured issues (tolerating malformed output),
//! and translates issues into zero-based editor diagnostics.  All I/O —
//! the editor transport and the HTTP round trip — lives outside, in the
//! surrounding binary; this crate holds the logic, with contracts.

use vstd::prelude::*;

pub mod backend;
pub mod grammar_client;
pub mod json;
pub mod ollama;
pub mod store;

verus! {

} // verus!
