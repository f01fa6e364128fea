//! Rummage: a local-only email archive search server over notmuch.
//!
//! The verified library holds the logic of the server: body conversion
//! (HTML to text and Markdown, plain text to HTML), MIME part selection,
//! conversation trees, search result shaping, sender statistics and the
//! text of the MCP tools.
use vstd::prelude::*;

pub mod api;
pub mod config;
pub mod dates;
pub mod db;
pub mod error;
pub mod mail;
pub mod mcp;
pub mod order;
pub mod text;
pub mod ui;

verus! {

} // verus!
