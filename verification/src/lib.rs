//! A query-matching engine for JSON documents: locate fields whose name,
//! ancestor path and value satisfy a query, and report each hit as a
//! structured path plus the matched value.

pub mod cli;
pub mod format;
pub mod json;
pub mod num;
pub mod pattern;
pub mod remove_whitespace;
pub mod search;
pub mod syntax;
pub mod text;
