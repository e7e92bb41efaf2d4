//! A small library that turns a parsed HTML tree into a constrained
//! Markdown-like dialect, extracts a wiki page's title and content, and
//! drives a bounded, scrollable pager over the rendered text.

pub mod classify;
pub mod extract;
pub mod pager;
pub mod render;
pub mod text;
