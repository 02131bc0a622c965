//! Markdown to HTML, and a Mustache-style template engine to place the HTML
//! in a page.

pub mod text;
pub mod mustache;
pub mod documents;
pub mod inline_parser;
pub mod formatting;
pub mod block_parser;
pub mod processing;
pub mod html;
