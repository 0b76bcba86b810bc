//! Conversion of Markdown text into an HTML page.

pub mod chars;
pub mod lists;
pub mod text;
pub mod table;
pub mod link;
pub mod paragraph;
pub mod document;
