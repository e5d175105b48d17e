//! Extracts documentation comments written before Daedalus function
//! declarations and renders them as Markdown.
pub mod docu;
pub mod laws;
pub mod parser;
pub mod text;
