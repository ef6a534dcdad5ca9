//! A bookmark collection: a tree of folders, links, free-text searches and
//! templated links, read from legacy browser exports and walked down to one
//! resolved URL.
pub mod bookmark;
pub mod config;
pub mod lex;
pub mod markup;
pub mod navigate;
pub mod parse;
pub mod template;
