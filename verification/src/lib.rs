//! A bookmark collection: the reader of Netscape bookmark files, the
//! bookmark records it yields, and what is computed around them.

pub mod app;
pub mod bookmark;
pub mod chars;
pub mod clock;
pub mod db;
pub mod element;
pub mod error;
pub mod escapes;
pub mod grammar;
pub mod hierarchy;
pub mod laws;
pub mod netscape_parser;
pub mod number;
pub mod site_metadata;
pub mod subcommands;
pub mod text;
pub mod utils;
