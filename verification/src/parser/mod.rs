//! Language support: which files the engine can parse and the per-language
//! rules applied to parsed symbols.

pub mod engine;
pub mod lang_config;
pub mod langs;
pub mod python_parser;
pub mod registry;
pub mod typescript_parser;
pub mod syntax;
pub mod parse;
