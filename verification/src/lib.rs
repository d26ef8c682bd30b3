//! A calendar library: records, the entry and search languages, and the
//! in-memory calendar databases.

pub mod time;
pub mod text;
pub mod duration;
pub mod error;
pub mod record;
pub mod parse;
pub mod entry;
pub mod search;
pub mod table;
pub mod remote;
pub mod memory;
pub mod config;
pub mod cli;
pub mod export;
pub mod commands;
pub mod input;
pub mod loader;
pub mod google;
pub mod view;
