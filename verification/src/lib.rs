//! Text and protocol logic of a launcher that lists browser tabs and saved
//! targets as desktop entries.

pub mod text;
pub mod web_url;
pub mod config;
pub mod digest;
pub mod paths;
pub mod entry;
pub mod launcher;
pub mod favicon;
pub mod json;
pub mod native;
pub mod bridge;
pub mod command;
pub mod ids;
