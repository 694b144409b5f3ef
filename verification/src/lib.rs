//! watchpix: the verified core of a live-reloading image gallery server.

pub mod text;
pub mod path;
pub mod types;
pub mod sort;
pub mod index;
pub mod json;
pub mod scanner;
pub mod watcher;
pub mod server;
pub mod page;
