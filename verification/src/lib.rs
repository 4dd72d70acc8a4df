//! Ruxius: packaging a PHP app into a self-appending executable.
pub mod archive;
pub mod bytes;
pub mod cache;
pub mod cli;
pub mod config;
pub mod dashboard;
pub mod digest;
pub mod error;
pub mod ext;
pub mod extract;
pub mod framework;
pub mod icon;
pub mod launcher;
pub mod pack;
pub mod paths;
pub mod payload;
pub mod php;
pub mod text;
pub mod tui;
pub mod ui;
pub mod webview;
