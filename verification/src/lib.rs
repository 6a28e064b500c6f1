//! offcode: the logic of an offline coding assistant that works with a local model server —
//! the session, the command line, the tools the model may call and what they report, and
//! the text handling they rest on — each function proved against its contract.
pub mod text;
pub mod config;
pub mod sandbox;
pub mod ansi;
pub mod html;
pub mod models;
pub mod tools;
pub mod chat;
pub mod wrap;
pub mod tui;
pub mod cli;
