//! The logic of a terminal client for Signal: everything the client decides
//! and computes, without the terminal, the network or the disk.

pub mod app;
pub mod attach;
pub mod chat;
pub mod cli;
pub mod command;
pub mod complete;
pub mod content;
pub mod cursor;
pub mod exec;
pub mod history;
pub mod ids;
pub mod input;
pub mod json;
pub mod keys;
pub mod known;
pub mod layout;
pub mod order;
pub mod outgoing;
pub mod path;
pub mod reactions;
pub mod roster;
pub mod screen;
pub mod scroll;
pub mod text;
pub mod times;
pub mod ui;
pub mod wrap;
