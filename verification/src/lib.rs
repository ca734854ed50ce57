//! An IRC suite's core logic: casemapping, the server's user registry and
//! nickname index, PRIVMSG/NOTICE routing, and the GUI client's window
//! model.

pub mod casemap;
pub mod state;
pub mod tables;
pub mod messaging;
pub mod command;
pub mod event;
pub mod text;
pub mod app;
