//! A group-chat bot library: command dispatch, message counting and
//! ranking, fortunes, chat-history bookkeeping and the small text
//! utilities they rest on.

pub mod text;
pub mod mytype;
pub mod file_io;
pub mod dialogue;
pub mod tally;
pub mod produce;
pub mod bot;
pub mod json;
