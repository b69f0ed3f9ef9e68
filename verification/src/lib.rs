//! The coordination core of a long-running chat bot: a parser for the chat
//! protocol's lines, the rule that cuts outbound text into frames, mailbox
//! queues and channels, a typed topic registry, and the restart policy of
//! the supervised tasks. Every function carries a contract that Verus proves.

use vstd::prelude::*;

pub mod audio_player;
pub mod bus;
pub mod chance;
pub mod chunking;
pub mod clock;
pub mod com;
pub mod commands;
pub mod config_manager;
pub mod irc_parser;
pub mod registry;
pub mod task_manager;
pub mod text;
pub mod tts;
pub mod tts_player;
pub mod twitch_client;
pub mod users_manager;

verus! {

/// Start-up arguments handed to every task.
#[derive(Debug, Clone, Copy)]
pub struct Args {}

} // verus!
