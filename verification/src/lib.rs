//! The parts of the `nca` command line assistant that compute: the composer and
//! its panels, image attachments, the bash tools, and the session's IPC.
//!
//! The functions take what they need as plain values and say what is to be
//! done; files, processes, sockets, the clipboard and the terminal are for the
//! caller.

pub mod bash;
pub mod bash_tool;
pub mod branch;
pub mod bridge;
pub mod composer;
pub mod composer_line;
pub mod debug_log;
pub mod image_attach;
pub mod ipc;
pub mod palette;
pub mod path;
pub mod pty;
pub mod slash;
pub mod text;
pub mod tool;
