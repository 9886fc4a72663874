//! Decision core of a Windows desktop shell that embeds external application
//! windows into pages: page navigation, slot and window bookkeeping, IDE and
//! custom-page instance lists, layout planning and the small text codecs the
//! shell needs.

pub mod text;
pub mod state;
pub mod paging;
pub mod seqs;
pub mod keyed;
pub mod ide;
pub mod custom;
pub mod managed;
pub mod layout;
pub mod discovery;
pub mod config;
pub mod apps;
pub mod utf16;
pub mod shell;
pub mod system;
pub mod pty;
pub mod shortcuts;
pub mod entries;
pub mod hotkey;
