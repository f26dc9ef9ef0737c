//! Verified core of scratchbox: note identity, naming, ordering, configuration, the watcher's
//! classification and the self-write registry, the keymap and its panel, the screen's layout
//! and text, and the editor session, each with its contract.

pub mod text;
pub mod note;
pub mod naming;
pub mod slug;
pub mod paths;
pub mod config;
pub mod diagnostics;
pub mod cli;
pub mod watch;
pub mod save;
pub mod syntax;
pub mod layout;
pub mod input;
pub mod session;
pub mod order;
pub mod store;
pub mod suppress;
pub mod panel;
pub mod keys;
