//! AgTerm core library: the verified logic of the terminal emulator.

pub mod text;
pub mod fmt;
pub mod diff_view;
pub mod clock;
pub mod debug;
pub mod encoding;
pub mod strings;
pub mod aliases;
pub mod config;
pub mod pattern;
pub mod command_validator;
pub mod automation;
pub mod completion;
pub mod accessibility;
pub mod tasks;
pub mod memory;
pub mod bookmarks;
pub mod broadcast;
pub mod clipboard;
pub mod color;
pub mod ident;
pub mod digraph;
pub mod taskgraph;
pub mod scheduler;
pub mod annotations;
pub mod settings;
pub mod runtime;
pub mod session;
