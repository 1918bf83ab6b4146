pub mod text;
pub mod paths;
pub mod order;
pub mod natural;
pub mod wildcard;
pub mod entry;
pub mod query;
pub mod sort;
pub mod snapshot;
pub mod state;
pub mod ops;
pub mod undo;
pub mod compare;
pub mod icons;
pub mod interact;
pub mod config;
pub mod keymap;
pub mod vfs;
pub mod preview;
pub mod ui_state;
pub mod theme;
pub mod tags;
pub mod jobs;
pub mod search;
pub mod everything;
pub mod shell;
pub mod plugins;
pub mod rename;
pub mod wire;
pub mod usn;
pub mod queue;
pub mod clock;
pub mod address;
pub mod listing;
pub mod activate;
pub mod navigate;
pub mod commands;
pub mod columns;
pub mod session;
pub mod actions;
pub mod tree;
pub mod names;
pub mod shortcuts;
pub mod checksum;
