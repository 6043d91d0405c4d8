//! The logic of a file explorer.
pub mod clipboard;
pub mod copy_job;
pub mod copy_queue;
pub mod dnd;
pub mod drives;
pub mod favorites;
pub mod file_drag;
pub mod file_utils;
pub mod fs_ops;
pub mod github;
pub mod job_count;
pub mod job_panel;
pub mod keys;
pub mod list_view;
pub mod listing;
pub mod menus;
pub mod names;
pub mod navigation;
pub mod numerals;
pub mod path_keys;
pub mod paths;
pub mod pictures;
pub mod recycle;
pub mod rename;
pub mod scan;
pub mod selection;
pub mod session;
pub mod shortcuts;
pub mod sorting;
pub mod spelling;
pub mod text;
pub mod transfer;
pub mod tree;
pub mod typed;
pub mod types;
pub mod undo;
pub mod updater;
pub mod versions;
pub mod wide;
