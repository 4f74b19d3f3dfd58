//! A file manager whose listing is a text buffer: the names of a directory
//! are edited with the keys of a modal editor, and the changes to the text
//! are staged as renames, creations, deletions and moves until they are
//! confirmed.
//!
//! The library holds the editor and the staging. It reads no key, draws
//! nothing and touches no file: the program around it hands in key presses
//! and listings, and carries out the operations it is asked for.

pub mod app;
pub mod buffer_storage;
pub mod cursor;
pub mod file_helper;
pub mod handler;
pub mod input_buffer;
pub mod listing;
pub mod model;
pub mod motion_handler;
pub mod reconcile;
pub mod render_utils;
pub mod system;
pub mod text;
pub mod text_buffer;
pub mod undo_stack;
pub mod yank_buffer;
