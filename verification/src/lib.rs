//! The document and render engine of a terminal text editor.
//!
//! The library holds the document as rows of bytes, derives from them what the screen shows
//! (columns, tabs, highlighting), moves the cursor, applies the edits, and decodes the keys
//! that a terminal sends. It reads and writes nothing itself: the bytes of files and of the
//! input are handed to it, and the bytes for the terminal are handed back.

pub mod config;
pub mod cursor;
pub mod document;
pub mod edit;
pub mod editor;
pub mod error;
pub mod keys;
pub mod row;
pub mod rules;
pub mod screen;
pub mod size;
pub mod syntax;
pub mod terminal;
pub mod text;

pub use crate::config::Config;
pub use crate::editor::Editor;
pub use crate::error::Error;
