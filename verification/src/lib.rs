//! The core of an `ls -al` style terminal file browser: directory listings
//! (permissions, sizes and times rendered as text, directories first, then
//! by case-insensitive name), the cursor, marked paths, the copy/move
//! clipboard, deletions awaiting confirmation, the text of each table row and
//! of the status line, the key bindings, and the column mapping of the slide
//! animations. Reading and changing the file system and drawing the terminal
//! are left to the caller.

pub mod app;
pub mod calendar;
pub mod format;
pub mod keys;
pub mod laws;
pub mod laws_format;
pub mod listing;
pub mod order;
pub mod path;
pub mod screen;
pub mod text;
