//! State core of a terminal file manager: directory entries and listings,
//! a path-keyed cache of listings with lazy invalidation, and the clipboard
//! commands that cut, copy, paste and delete files.
//!
//! Nothing here touches the file system. What a directory holds, what a
//! transfer achieved and what the user answered are handed in as plain
//! values; every function states in its contract what it makes of them.
//!
//! Two things are taken on trust and named, not proved: what
//! `std::path::Path` gives as the parent and the extension of a path (in
//! [`path`]), and what `tui::style::Style` makes of a colour and a
//! modifier (in [`theme`]).

pub mod command;
pub mod devicons;
pub mod fs;
pub mod history;
pub mod path;
pub mod sort;
pub mod theme;
