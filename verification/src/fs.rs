//! What the file manager knows of the file system: the facts of one file,
//! the entry that shows it, and the listing of one directory.

pub mod dirlist;
pub mod entry;
pub mod metadata;
pub mod order;
