//! The outline of a book, made from the directory that holds it.
//!
//! A directory of markdown documents is a book: a file is a chapter, a directory with an
//! index document is a chapter with chapters below it, and names say the rest. Names
//! order the siblings, mark drafts, part titles and separators, and set front and back
//! matter apart from the numbered chapters.
//!
//! [`snapshot`] holds a directory as plain values, [`book`] makes the outline of it,
//! [`numbering`] assigns the section numbers, and [`config`] makes the paths under which
//! chapters are shown. [`listing`] proves what holds of every directory, and [`host`]
//! answers the host program before a book is made.

pub mod book;
pub mod config;
pub mod host;
pub mod listing;
pub mod names;
pub mod numbering;
pub mod order;
pub mod paths;
pub mod snapshot;
pub mod text;
pub mod title;
pub mod tree;
