//! A file browser: the disk as lists of lists, each entry in an input field so
//! that it can be renamed in place, with an undoable delete and a search.
//!
//! This library holds what the file browser decides: which entries a folder
//! shows, in which order and how they read ([`listing`], [`rows`]), what an edit
//! or a command asks for ([`provider`]), what a delete records so that it can be
//! undone ([`timeline`]), and how a search and a copy go through folders
//! ([`search`], [`copy`]). The disk, the trash and the application's host are
//! touched by its callers, who hand in what they found and do what was decided.

pub mod calendar;
pub mod copy;
pub mod desktop;
pub mod drives;
pub mod element;
pub mod entry;
pub mod listing;
pub mod long_properties;
pub mod markup;
pub mod natural;
pub mod path;
pub mod provider;
pub mod rows;
pub mod search;
pub mod short_properties;
pub mod text;
pub mod timeline;

pub use listing::SortMode;
pub use provider::FilebrowserProvider;
