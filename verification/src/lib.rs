//! Core engine of a desktop file browser: path classification, a validated
//! current-directory cursor, directory listings ordered directories-first,
//! lexical ancestor (breadcrumb) chains, and a persistent favourites store.
//!
//! All filesystem observations enter the library as plain probe values, so
//! every decision the engine makes is verified; the surrounding application
//! performs the actual I/O and feeds the observations in.

pub mod ancestors;
pub mod cursor;
pub mod favourites;
pub mod launcher;
pub mod volumes;
pub mod listing;
pub mod path_state;
pub mod text;
