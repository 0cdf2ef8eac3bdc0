//! Sorting camera video files into named groups by the numeric id in their
//! file names.
//!
//! The library holds the decisions: which files form the catalog and in what
//! order, which group operations may run together, how operations are derived
//! from the days on which the videos were shot, and which folders and copies a
//! run performs. Reading directories, prompting and copying files are left to
//! the caller, which hands the observations in as plain values.
pub mod util;
pub mod error;
pub mod catalog;
pub mod days;
pub mod mapper;
pub mod prompt;
