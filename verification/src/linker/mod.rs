//! Bringing finished downloads and ripped folders into the libraries.
pub mod common;
pub mod course;
pub mod torrent;
pub mod relink;
pub mod progress;
pub mod storytel_cats;
pub mod folder;
pub mod libation;
