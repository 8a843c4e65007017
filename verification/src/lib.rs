//! The rules of a library manager for audiobooks and ebooks: how finished
//! downloads are matched to libraries, named and linked, how folders of
//! purchased books become library entries, and how the entries are listed.
use vstd::prelude::*;

pub mod ids;
pub mod linker;
pub mod model;
pub mod order;
pub mod outside;
pub mod path;
pub mod server;
pub mod text;
pub mod web;

verus! {

} // verus!
