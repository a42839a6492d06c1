//! Core logic of a private file manager: the folder tree, the connection
//! registry, chunked storage planning, SQL text building, the reports that
//! the storage checks produce, human-readable sizes and the choices of the
//! repair tool.
use vstd::prelude::*;

pub mod checks;
pub mod commands;
pub mod folders;
pub mod listing;
pub mod menu;
pub mod lookup;
pub mod models;
pub mod registry;
pub mod sizes;
pub mod sql;
pub mod storage;
pub mod text;
pub mod thumbnails;

verus! {

} // verus!
