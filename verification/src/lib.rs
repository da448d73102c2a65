//! A verified core for a remote file manager: path resolution inside a data
//! directory, name matching, listing order and pagination, response building
//! and the WebDAV helpers, with their contracts proved by Verus.
use vstd::prelude::*;

pub mod text;
pub mod paths;
pub mod error;
pub mod local;
pub mod clock;
pub mod vfs;
pub mod order;
pub mod api;
pub mod webdav;
pub mod config;
pub mod assets;

verus! {

} // verus!
