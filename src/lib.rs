//! Host side of a sandboxed addon system: addons are loaded through a runtime
//! adapter, declare tool-menu entries, and may edit a note before it is added.

use vstd::prelude::*;

pub mod backend;
pub mod host;
pub mod note;

verus! {

} // verus!
