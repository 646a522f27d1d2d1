//! An in-memory store of capacity-bounded cells, and the line protocol that
//! drives it.

pub mod laws;
pub mod protocol;
pub mod text;
pub mod vault;
