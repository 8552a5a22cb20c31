//! A tile world split into chunks, with the coordinate conversions between
//! world, tile, chunk and screen space, a chunk store, and the decisions of a
//! camera-anchored tile buffer cache.
use vstd::prelude::*;

pub mod graphics;
pub mod world;

verus! {

} // verus!
