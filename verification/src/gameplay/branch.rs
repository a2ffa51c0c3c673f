//! The two ways a transition can go.

use vstd::prelude::*;

verus! {

/// What a transition yields: the machine in one of two phases.
///
/// `Left` is the phase in which play goes on as before (the tile floats, the
/// scan of the rows continues); `Right` is the phase that ends it.
#[derive(Debug)]
pub enum Branch<L, R> {
    Left(L),
    Right(R),
}

} // verus!
