//! Keeps the phase traits closed: only this crate can name `Seal`.

use vstd::prelude::*;

verus! {

pub trait Seal {

}

} // verus!
