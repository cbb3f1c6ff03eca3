use vstd::prelude::*;

pub mod address;
pub mod cache;
pub mod consolidate;
pub mod index;
pub mod metadata;

verus! {

} // verus!
