//! Seals the job-result conversion trait: only the implementations this
//! crate provides exist.

use vstd::prelude::*;

verus! {

/// Supertrait that keeps the set of job-result conversions closed.
pub trait Sealed<K> {

}

} // verus!
