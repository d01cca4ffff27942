//! A splittable byte buffer: one allocation, shared by handles that each own a
//! disjoint range of it. The allocation's header lives behind an `Arc`, whose
//! strong count is the number of live handles; it is released with the last one.
use vstd::prelude::*;

pub mod laws;
pub mod loaf;
pub mod ranges;
