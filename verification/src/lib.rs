//! Memory-management core for a freestanding x86-64 kernel: a physical
//! frame allocator driven by a boot-supplied region catalog, a four-level
//! page-table translator, and a heap initializer that maps a virtual range
//! frame by frame.
use vstd::prelude::*;

pub mod addr;
pub mod memory;
pub mod heap;
pub mod paging;

verus! {

/// The smallest check the verifier and the test harness agree on.
pub fn trivial_assertion() {
    assert(1int == 1int);
}

} // verus!
