//! Physical memory as the syscall surface sees it: a store of scalar cells
//! keyed by the physical byte address the translator resolved for them.
//!
//! The syscalls of this layer only ever write whole scalars through the
//! translator, one at a time and at distinct, aligned addresses, so a
//! scalar-granular store is an exact model of the memory they touch.

use vstd::prelude::*;
use std::collections::HashMap;

verus! {

/// The scalar cells written so far, keyed by physical byte address. A cell
/// that was never written is simply absent.
pub struct PhysMemory {
    pub cells: HashMap<usize, usize>,
}

impl PhysMemory {
    /// The store as a map from physical address to scalar value.
    pub open spec fn contents(self) -> Map<usize, usize> {
        self.cells@
    }

    /// A store with nothing written yet.
    pub fn new() -> (m: PhysMemory)
        ensures
            m.contents() == Map::<usize, usize>::empty(),
    {
        broadcast use vstd::std_specs::hash::group_hash_axioms;

        PhysMemory { cells: HashMap::new() }
    }

    /// Write one scalar at a physical address.
    pub fn write_scalar(&mut self, pa: usize, value: usize)
        ensures
            final(self).contents() == old(self).contents().insert(pa, value),
    {
        broadcast use vstd::std_specs::hash::group_hash_axioms;

        let _ = self.cells.insert(pa, value);
    }

    /// Read back the scalar at a physical address, if one was written.
    pub fn read_scalar(&self, pa: usize) -> (r: Option<usize>)
        ensures
            r == if self.contents().contains_key(pa) {
                Some(self.contents()[pa])
            } else {
                None::<usize>
            },
    {
        broadcast use vstd::std_specs::hash::group_hash_axioms;

        match self.cells.get(&pa) {
            Some(v) => Some(*v),
            None => None,
        }
    }
}

} // verus!
