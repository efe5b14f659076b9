//! The record of the one-shot migrations that have run.
//!
//! A migration asks the guard once before it starts and marks itself once it
//! is through. A mark is never taken back.

use vstd::prelude::*;
use vstd::slice::slice_to_vec;

verus! {

/// The names of the migrations that have run.
pub struct MigrationGuard {
    pub completed: Vec<Vec<u8>>,
}

/// Whether two names are the same, byte for byte.
pub fn same_name(a: &[u8], b: &[u8]) -> (r: bool)
    ensures
        r == (a@ == b@),
{
    if a.len() != b.len() {
        return false;
    }
    let mut i: usize = 0;
    while i < a.len()
        invariant
            a@.len() == b@.len(),
            i <= a@.len(),
            forall|k: int| 0 <= k < i ==> a@[k] == b@[k],
        decreases a.len() - i,
    {
        if a[i] != b[i] {
            return false;
        }
        i = i + 1;
    }
    proof {
        assert(a@ =~= b@);
    }
    true
}

impl MigrationGuard {
    /// The migration `name` is marked as run.
    pub open spec fn ran(&self, name: Seq<u8>) -> bool {
        exists|i: int| 0 <= i < self.completed@.len() && (#[trigger] self.completed@[i])@ == name
    }

    /// The guard before any migration has run.
    pub fn new() -> (r: MigrationGuard)
        ensures
            forall|name: Seq<u8>| !r.ran(name),
    {
        MigrationGuard { completed: Vec::new() }
    }

    /// Whether the migration `name` has run.
    pub fn has_run(&self, name: &[u8]) -> (r: bool)
        ensures
            r == self.ran(name@),
    {
        let mut i: usize = 0;
        while i < self.completed.len()
            invariant
                i <= self.completed@.len(),
                forall|k: int| 0 <= k < i ==> (#[trigger] self.completed@[k])@ != name@,
            decreases self.completed.len() - i,
        {
            if same_name(self.completed[i].as_slice(), name) {
                return true;
            }
            i = i + 1;
        }
        false
    }

    /// Marks the migration `name` as run. Every migration that was marked
    /// before stays marked, and no other becomes marked.
    pub fn mark_run(&mut self, name: &[u8])
        ensures
            final(self).ran(name@),
            forall|other: Seq<u8>| old(self).ran(other) ==> final(self).ran(other),
            forall|other: Seq<u8>| final(self).ran(other) ==> old(self).ran(other) || other == name@,
    {
        if !self.has_run(name) {
            let ghost before = self.completed@;
            self.completed.push(slice_to_vec(name));
            proof {
                let last: int = before.len() as int;
                assert(self.completed@[last]@ == name@);
                assert forall|other: Seq<u8>| old(self).ran(other) implies final(self).ran(
                    other,
                ) by {
                    let i = choose|i: int|
                        0 <= i < before.len() && (#[trigger] before[i])@ == other;
                    assert(self.completed@[i]@ == other);
                }
                assert forall|other: Seq<u8>| final(self).ran(other) implies old(self).ran(other)
                    || other == name@ by {
                    let i = choose|i: int|
                        0 <= i < self.completed@.len() && (#[trigger] self.completed@[i])@
                            == other;
                    if i < before.len() {
                        assert(before[i]@ == other);
                    }
                }
            }
        }
    }
}

} // verus!
