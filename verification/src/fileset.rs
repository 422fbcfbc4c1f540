//! Side-file membership sets.
//!
//! A `file=<path>` atom tests whether the connection's relevant key
//! (subscriber key, SNI, ...) stands in a newline-delimited list read
//! once at startup.  The reading is the runtime's; the set itself and
//! its lookup live here.

use vstd::prelude::*;

verus! {

/// The keys of one side file.
#[derive(Debug)]
pub struct MembershipSet {
    /// The keys, as read from the file.
    pub entries: Vec<Vec<u8>>,
}

/// Whether the key stands among the entries.
pub open spec fn set_has(entries: Seq<Vec<u8>>, w: Seq<u8>) -> bool {
    exists|i: int| 0 <= i < entries.len() && (#[trigger] entries[i])@ == w
}

impl MembershipSet {
    /// An empty set.
    pub fn new() -> (r: MembershipSet)
        ensures
            r.entries@.len() == 0,
    {
        MembershipSet { entries: Vec::new() }
    }

    /// Add one key.
    pub fn insert(&mut self, key: Vec<u8>)
        ensures
            final(self).entries@ == old(self).entries@.push(key),
    {
        self.entries.push(key);
    }

    /// The membership test behind a `file=<path>` atom.
    pub fn contains(&self, key: &[u8]) -> (r: bool)
        ensures
            r == set_has(self.entries@, key@),
    {
        let n = self.entries.len();
        let mut i: usize = 0;
        while i < n
            invariant
                i <= n,
                n == self.entries@.len(),
                forall|k: int| 0 <= k < i ==> (#[trigger] self.entries@[k])@ != key@,
            decreases n - i,
        {
            if crate::parse::bytes_eq(self.entries[i].as_slice(), key) {
                return true;
            }
            i = i + 1;
        }
        false
    }
}

} // verus!
