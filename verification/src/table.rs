//! The per-core connection table.
//!
//! Each worker core owns one table; a connection is assigned to a
//! core by a deterministic hash of its five-tuple, computed once and
//! stable for the connection's lifetime, so no connection is ever
//! processed by more than one core.  A full table denies admission to
//! a new flow (or the caller evicts an old connection first); it
//! never crashes.

use vstd::prelude::*;

use crate::conn::ConnInfo;
use crate::errors::RuntimeError;

verus! {

/// The five fields identifying a flow.  Addresses are carried as
/// 128-bit values; the runtime maps a v4 address into them.
#[derive(Clone, Copy, Debug, PartialEq, Eq, Hash, Structural)]
pub struct FiveTuple {
    /// Source address.
    pub src_ip: u128,
    /// Destination address.
    pub dst_ip: u128,
    /// Source port.
    pub src_port: u16,
    /// Destination port.
    pub dst_port: u16,
    /// Transport protocol number.
    pub proto: u8,
}

/// Mix one value into a running product-xor hash.
fn mix(h: u64, v: u64) -> (r: u64) {
    let x = (h ^ v) as u128;
    let m = (x * 0x100000001b3u128) % 0x10000000000000000u128;
    m as u64
}

/// A deterministic hash of the five-tuple.  Being a function of the
/// tuple alone, it gives every packet of a flow the same value for
/// the flow's whole lifetime.
fn flow_hash(ft: &FiveTuple) -> u64 {
    let mut h: u64 = 0xcbf29ce484222325;
    h = mix(h, (ft.src_ip % 0x10000000000000000u128) as u64);
    h = mix(h, (ft.src_ip >> 64) as u64);
    h = mix(h, (ft.dst_ip % 0x10000000000000000u128) as u64);
    h = mix(h, (ft.dst_ip >> 64) as u64);
    h = mix(h, ft.src_port as u64);
    h = mix(h, ft.dst_port as u64);
    h = mix(h, ft.proto as u64);
    h
}

/// The core that owns the flow: flow affinity by a deterministic hash
/// of the five-tuple, so every packet of a flow reaches the same
/// core's private table and the hot path needs no locks.
pub fn core_of(ft: &FiveTuple, n_cores: u32) -> (r: u32)
    requires
        n_cores > 0,
    ensures
        r < n_cores,
{
    (flow_hash(ft) % (n_cores as u64)) as u32
}

/// Whether the key stands in the list.
pub open spec fn table_has(keys: Seq<FiveTuple>, ft: FiveTuple) -> bool {
    exists|i: int| 0 <= i < keys.len() && keys[i] == ft
}

/// One core's private connection table: parallel keys and connection
/// states, bounded by a fixed capacity.
pub struct ConnTable {
    /// The most connections the table may hold.
    pub capacity: usize,
    /// The five-tuples of the held connections.
    pub keys: Vec<FiveTuple>,
    /// The held connections, aligned with `keys`.
    pub conns: Vec<ConnInfo>,
}

impl ConnTable {
    /// Well-formedness: keys and connections aligned, within
    /// capacity, and no five-tuple held twice.
    pub open spec fn wf(self) -> bool {
        &&& self.keys@.len() == self.conns@.len()
        &&& self.keys@.len() <= self.capacity
        &&& forall|i: int, j: int|
            0 <= i < j < self.keys@.len() ==> #[trigger] self.keys@[i] != #[trigger] self.keys@[j]
    }

    /// An empty table of the given capacity.
    pub fn new(capacity: usize) -> (r: ConnTable)
        ensures
            r.wf(),
            r.capacity == capacity,
            r.keys@.len() == 0,
    {
        ConnTable { capacity, keys: Vec::new(), conns: Vec::new() }
    }

    /// How many connections the table holds.
    pub fn len(&self) -> (r: usize)
        ensures
            r == self.keys@.len(),
    {
        self.keys.len()
    }

    /// The held connection of the five-tuple, if any.
    pub fn lookup(&self, ft: &FiveTuple) -> (r: Option<usize>)
        requires
            self.wf(),
        ensures
            r matches Some(i) ==> i < self.keys@.len() && self.keys@[i as int] == *ft,
            r is None ==> !table_has(self.keys@, *ft),
    {
        let n = self.keys.len();
        let mut i: usize = 0;
        while i < n
            invariant
                i <= n,
                n == self.keys@.len(),
                forall|k: int| 0 <= k < i ==> #[trigger] self.keys@[k] != *ft,
            decreases n - i,
        {
            if self.keys[i] == *ft {
                return Some(i);
            }
            i = i + 1;
        }
        None
    }

    /// Admit a new connection, or deny it when the table is full.
    pub fn insert(&mut self, ft: FiveTuple, conn: ConnInfo) -> (r: Result<usize, RuntimeError>)
        requires
            old(self).wf(),
            !table_has(old(self).keys@, ft),
        ensures
            final(self).wf(),
            final(self).capacity == old(self).capacity,
            r matches Ok(i) ==> i == old(self).keys@.len() && final(self).keys@ == old(
                self,
            ).keys@.push(ft),
            r is Ok <==> old(self).keys@.len() < old(self).capacity,
            r matches Err(e) ==> e == RuntimeError::CapacityExceeded && final(self).keys@ == old(
                self,
            ).keys@,
    {
        if self.keys.len() >= self.capacity {
            return Err(RuntimeError::CapacityExceeded);
        }
        let i = self.keys.len();
        self.keys.push(ft);
        self.conns.push(conn);
        Ok(i)
    }

    /// Remove the connection at the index, filling the gap with the
    /// table's last entry.
    pub fn remove(&mut self, i: usize) -> (r: ConnInfo)
        requires
            old(self).wf(),
            i < old(self).keys@.len(),
        ensures
            final(self).wf(),
            final(self).capacity == old(self).capacity,
            final(self).keys@.len() == old(self).keys@.len() - 1,
            !table_has(final(self).keys@, old(self).keys@[i as int]),
    {
        let ghost k0 = self.keys@;
        let r = self.conns.swap_remove(i);
        let kr = self.keys.swap_remove(i);
        proof {
            assert forall|a: int, b: int|
                0 <= a < b < self.keys@.len() implies #[trigger] self.keys@[a]
                != #[trigger] self.keys@[b] by {
                if a == i {
                    assert(self.keys@[a] == k0[k0.len() - 1]);
                    assert(self.keys@[b] == k0[b]);
                } else if b == i {
                    assert(self.keys@[b] == k0[k0.len() - 1]);
                    assert(self.keys@[a] == k0[a]);
                } else {
                    assert(self.keys@[a] == k0[a]);
                    assert(self.keys@[b] == k0[b]);
                }
            }
            assert(!table_has(self.keys@, k0[i as int])) by {
                if table_has(self.keys@, k0[i as int]) {
                    let j = choose|j: int|
                        0 <= j < self.keys@.len() && self.keys@[j] == k0[i as int];
                    if j == i {
                        assert(self.keys@[j] == k0[k0.len() - 1]);
                    } else {
                        assert(self.keys@[j] == k0[j]);
                    }
                }
            }
        }
        r
    }
}

} // verus!
