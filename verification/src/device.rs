//! The device collaborator that owns GPU buffer storage.
//!
//! The synchronization pass sees the device only through the [`Device`]
//! trait: allocation of an instance buffer from packed bytes, and disposal of
//! a buffer it allocated earlier.  The trait's contracts are the whole
//! interface — a pass proved against them works with any conforming device.
//! [`ModelDevice`] is a verified in-memory device: it conforms to the same
//! contracts, backs the test suite, and can stand in for a real renderer.

use vstd::prelude::*;
use crate::assoc::{
    assoc_map, keys_distinct, lemma_assoc_map_dom, lemma_assoc_map_index, lemma_assoc_map_remove,
    lemma_keys_distinct_remove,
};

verus! {

/// Buffer usage flag: the buffer may be the source of a device copy.
pub const BUFFER_USAGE_COPY_SRC: u32 = 1;

/// Buffer usage flag: the buffer may feed vertex/instance input.
pub const BUFFER_USAGE_VERTEX: u32 = 2;

/// A device that allocates and disposes instance buffers.
///
/// `live()` is the set of handles currently backed by device memory,
/// `contents()` the bytes behind each live handle, and the two counters the
/// number of successful allocations and of disposals so far.
pub trait Device: Sized {
    /// The handles currently backed by device memory.
    spec fn live(&self) -> Set<u64>;

    /// The bytes behind each live handle.
    spec fn contents(&self) -> Map<u64, Seq<u8>>;

    /// How many allocations have succeeded.
    spec fn alloc_count(&self) -> nat;

    /// How many buffers have been disposed.
    spec fn dispose_count(&self) -> nat;

    /// Allocates an instance buffer holding `bytes`, associated with the mesh
    /// `mesh`, laid out as `record_count` records of `record_size` bytes and
    /// tagged with `usage` flags.  Allocation failure is the only failure
    /// mode: on `None` nothing observable changed.
    fn create_instance_buffer(
        &mut self,
        mesh: u64,
        bytes: &Vec<u8>,
        record_size: usize,
        record_count: usize,
        usage: u32,
    ) -> (r: Option<u64>)
        ensures
            match r {
                Some(handle) => {
                    &&& !old(self).live().contains(handle)
                    &&& final(self).live() == old(self).live().insert(handle)
                    &&& final(self).contents() == old(self).contents().insert(handle, bytes@)
                    &&& final(self).alloc_count() == old(self).alloc_count() + 1
                    &&& final(self).dispose_count() == old(self).dispose_count()
                },
                None => {
                    &&& final(self).live() == old(self).live()
                    &&& final(self).contents() == old(self).contents()
                    &&& final(self).alloc_count() == old(self).alloc_count()
                    &&& final(self).dispose_count() == old(self).dispose_count()
                },
            },
    ;

    /// Disposes a live buffer.  The handle must be live, so a buffer can
    /// never be disposed twice.
    fn remove_buffer(&mut self, handle: u64)
        requires
            old(self).live().contains(handle),
        ensures
            final(self).live() == old(self).live().remove(handle),
            final(self).contents() == old(self).contents().remove(handle),
            final(self).dispose_count() == old(self).dispose_count() + 1,
            final(self).alloc_count() == old(self).alloc_count(),
    ;
}

/// A verified in-memory device: buffers live in a vector of handle/bytes
/// pairs, handles are issued from a counter and never reused.
pub struct ModelDevice {
    next_handle: u64,
    buffers: Vec<(u64, Vec<u8>)>,
    allocations: u64,
    disposals: u64,
    fail_next: bool,
}

impl ModelDevice {
    /// The association sequence the buffer table denotes.
    pub closed spec fn pairs(&self) -> Seq<(u64, Seq<u8>)> {
        self.buffers@.map_values(|p: (u64, Vec<u8>)| (p.0, p.1@))
    }

    #[verifier::type_invariant]
    spec fn inv(&self) -> bool {
        &&& keys_distinct(self.pairs())
        &&& forall|t: int| 0 <= t < self.pairs().len() ==> self.pairs()[t].0 < self.next_handle
        &&& self.disposals + self.pairs().len() <= self.allocations
    }

    /// A fresh device with no live buffer.
    pub fn new() -> (d: ModelDevice)
        ensures
            d.live() == Set::<u64>::empty(),
            d.contents() == Map::<u64, Seq<u8>>::empty(),
            d.alloc_count() == 0,
            d.dispose_count() == 0,
    {
        let d = ModelDevice {
            next_handle: 0,
            buffers: Vec::new(),
            allocations: 0,
            disposals: 0,
            fail_next: false,
        };
        proof {
            assert(d.pairs() =~= Seq::<(u64, Seq<u8>)>::empty());
            assert(assoc_map(d.pairs()).dom() =~= Set::<u64>::empty());
        }
        d
    }

    /// Makes the next allocation fail, as an out-of-memory device would.
    pub fn set_fail_next(&mut self, fail: bool)
        ensures
            final(self).live() == old(self).live(),
            final(self).contents() == old(self).contents(),
            final(self).alloc_count() == old(self).alloc_count(),
            final(self).dispose_count() == old(self).dispose_count(),
    {
        proof {
            use_type_invariant(&*self);
        }
        self.fail_next = fail;
    }

    /// How many allocations have succeeded.
    pub fn allocation_count(&self) -> (n: u64)
        ensures
            n as nat == self.alloc_count(),
    {
        self.allocations
    }

    /// How many buffers have been disposed.
    pub fn disposal_count(&self) -> (n: u64)
        ensures
            n as nat == self.dispose_count(),
    {
        self.disposals
    }

    /// Whether `handle` is currently backed by device memory.
    pub fn is_live(&self, handle: u64) -> (r: bool)
        ensures
            r == self.live().contains(handle),
    {
        proof {
            use_type_invariant(&*self);
            lemma_assoc_map_dom(self.pairs());
        }
        let n = self.buffers.len();
        let mut t: usize = 0;
        while t < n
            invariant
                n == self.buffers@.len(),
                t <= n,
                forall|u: int| 0 <= u < t ==> self.pairs()[u].0 != handle,
            decreases n - t,
        {
            if self.buffers[t].0 == handle {
                proof {
                    use_type_invariant(&*self);
                    lemma_assoc_map_dom(self.pairs());
                    assert(self.pairs()[t as int].0 == handle);
                    assert(exists|u: int|
                        0 <= u < self.pairs().len() && self.pairs()[u].0 == handle);
                    assert(self.live().contains(handle));
                }
                return true;
            }
            t = t + 1;
        }
        proof {
            assert(!(exists|u: int|
                0 <= u < self.pairs().len() && self.pairs()[u].0 == handle));
            assert(!self.live().contains(handle));
        }
        false
    }

    /// A copy of the bytes behind a handle, or `None` for a dead handle.
    pub fn read_buffer(&self, handle: u64) -> (r: Option<Vec<u8>>)
        ensures
            match r {
                Some(bytes) => self.live().contains(handle) && bytes@ == self.contents()[handle],
                None => !self.live().contains(handle),
            },
    {
        proof {
            use_type_invariant(&*self);
            lemma_assoc_map_dom(self.pairs());
        }
        let n = self.buffers.len();
        let mut t: usize = 0;
        while t < n
            invariant
                n == self.buffers@.len(),
                t <= n,
                keys_distinct(self.pairs()),
                forall|u: int| 0 <= u < t ==> self.pairs()[u].0 != handle,
            decreases n - t,
        {
            if self.buffers[t].0 == handle {
                proof {
                    assert(self.pairs()[t as int].0 == handle);
                    lemma_assoc_map_index(self.pairs(), t as int);
                }
                let bytes = copy_bytes(&self.buffers[t].1);
                proof {
                    assert(bytes@ == self.pairs()[t as int].1);
                }
                return Some(bytes);
            }
            t = t + 1;
        }
        proof {
            assert(!(exists|u: int|
                0 <= u < self.pairs().len() && self.pairs()[u].0 == handle));
            assert(!self.live().contains(handle));
        }
        None
    }
}

/// A byte-for-byte copy.
fn copy_bytes(src: &Vec<u8>) -> (r: Vec<u8>)
    ensures
        r@ == src@,
{
    let mut r: Vec<u8> = Vec::new();
    let mut t: usize = 0;
    while t < src.len()
        invariant
            t <= src@.len(),
            r@ == src@.take(t as int),
        decreases src@.len() - t,
    {
        r.push(src[t]);
        proof {
            assert(r@ =~= src@.take(t as int + 1));
        }
        t = t + 1;
    }
    proof {
        assert(src@.take(src@.len() as int) =~= src@);
    }
    r
}

impl Device for ModelDevice {
    closed spec fn live(&self) -> Set<u64> {
        assoc_map(self.pairs()).dom()
    }

    closed spec fn contents(&self) -> Map<u64, Seq<u8>> {
        assoc_map(self.pairs())
    }

    closed spec fn alloc_count(&self) -> nat {
        self.allocations as nat
    }

    closed spec fn dispose_count(&self) -> nat {
        self.disposals as nat
    }

    fn create_instance_buffer(
        &mut self,
        mesh: u64,
        bytes: &Vec<u8>,
        record_size: usize,
        record_count: usize,
        usage: u32,
    ) -> (r: Option<u64>) {
        proof {
            use_type_invariant(&*self);
        }
        if self.fail_next || self.next_handle == u64::MAX || self.allocations == u64::MAX {
            self.fail_next = false;
            return None;
        }
        let handle = self.next_handle;
        let stored = copy_bytes(bytes);
        let ghost before = self.pairs();
        let mut bufs: Vec<(u64, Vec<u8>)> = Vec::new();
        std::mem::swap(&mut bufs, &mut self.buffers);
        proof {
            assert(self.pairs() =~= Seq::<(u64, Seq<u8>)>::empty());
        }
        bufs.push((handle, stored));
        self.next_handle = self.next_handle + 1;
        self.allocations = self.allocations + 1;
        proof {
            let pushed = bufs@.map_values(|p: (u64, Vec<u8>)| (p.0, p.1@));
            assert(pushed =~= before.push((handle, bytes@)));
            assert(pushed.drop_last() =~= before);
            assert(forall|u: int| 0 <= u < before.len() ==> pushed[u] == before[u]);
            assert(keys_distinct(pushed));
        }
        self.buffers = bufs;
        proof {
            assert(self.pairs() =~= before.push((handle, bytes@)));
            assert(self.pairs().drop_last() =~= before);
            lemma_assoc_map_dom(before);
            assert(!assoc_map(before).dom().contains(handle));
            assert(assoc_map(self.pairs()) == assoc_map(before).insert(handle, bytes@));
            assert(assoc_map(self.pairs()).dom() =~= assoc_map(before).dom().insert(handle));
        }
        Some(handle)
    }

    fn remove_buffer(&mut self, handle: u64) {
        proof {
            use_type_invariant(&*self);
            lemma_assoc_map_dom(self.pairs());
        }
        let n = self.buffers.len();
        let mut t: usize = 0;
        while t < n
            invariant
                n == self.buffers@.len(),
                t <= n,
                *self == *old(self),
                old(self).live().contains(handle),
                keys_distinct(self.pairs()),
                exists|u: int| t <= u < self.pairs().len() && self.pairs()[u].0 == handle,
            decreases n - t,
        {
            if self.buffers[t].0 == handle {
                let ghost before = self.pairs();
                proof {
                    use_type_invariant(&*self);
                    lemma_assoc_map_dom(before);
                    assert(before[t as int].0 == handle);
                    lemma_assoc_map_remove(before, t as int);
                    lemma_keys_distinct_remove(before, t as int);
                    assert(forall|u: int|
                        0 <= u < before.remove(t as int).len() ==> before.remove(t as int)[u]
                            == if u < t as int {
                            before[u]
                        } else {
                            before[u + 1]
                        });
                }
                proof {
                    assert(self.disposals + before.len() <= self.allocations);
                    assert(self.disposals < u64::MAX);
                }
                let mut bufs: Vec<(u64, Vec<u8>)> = Vec::new();
                std::mem::swap(&mut bufs, &mut self.buffers);
                proof {
                    assert(self.pairs() =~= Seq::<(u64, Seq<u8>)>::empty());
                }
                let _ = bufs.remove(t);
                self.disposals = self.disposals + 1;
                proof {
                    let shrunk = bufs@.map_values(|p: (u64, Vec<u8>)| (p.0, p.1@));
                    assert(shrunk =~= before.remove(t as int));
                }
                self.buffers = bufs;
                proof {
                    assert(self.pairs() =~= before.remove(t as int));
                }
                return ;
            }
            proof {
                let u = choose|u: int|
                    t <= u < self.pairs().len() && self.pairs()[u].0 == handle;
                assert(u != t);
            }
            t = t + 1;
        }
        proof {
            assert(false);
        }
    }
}

} // verus!
