//! The named-resource registry other pipeline stages read.
//!
//! A shared mapping from symbolic names to resource handles.  Publication is
//! last-writer-wins: setting a name overwrites its previous binding in one
//! step, so a reader resolves either the old handle or the new one, never a
//! half-written state.

use vstd::prelude::*;
use crate::assoc::{
    assoc_map, keys_distinct, lemma_assoc_map_dom, lemma_assoc_map_index, lemma_assoc_map_remove,
    lemma_keys_distinct_remove,
};

verus! {

/// A table of named render resources.
pub struct RenderResources {
    entries: Vec<(String, u64)>,
}

impl RenderResources {
    /// The association sequence the table denotes, names as character
    /// sequences.
    pub closed spec fn pairs(&self) -> Seq<(Seq<char>, u64)> {
        self.entries@.map_values(|p: (String, u64)| (p.0@, p.1))
    }

    #[verifier::type_invariant]
    spec fn inv(&self) -> bool {
        keys_distinct(self.pairs())
    }

    /// The mapping from names to handles.
    pub open spec fn bindings(&self) -> Map<Seq<char>, u64> {
        assoc_map(self.pairs())
    }

    /// An empty registry.
    pub fn new() -> (r: RenderResources)
        ensures
            r.bindings() == Map::<Seq<char>, u64>::empty(),
    {
        let r = RenderResources { entries: Vec::new() };
        proof {
            assert(r.pairs() =~= Seq::<(Seq<char>, u64)>::empty());
        }
        r
    }

    /// Binds `name` to `handle`, overwriting any previous binding of the
    /// name and leaving every other binding as it was.
    pub fn set_named_resource(&mut self, name: String, handle: u64)
        ensures
            final(self).bindings() == old(self).bindings().insert(name@, handle),
    {
        proof {
            use_type_invariant(&*self);
            lemma_assoc_map_dom(self.pairs());
        }
        let ghost orig = self.pairs();
        let n = self.entries.len();
        let search = self.find_name(&name);
        if let Some(found) = search {
            proof {
                use_type_invariant(&*self);
                lemma_assoc_map_dom(orig);
                lemma_assoc_map_remove(orig, found as int);
                lemma_keys_distinct_remove(orig, found as int);
                assert(forall|u: int|
                    0 <= u < orig.remove(found as int).len() ==> orig.remove(found as int)[u]
                        == if u < found as int {
                        orig[u]
                    } else {
                        orig[u + 1]
                    });
            }
            let mut table: Vec<(String, u64)> = Vec::new();
            std::mem::swap(&mut table, &mut self.entries);
            proof {
                assert(self.pairs() =~= Seq::<(Seq<char>, u64)>::empty());
            }
            let _ = table.remove(found);
            proof {
                let shrunk = table@.map_values(|p: (String, u64)| (p.0@, p.1));
                assert(shrunk =~= orig.remove(found as int));
            }
            self.entries = table;
            proof {
                assert(self.pairs() =~= orig.remove(found as int));
                // Dropping the stale pair drops exactly the rebound name, so
                // reinserting it below yields the overwrite the contract
                // states.
                assert(assoc_map(self.pairs()) == assoc_map(orig).remove(name@));
            }
        }
        let ghost mid = self.pairs();
        proof {
            use_type_invariant(&*self);
            lemma_assoc_map_dom(mid);
            if search is None {
                assert(mid == orig);
            }
            assert(!assoc_map(mid).dom().contains(name@));
        }
        let mut table: Vec<(String, u64)> = Vec::new();
        std::mem::swap(&mut table, &mut self.entries);
        proof {
            assert(self.pairs() =~= Seq::<(Seq<char>, u64)>::empty());
        }
        table.push((name, handle));
        proof {
            let pushed = table@.map_values(|p: (String, u64)| (p.0@, p.1));
            assert(pushed =~= mid.push((name@, handle)));
            assert(pushed.drop_last() =~= mid);
            assert(forall|u: int| 0 <= u < mid.len() ==> pushed[u] == mid[u]);
            assert(keys_distinct(pushed));
        }
        self.entries = table;
        proof {
            assert(self.pairs() =~= mid.push((name@, handle)));
            assert(self.pairs().drop_last() =~= mid);
            assert(assoc_map(self.pairs()) == assoc_map(mid).insert(name@, handle));
            assert(assoc_map(self.pairs()) =~= assoc_map(orig).insert(name@, handle));
        }
    }

    /// Resolves a name to its bound handle, if any.
    pub fn get_named_resource(&self, name: &String) -> (r: Option<u64>)
        ensures
            r == if self.bindings().dom().contains(name@) {
                Some(self.bindings()[name@])
            } else {
                None::<u64>
            },
    {
        proof {
            use_type_invariant(&*self);
            lemma_assoc_map_dom(self.pairs());
        }
        match self.find_name(name) {
            Some(t) => {
                proof {
                    use_type_invariant(&*self);
                    lemma_assoc_map_index(self.pairs(), t as int);
                }
                Some(self.entries[t].1)
            },
            None => {
                proof {
                    assert(!(exists|u: int|
                        0 <= u < self.pairs().len() && self.pairs()[u].0 == name@));
                    assert(!self.bindings().dom().contains(name@));
                }
                None
            },
        }
    }

    /// The position of a name's pair in the table, if the name is bound.
    fn find_name(&self, name: &String) -> (r: Option<usize>)
        ensures
            match r {
                Some(t) => (t as int) < self.pairs().len() && self.pairs()[t as int].0 == name@,
                None => forall|u: int| 0 <= u < self.pairs().len() ==> self.pairs()[u].0 != name@,
            },
    {
        let n = self.entries.len();
        let mut t: usize = 0;
        while t < n
            invariant
                n == self.entries@.len(),
                t <= n,
                forall|u: int| 0 <= u < t ==> self.pairs()[u].0 != name@,
            decreases n - t,
        {
            let hit = self.entries[t].0 == *name;
            if hit {
                proof {
                    assert(self.pairs()[t as int].0 == name@);
                }
                return Some(t);
            }
            t = t + 1;
        }
        None
    }
}

} // verus!
