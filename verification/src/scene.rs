//! The scene-graph snapshot the synchronization pass reads.
//!
//! A snapshot is a flat table of entity slots.  Each slot may carry drawable
//! node state and may name a parent slot.  Parent indices always point at
//! earlier slots, which makes the parent relation a forest and gives every
//! traversal an obvious termination measure.

use vstd::prelude::*;

verus! {

/// Drawable state of one UI node.  Every channel is the bit pattern of a
/// 32-bit IEEE-754 float; the synchronization pass copies these bits through
/// unchanged, so no float arithmetic ever happens here.
#[derive(Clone, Copy, PartialEq, Eq, Structural, Debug)]
pub struct NodeData {
    pub position_x: u32,
    pub position_y: u32,
    pub size_x: u32,
    pub size_y: u32,
    pub color_r: u32,
    pub color_g: u32,
    pub color_b: u32,
    pub color_a: u32,
}

/// One entity slot of a snapshot.
///
/// `node` is absent when the entity carries no drawable state (for instance
/// when it disappeared between discovery and visit); such a slot is still
/// traversed but emits no record.  `parent` is absent for root entities.
#[derive(Clone, Copy, PartialEq, Eq, Structural, Debug)]
pub struct EntitySlot {
    pub node: Option<NodeData>,
    pub parent: Option<usize>,
}

/// An immutable snapshot of the scene graph for one synchronization pass.
pub struct Scene {
    pub entities: Vec<EntitySlot>,
}

impl View for Scene {
    type V = Seq<EntitySlot>;

    open spec fn view(&self) -> Seq<EntitySlot> {
        self.entities@
    }
}

/// A slot table is well formed when every parent index names an earlier slot:
/// the parent relation is then acyclic by construction.
pub open spec fn wf_slots(s: Seq<EntitySlot>) -> bool {
    forall|j: int|
        0 <= j < s.len() && s[j].parent is Some ==> (s[j].parent->Some_0 as int) < j
}

/// A root is an entity that carries drawable state and names no parent.
pub open spec fn is_root(s: Seq<EntitySlot>, j: int) -> bool {
    0 <= j < s.len() && s[j].parent is None && s[j].node is Some
}

impl Scene {
    /// Well-formedness of the snapshot.
    pub open spec fn wf(&self) -> bool {
        wf_slots(self@)
    }

    /// An empty snapshot.
    pub fn new() -> (s: Scene)
        ensures
            s@ == Seq::<EntitySlot>::empty(),
            s.wf(),
    {
        Scene { entities: Vec::new() }
    }

    /// Appends a slot and returns its index.  The parent, if any, must name
    /// an existing slot, which keeps the snapshot well formed.
    pub fn push_slot(&mut self, node: Option<NodeData>, parent: Option<usize>) -> (idx: usize)
        requires
            old(self).wf(),
            parent is Some ==> (parent->Some_0 as int) < old(self)@.len(),
        ensures
            final(self)@ == old(self)@.push(EntitySlot { node, parent }),
            final(self).wf(),
            idx as int == old(self)@.len(),
    {
        let idx = self.entities.len();
        self.entities.push(EntitySlot { node, parent });
        proof {
            assert forall|j: int|
                0 <= j < self@.len() && self@[j].parent is Some implies (self@[j].parent->Some_0 as int)
                < j by {
                if j < old(self)@.len() {
                    assert(self@[j] == old(self)@[j]);
                }
            }
        }
        idx
    }

    /// The number of entity slots.
    pub fn len(&self) -> (n: usize)
        ensures
            n == self@.len(),
    {
        self.entities.len()
    }
}

} // verus!
