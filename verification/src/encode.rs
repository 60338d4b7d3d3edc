//! The instance-data encoder and its byte layout.
//!
//! One fixed-layout record is produced per visited slot that still carries
//! drawable state, in visitation order.  The depth channel of record `t` is
//! the caller-supplied bit pattern `depths[t]`; the encoder guarantees only
//! the pairing of records with depth-table positions, never anything about
//! the numeric values behind the bits.  The records are then serialized to a
//! tightly packed little-endian byte buffer, nine 32-bit words per record,
//! the wire format the instanced rectangle pipeline consumes.

use vstd::prelude::*;
use crate::scene::{EntitySlot, NodeData, Scene};
use crate::walk::{ints_of, visit_order, visit_order_spec};

verus! {

/// One packed instance record.  Field order is the wire order; every field is
/// a 32-bit IEEE-754 bit pattern.
#[derive(Clone, Copy, PartialEq, Eq, Structural, Debug)]
pub struct RectData {
    pub position_x: u32,
    pub position_y: u32,
    pub size_x: u32,
    pub size_y: u32,
    pub color_r: u32,
    pub color_g: u32,
    pub color_b: u32,
    pub color_a: u32,
    pub z_index: u32,
}

/// The packed size of one record in bytes: nine 32-bit words.
pub const RECT_DATA_BYTES: usize = 36;

/// The record for node state `n` at depth bit pattern `depth`.
pub open spec fn rect_of(n: NodeData, depth: u32) -> RectData {
    RectData {
        position_x: n.position_x,
        position_y: n.position_y,
        size_x: n.size_x,
        size_y: n.size_y,
        color_r: n.color_r,
        color_g: n.color_g,
        color_b: n.color_b,
        color_a: n.color_a,
        z_index: depth,
    }
}

/// Of a visitation order, the indices that emit a record: those whose slot
/// still carries drawable state, in visitation order.
pub open spec fn emitted_of(s: Seq<EntitySlot>, order: Seq<int>) -> Seq<int>
    decreases order.len(),
{
    if order.len() == 0 {
        Seq::empty()
    } else {
        emitted_of(s, order.drop_last()) + (if 0 <= order.last() < s.len() && s[order.last()].node
            is Some {
            seq![order.last()]
        } else {
            Seq::empty()
        })
    }
}

/// The record-emitting slot indices of one pass over snapshot `s`.
pub open spec fn spec_emitted(s: Seq<EntitySlot>) -> Seq<int> {
    emitted_of(s, visit_order_spec(s))
}

/// How many records one pass over snapshot `s` produces.
pub open spec fn spec_record_count(s: Seq<EntitySlot>) -> nat {
    spec_emitted(s).len()
}

/// The records of one pass over snapshot `s` with depth table `depths`.
pub open spec fn spec_rects(s: Seq<EntitySlot>, depths: Seq<u32>) -> Seq<RectData> {
    Seq::new(
        spec_emitted(s).len(),
        |t: int| rect_of(s[spec_emitted(s)[t]].node->Some_0, depths[t]),
    )
}

/// Splitting a visitation order splits its emitted indices.
pub proof fn lemma_emitted_of_concat(s: Seq<EntitySlot>, a: Seq<int>, b: Seq<int>)
    ensures
        emitted_of(s, a + b) == emitted_of(s, a) + emitted_of(s, b),
    decreases b.len(),
{
    if b.len() == 0 {
        assert(a + b =~= a);
        assert(emitted_of(s, b) == Seq::<int>::empty());
        assert(emitted_of(s, a) + Seq::<int>::empty() =~= emitted_of(s, a));
    } else {
        assert((a + b).drop_last() =~= a + b.drop_last());
        assert((a + b).last() == b.last());
        lemma_emitted_of_concat(s, a, b.drop_last());
        assert(emitted_of(s, a + b) =~= emitted_of(s, a) + emitted_of(s, b));
    }
}

/// Every emitted index lies in its visitation order.
pub proof fn lemma_emitted_le_order(s: Seq<EntitySlot>, order: Seq<int>)
    ensures
        emitted_of(s, order).len() <= order.len(),
    decreases order.len(),
{
    if order.len() > 0 {
        lemma_emitted_le_order(s, order.drop_last());
    }
}

/// Counts the records one pass over `scene` would produce.
pub fn count_records(scene: &Scene) -> (n: usize)
    requires
        scene.wf(),
    ensures
        n == spec_record_count(scene@),
{
    let ghost s = scene@;
    let order = visit_order(scene);
    let mut n: usize = 0;
    let mut t: usize = 0;
    proof {
        assert(ints_of(order@).take(0) =~= Seq::<int>::empty());
        assert(emitted_of(s, Seq::<int>::empty()) == Seq::<int>::empty());
    }
    while t < order.len()
        invariant
            scene.wf(),
            s == scene@,
            t <= order@.len(),
            ints_of(order@) == visit_order_spec(s),
            n as int == emitted_of(s, ints_of(order@).take(t as int)).len(),
            n <= t,
        decreases order@.len() - t,
    {
        let ghost prefix = ints_of(order@).take(t as int);
        let j = order[t];
        let emits = j < scene.entities.len() && scene.entities[j].node.is_some();
        proof {
            let step = ints_of(order@).take(t as int + 1);
            assert(step.drop_last() =~= prefix);
            assert(step.last() == j as int);
            assert(emitted_of(s, step) == emitted_of(s, prefix) + (if 0 <= (j as int) < s.len()
                && s[j as int].node is Some {
                seq![j as int]
            } else {
                Seq::<int>::empty()
            }));
        }
        if emits {
            n = n + 1;
        }
        t = t + 1;
    }
    proof {
        assert(ints_of(order@).take(order@.len() as int) =~= ints_of(order@));
    }
    n
}

/// Builds the instance records of one pass: one record per visited slot that
/// carries drawable state, in visitation order, record `t` taking the depth
/// bit pattern `depths[t]`.
pub fn collect_rects(scene: &Scene, depths: &Vec<u32>) -> (rects: Vec<RectData>)
    requires
        scene.wf(),
        depths@.len() == spec_record_count(scene@),
    ensures
        rects@ == spec_rects(scene@, depths@),
{
    let ghost s = scene@;
    let ghost full: Seq<int> = spec_emitted(s);
    let order = visit_order(scene);
    let mut rects: Vec<RectData> = Vec::new();
    let mut t: usize = 0;
    proof {
        assert(ints_of(order@).take(0) =~= Seq::<int>::empty());
        assert(emitted_of(s, Seq::<int>::empty()) == Seq::<int>::empty());
    }
    while t < order.len()
        invariant
            scene.wf(),
            s == scene@,
            full == spec_emitted(s),
            t <= order@.len(),
            depths@.len() == full.len(),
            ints_of(order@) == visit_order_spec(s),
            rects@.len() == emitted_of(s, ints_of(order@).take(t as int)).len(),
            emitted_of(s, ints_of(order@).take(t as int)) == full.take(rects@.len() as int),
            forall|u: int|
                0 <= u < rects@.len() ==> rects@[u] == rect_of(s[full[u]].node->Some_0, depths@[u]),
        decreases order@.len() - t,
    {
        let ghost prefix = ints_of(order@).take(t as int);
        let j = order[t];
        proof {
            let step = ints_of(order@).take(t as int + 1);
            assert(step.drop_last() =~= prefix);
            assert(step.last() == j as int);
            assert(emitted_of(s, step) == emitted_of(s, prefix) + (if 0 <= (j as int) < s.len()
                && s[j as int].node is Some {
                seq![j as int]
            } else {
                Seq::<int>::empty()
            }));
            assert(ints_of(order@) =~= prefix + ints_of(order@).skip(t as int));
            lemma_emitted_of_concat(s, prefix, ints_of(order@).skip(t as int));
        }
        let emits = j < scene.entities.len() && scene.entities[j].node.is_some();
        if emits {
            let ghost count = rects@.len() as int;
            proof {
                // The next emitted index is full[count]: the prefix of emitted
                // indices processed so far extends by exactly this slot.
                assert(emitted_of(s, ints_of(order@).take(t as int + 1)) == full.take(count)
                    + seq![j as int]);
                assert(full.len() > count) by {
                    assert(emitted_of(s, ints_of(order@)) == emitted_of(s, prefix) + emitted_of(
                        s,
                        ints_of(order@).skip(t as int),
                    ));
                    assert(emitted_of(s, ints_of(order@).take(t as int + 1)).len() <= full.len())
                        by {
                        assert(ints_of(order@) =~= ints_of(order@).take(t as int + 1) + ints_of(
                            order@,
                        ).skip(t as int + 1));
                        lemma_emitted_of_concat(
                            s,
                            ints_of(order@).take(t as int + 1),
                            ints_of(order@).skip(t as int + 1),
                        );
                    }
                }
                assert(full.take(count + 1) =~= full.take(count) + seq![full[count]]);
                assert(full[count] == j as int) by {
                    assert(emitted_of(s, ints_of(order@)) == emitted_of(s, prefix) + emitted_of(
                        s,
                        ints_of(order@).skip(t as int),
                    ));
                    assert(full.take(count + 1)[count] == full[count]);
                    assert((full.take(count) + seq![j as int])[count] == j as int);
                    assert(emitted_of(s, ints_of(order@).take(t as int + 1)) =~= full.take(
                        count + 1,
                    )) by {
                        assert(ints_of(order@) =~= ints_of(order@).take(t as int + 1) + ints_of(
                            order@,
                        ).skip(t as int + 1));
                        lemma_emitted_of_concat(
                            s,
                            ints_of(order@).take(t as int + 1),
                            ints_of(order@).skip(t as int + 1),
                        );
                        lemma_emitted_le_order(s, ints_of(order@).skip(t as int + 1));
                        assert(emitted_of(s, ints_of(order@)) =~= full);
                        let head = emitted_of(s, ints_of(order@).take(t as int + 1));
                        let tail = emitted_of(s, ints_of(order@).skip(t as int + 1));
                        assert(full == head + tail);
                        assert(head.len() == count + 1);
                        assert(head =~= full.take(count + 1));
                    }
                }
            }
            let slot = scene.entities[j];
            let node = slot.node.unwrap();
            let depth = depths[rects.len()];
            rects.push(
                RectData {
                    position_x: node.position_x,
                    position_y: node.position_y,
                    size_x: node.size_x,
                    size_y: node.size_y,
                    color_r: node.color_r,
                    color_g: node.color_g,
                    color_b: node.color_b,
                    color_a: node.color_a,
                    z_index: depth,
                },
            );
        }
        t = t + 1;
    }
    proof {
        assert(ints_of(order@).take(order@.len() as int) =~= ints_of(order@));
        assert(full.take(rects@.len() as int) =~= full);
        assert(rects@ =~= spec_rects(s, depths@));
    }
    rects
}

} // verus!
