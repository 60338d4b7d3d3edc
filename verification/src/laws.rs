//! Proved properties of a whole synchronization pass.
//!
//! The central result: over a well-formed snapshot in which every slot still
//! carries drawable state, one pass visits every slot exactly once, so it
//! emits exactly one record per slot.  Alongside it stand the buffer
//! lifecycle laws: a replacing pass always returns a handle distinct from
//! the replaced one, and disposals always lag allocations by exactly the one
//! buffer still tracked.

use vstd::prelude::*;
use crate::encode::{emitted_of, spec_record_count, spec_rects};
use crate::scene::{EntitySlot, is_root, wf_slots};
use crate::walk::{child_of, preorder, roots_preorder, visit_children, visit_order_spec};

verus! {

/// Membership of a concatenation, left part.
proof fn lemma_contains_left<A>(a: Seq<A>, b: Seq<A>, x: A)
    requires
        a.contains(x),
    ensures
        (a + b).contains(x),
{
    let t = choose|t: int| 0 <= t < a.len() && a[t] == x;
    assert((a + b)[t] == x);
}

/// Membership of a concatenation, right part.
proof fn lemma_contains_right<A>(a: Seq<A>, b: Seq<A>, x: A)
    requires
        b.contains(x),
    ensures
        (a + b).contains(x),
{
    let t = choose|t: int| 0 <= t < b.len() && b[t] == x;
    assert((a + b)[t + a.len()] == x);
}

/// Membership of a concatenation comes from one of its parts.
proof fn lemma_contains_split<A>(a: Seq<A>, b: Seq<A>, x: A)
    requires
        (a + b).contains(x),
    ensures
        a.contains(x) || b.contains(x),
{
    let t = choose|t: int| 0 <= t < (a + b).len() && (a + b)[t] == x;
    if t < a.len() {
        assert(a[t] == x);
    } else {
        assert(b[t - a.len()] == x);
    }
}

/// Concatenating duplicate-free sequences with no common element stays
/// duplicate free.
proof fn lemma_no_dup_add<A>(a: Seq<A>, b: Seq<A>)
    requires
        a.no_duplicates(),
        b.no_duplicates(),
        forall|x: A| !(a.contains(x) && b.contains(x)),
    ensures
        (a + b).no_duplicates(),
{
    assert forall|t1: int, t2: int|
        0 <= t1 < t2 < (a + b).len() implies (a + b)[t1] != (a + b)[t2] by {
        if t1 < a.len() && t2 >= a.len() {
            assert(a.contains(a[t1]));
            assert(b.contains(b[t2 - a.len()]));
        }
    }
}

/// Slot `j` lies in the subtree rooted at slot `i`.
pub open spec fn desc(s: Seq<EntitySlot>, j: int, i: int) -> bool
    decreases j,
{
    if j == i {
        true
    } else if 0 <= j < s.len() && s[j].parent is Some && (s[j].parent->Some_0 as int) < j {
        desc(s, s[j].parent->Some_0 as int, i)
    } else {
        false
    }
}

/// A descendant never precedes its ancestor, and is a real slot unless it is
/// the ancestor itself.
proof fn lemma_desc_bounds(s: Seq<EntitySlot>, j: int, i: int)
    requires
        desc(s, j, i),
    ensures
        i <= j,
        j == i || 0 <= j < s.len(),
    decreases j,
{
    if j != i {
        lemma_desc_bounds(s, s[j].parent->Some_0 as int, i);
    }
}

/// Two ancestors of one slot lie on one parent chain.
proof fn lemma_desc_chain(s: Seq<EntitySlot>, j: int, a: int, b: int)
    requires
        desc(s, j, a),
        desc(s, j, b),
    ensures
        desc(s, a, b) || desc(s, b, a),
    decreases j,
{
    if j != a && j != b {
        lemma_desc_chain(s, s[j].parent->Some_0 as int, a, b);
    }
}

/// A strict descendant descends through some child of the ancestor.
proof fn lemma_desc_step(s: Seq<EntitySlot>, x: int, i: int)
    requires
        wf_slots(s),
        desc(s, x, i),
        x != i,
    ensures
        exists|c: int| child_of(s, c, i) && desc(s, x, c) && i < c < s.len(),
    decreases x,
{
    let p = s[x].parent->Some_0 as int;
    if p == i {
        assert(child_of(s, x, i) && desc(s, x, x));
        lemma_desc_bounds(s, x, i);
    } else {
        lemma_desc_step(s, p, i);
        let c = choose|c: int| child_of(s, c, i) && desc(s, p, c) && i < c < s.len();
        assert(desc(s, x, c));
    }
}

/// Subtrees of two distinct children of one parent share no slot.
proof fn lemma_children_disjoint(s: Seq<EntitySlot>, i: int, c1: int, c2: int, x: int)
    requires
        wf_slots(s),
        child_of(s, c1, i),
        child_of(s, c2, i),
        c1 != c2,
        desc(s, x, c1),
    ensures
        !desc(s, x, c2),
{
    if desc(s, x, c2) {
        lemma_desc_chain(s, x, c1, c2);
        if desc(s, c1, c2) {
            assert(desc(s, i, c2) || c1 == c2);
            lemma_desc_bounds(s, i, c2);
        } else {
            assert(desc(s, i, c1) || c2 == c1);
            lemma_desc_bounds(s, i, c1);
        }
    }
}

/// What a subtree visitation holds: exactly the descendants of its root.
proof fn lemma_preorder_elems(s: Seq<EntitySlot>, i: int)
    requires
        wf_slots(s),
        0 <= i < s.len(),
    ensures
        forall|x: int| preorder(s, i).contains(x) ==> desc(s, x, i) && i <= x < s.len(),
    decreases s.len() - i, s.len() - i,
{
    lemma_vc_elems(s, i, i + 1);
    assert forall|x: int| preorder(s, i).contains(x) implies desc(s, x, i) && i <= x
        < s.len() by {
        lemma_contains_split(seq![i], visit_children(s, i, i + 1), x);
        if seq![i].contains(x) {
            assert(x == i);
        } else {
            let c = choose|c: int|
                (i + 1) <= c < s.len() && child_of(s, c, i) && desc(s, x, c);
            assert(desc(s, x, i)) by {
                lemma_desc_implies_parent(s, x, c, i);
            }
            lemma_desc_bounds(s, x, c);
        }
    }
}

/// Descending to a child then to its parent is descending to the parent.
proof fn lemma_desc_implies_parent(s: Seq<EntitySlot>, x: int, c: int, i: int)
    requires
        wf_slots(s),
        child_of(s, c, i),
        desc(s, x, c),
    ensures
        desc(s, x, i),
    decreases x,
{
    if x == c {
        assert(desc(s, i, i));
        assert(s[c].parent->Some_0 as int == i);
        assert((s[c].parent->Some_0 as int) < c);
        assert(desc(s, c, i));
    } else {
        lemma_desc_implies_parent(s, s[x].parent->Some_0 as int, c, i);
    }
}

/// What a child-range visitation holds: the descendants of the children at
/// or beyond the range start.
proof fn lemma_vc_elems(s: Seq<EntitySlot>, i: int, k: int)
    requires
        wf_slots(s),
        0 <= i < s.len(),
        i < k,
    ensures
        forall|x: int|
            visit_children(s, i, k).contains(x) ==> exists|c: int|
                k <= c < s.len() && child_of(s, c, i) && desc(s, x, c),
    decreases s.len() - i, s.len() - k,
{
    if k < s.len() {
        lemma_vc_elems(s, i, k + 1);
        if child_of(s, k, i) {
            lemma_preorder_elems(s, k);
        }
        assert forall|x: int| visit_children(s, i, k).contains(x) implies exists|c: int|
            k <= c < s.len() && child_of(s, c, i) && desc(s, x, c) by {
            let head: Seq<int> = if child_of(s, k, i) {
                preorder(s, k)
            } else {
                Seq::empty()
            };
            lemma_contains_split(head, visit_children(s, i, k + 1), x);
            if head.contains(x) {
                assert(k <= k < s.len() && child_of(s, k, i) && desc(s, x, k));
            } else {
                let c = choose|c: int|
                    (k + 1) <= c < s.len() && child_of(s, c, i) && desc(s, x, c);
                assert(k <= c < s.len() && child_of(s, c, i) && desc(s, x, c));
            }
        }
    }
}

/// Every descendant of the root is visited in its subtree pass.
proof fn lemma_preorder_complete(s: Seq<EntitySlot>, i: int, x: int)
    requires
        wf_slots(s),
        0 <= i < s.len(),
        desc(s, x, i),
    ensures
        preorder(s, i).contains(x),
    decreases s.len() - i, s.len() - i,
{
    if x == i {
        assert(seq![i][0] == i);
        assert(seq![i].contains(i));
        lemma_contains_left(seq![i], visit_children(s, i, i + 1), i);
    } else {
        lemma_desc_step(s, x, i);
        let c = choose|c: int| child_of(s, c, i) && desc(s, x, c) && i < c < s.len();
        lemma_vc_complete(s, i, i + 1, c, x);
        lemma_contains_right(seq![i], visit_children(s, i, i + 1), x);
    }
}

/// Every descendant of a child at or beyond the range start is visited in
/// the child-range pass.
proof fn lemma_vc_complete(s: Seq<EntitySlot>, i: int, k: int, c: int, x: int)
    requires
        wf_slots(s),
        0 <= i < s.len(),
        i < k <= c,
        child_of(s, c, i),
        desc(s, x, c),
    ensures
        visit_children(s, i, k).contains(x),
    decreases s.len() - i, s.len() - k,
{
    let head: Seq<int> = if child_of(s, k, i) {
        preorder(s, k)
    } else {
        Seq::empty()
    };
    if k == c {
        lemma_preorder_complete(s, c, x);
        lemma_contains_left(head, visit_children(s, i, k + 1), x);
    } else {
        lemma_vc_complete(s, i, k + 1, c, x);
        lemma_contains_right(head, visit_children(s, i, k + 1), x);
    }
}

/// A subtree visitation names no slot twice.
proof fn lemma_preorder_no_dup(s: Seq<EntitySlot>, i: int)
    requires
        wf_slots(s),
        0 <= i < s.len(),
    ensures
        preorder(s, i).no_duplicates(),
    decreases s.len() - i, s.len() - i,
{
    lemma_vc_no_dup(s, i, i + 1);
    lemma_vc_elems(s, i, i + 1);
    assert forall|x: int|
        !(seq![i].contains(x) && visit_children(s, i, i + 1).contains(x)) by {
        if seq![i].contains(x) && visit_children(s, i, i + 1).contains(x) {
            let c = choose|c: int|
                (i + 1) <= c < s.len() && child_of(s, c, i) && desc(s, x, c);
            lemma_desc_bounds(s, x, c);
        }
    }
    lemma_no_dup_add(seq![i], visit_children(s, i, i + 1));
}

/// A child-range visitation names no slot twice.
proof fn lemma_vc_no_dup(s: Seq<EntitySlot>, i: int, k: int)
    requires
        wf_slots(s),
        0 <= i < s.len(),
        i < k,
    ensures
        visit_children(s, i, k).no_duplicates(),
    decreases s.len() - i, s.len() - k,
{
    if k < s.len() {
        lemma_vc_no_dup(s, i, k + 1);
        let head: Seq<int> = if child_of(s, k, i) {
            preorder(s, k)
        } else {
            Seq::empty()
        };
        if child_of(s, k, i) {
            lemma_preorder_no_dup(s, k);
            lemma_preorder_elems(s, k);
        }
        lemma_vc_elems(s, i, k + 1);
        assert forall|x: int|
            !(head.contains(x) && visit_children(s, i, k + 1).contains(x)) by {
            if head.contains(x) && visit_children(s, i, k + 1).contains(x) {
                let c = choose|c: int|
                    (k + 1) <= c < s.len() && child_of(s, c, i) && desc(s, x, c);
                lemma_children_disjoint(s, i, k, c, x);
            }
        }
        lemma_no_dup_add(head, visit_children(s, i, k + 1));
    }
}

/// Every slot has a parentless ancestor.
proof fn lemma_has_root(s: Seq<EntitySlot>, j: int)
    requires
        wf_slots(s),
        0 <= j < s.len(),
    ensures
        exists|r: int| 0 <= r < s.len() && s[r].parent is None && desc(s, j, r),
    decreases j,
{
    if s[j].parent is None {
        assert(desc(s, j, j));
    } else {
        let p = s[j].parent->Some_0 as int;
        lemma_has_root(s, p);
        let r = choose|r: int| 0 <= r < s.len() && s[r].parent is None && desc(s, p, r);
        assert(desc(s, j, r));
    }
}

/// What a root-range visitation holds: the descendants of roots at or beyond
/// the range start.
proof fn lemma_roots_elems(s: Seq<EntitySlot>, k: int)
    requires
        wf_slots(s),
    ensures
        forall|x: int|
            roots_preorder(s, k).contains(x) ==> exists|r: int|
                k <= r < s.len() && is_root(s, r) && desc(s, x, r),
    decreases s.len() - k,
{
    if 0 <= k < s.len() {
        lemma_roots_elems(s, k + 1);
        let head: Seq<int> = if is_root(s, k) {
            preorder(s, k)
        } else {
            Seq::empty()
        };
        if is_root(s, k) {
            lemma_preorder_elems(s, k);
        }
        assert forall|x: int| roots_preorder(s, k).contains(x) implies exists|r: int|
            k <= r < s.len() && is_root(s, r) && desc(s, x, r) by {
            lemma_contains_split(head, roots_preorder(s, k + 1), x);
            if head.contains(x) {
                assert(k <= k < s.len() && is_root(s, k) && desc(s, x, k));
            } else {
                let r = choose|r: int|
                    (k + 1) <= r < s.len() && is_root(s, r) && desc(s, x, r);
                assert(k <= r < s.len() && is_root(s, r) && desc(s, x, r));
            }
        }
    }
}

/// Every descendant of a root at or beyond the range start is visited.
proof fn lemma_roots_complete(s: Seq<EntitySlot>, k: int, r: int, x: int)
    requires
        wf_slots(s),
        0 <= k <= r < s.len(),
        is_root(s, r),
        desc(s, x, r),
    ensures
        roots_preorder(s, k).contains(x),
    decreases s.len() - k,
{
    let head: Seq<int> = if is_root(s, k) {
        preorder(s, k)
    } else {
        Seq::empty()
    };
    if k == r {
        lemma_preorder_complete(s, r, x);
        lemma_contains_left(head, roots_preorder(s, k + 1), x);
    } else {
        lemma_roots_complete(s, k + 1, r, x);
        lemma_contains_right(head, roots_preorder(s, k + 1), x);
    }
}

/// A root-range visitation names no slot twice.
proof fn lemma_roots_no_dup(s: Seq<EntitySlot>, k: int)
    requires
        wf_slots(s),
    ensures
        roots_preorder(s, k).no_duplicates(),
    decreases s.len() - k,
{
    if 0 <= k < s.len() {
        lemma_roots_no_dup(s, k + 1);
        let head: Seq<int> = if is_root(s, k) {
            preorder(s, k)
        } else {
            Seq::empty()
        };
        if is_root(s, k) {
            lemma_preorder_no_dup(s, k);
            lemma_preorder_elems(s, k);
        }
        lemma_roots_elems(s, k + 1);
        assert forall|x: int|
            !(head.contains(x) && roots_preorder(s, k + 1).contains(x)) by {
            if head.contains(x) && roots_preorder(s, k + 1).contains(x) {
                let r = choose|r: int|
                    (k + 1) <= r < s.len() && is_root(s, r) && desc(s, x, r);
                lemma_desc_chain(s, x, k, r);
                lemma_desc_bounds(s, k, r);
                lemma_desc_bounds(s, r, k);
            }
        }
        lemma_no_dup_add(head, roots_preorder(s, k + 1));
    }
}

/// With every slot drawable, each visited slot emits exactly one record.
proof fn lemma_emitted_full(s: Seq<EntitySlot>, order: Seq<int>)
    requires
        forall|t: int| 0 <= t < order.len() ==> 0 <= order[t] < s.len() && s[order[t]].node
            is Some,
    ensures
        emitted_of(s, order).len() == order.len(),
    decreases order.len(),
{
    if order.len() > 0 {
        lemma_emitted_full(s, order.drop_last());
    }
}

/// Over a well-formed snapshot where every slot still carries drawable
/// state, one synchronization pass emits exactly one record per slot.
pub proof fn lemma_full_scene_record_count(s: Seq<EntitySlot>)
    requires
        wf_slots(s),
        forall|j: int| 0 <= j < s.len() ==> s[j].node is Some,
    ensures
        spec_record_count(s) == s.len(),
{
    let order = visit_order_spec(s);
    lemma_roots_no_dup(s, 0);
    lemma_roots_elems(s, 0);
    assert forall|j: int| 0 <= j < s.len() implies order.contains(j) by {
        lemma_has_root(s, j);
        let r = choose|r: int| 0 <= r < s.len() && s[r].parent is None && desc(s, j, r);
        assert(is_root(s, r));
        lemma_roots_complete(s, 0, r, j);
    }
    assert forall|x: int| order.contains(x) implies 0 <= x < s.len() by {
        let r = choose|r: int| 0 <= r < s.len() && is_root(s, r) && desc(s, x, r);
        lemma_desc_bounds(s, x, r);
    }
    assert(order.to_set() =~= vstd::set_lib::set_int_range(0, s.len() as int)) by {
        assert forall|x: int|
            order.to_set().contains(x) implies vstd::set_lib::set_int_range(
            0,
            s.len() as int,
        ).contains(x) by {
            assert(order.contains(x));
        }
        assert forall|x: int|
            vstd::set_lib::set_int_range(0, s.len() as int).contains(x) implies order.to_set()
                .contains(x) by {
            assert(order.contains(x));
        }
    }
    order.unique_seq_to_set();
    vstd::set_lib::lemma_int_range(0, s.len() as int);
    assert(order.len() == s.len());
    assert forall|t: int| 0 <= t < order.len() implies 0 <= order[t] < s.len()
        && s[order[t]].node is Some by {
        assert(order.contains(order[t]));
    }
    lemma_emitted_full(s, order);
}

/// The depth channel follows visitation order: the `t`-th record of a pass
/// carries exactly the `t`-th entry of the depth table.  The numeric shape
/// of that table — strictly decreasing from 0.9999 in steps of 0.0001 — is
/// float arithmetic and lives with the integration layer that builds the
/// table; what the pass guarantees is this pairing.
pub proof fn lemma_depths_follow_visitation(s: Seq<EntitySlot>, depths: Seq<u32>, t: int)
    requires
        depths.len() == spec_record_count(s),
        0 <= t < spec_record_count(s),
    ensures
        spec_rects(s, depths)[t].z_index == depths[t],
{
}

/// A replacing pass returns a fresh handle: the device never hands out a
/// handle that is still live, so the buffer of the next non-empty pass is
/// distinct from the one it supersedes.
pub proof fn lemma_replacement_handle_fresh(live0: Set<u64>, h1: u64, h2: u64)
    requires
        !live0.contains(h1),
        !live0.insert(h1).contains(h2),
    ensures
        h2 != h1,
{
}

/// After a successful pass the published name resolves to the handle the
/// pass returned, and that handle is live: publication never leaves a
/// disposed buffer behind the well-known name.
pub proof fn lemma_publication_resolves_live(
    bindings0: Map<Seq<char>, u64>,
    bindings1: Map<Seq<char>, u64>,
    live1: Set<u64>,
    name: Seq<char>,
    handle: u64,
)
    requires
        bindings1 == bindings0.insert(name, handle),
        live1.contains(handle),
    ensures
        bindings1.dom().contains(name),
        live1.contains(bindings1[name]),
{
}

/// Buffer bookkeeping across a non-empty pass: each success allocates once
/// and disposes exactly the previously tracked buffer, so as long as a
/// buffer is tracked, disposals equal allocations minus one.
pub open spec fn accounts(tracked_buffer: Option<u64>, allocs: nat, disposes: nat) -> bool {
    allocs == disposes + (if tracked_buffer is Some {
        1nat
    } else {
        0nat
    })
}

/// One successful non-empty pass preserves the bookkeeping relation, and
/// under it the tracked buffer is the single allocation not yet disposed.
pub proof fn lemma_reallocation_accounting(
    tracked0: Option<u64>,
    allocs0: nat,
    disposes0: nat,
    handle: u64,
    allocs1: nat,
    disposes1: nat,
)
    requires
        accounts(tracked0, allocs0, disposes0),
        allocs1 == allocs0 + 1,
        disposes1 == disposes0 + (if tracked0 is Some {
            1nat
        } else {
            0nat
        }),
    ensures
        accounts(Some(handle), allocs1, disposes1),
        disposes1 == allocs1 - 1,
{
}

} // verus!
