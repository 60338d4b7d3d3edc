//! Depth-first traversal of a scene snapshot.
//!
//! The walker turns the parent relation into an explicit visitation order: a
//! finite sequence of slot indices in pre-order, parent before any of its
//! descendants, root subtrees one after another in slot order, and inside a
//! subtree the children in slot order.  Consumers fold over that sequence
//! instead of threading a mutable callback through the recursion.

use vstd::prelude::*;
use crate::scene::{EntitySlot, Scene, is_root};

verus! {

/// The slot indices of a sequence, as mathematical integers.
pub open spec fn ints_of(v: Seq<usize>) -> Seq<int> {
    v.map_values(|u: usize| u as int)
}

/// True when slot `k` names slot `i` as its parent.
pub open spec fn child_of(s: Seq<EntitySlot>, k: int, i: int) -> bool {
    0 <= k < s.len() && s[k].parent is Some && (s[k].parent->Some_0 as int) == i
}

/// Pre-order visitation of the subtree rooted at `i`: the root itself, then
/// each child subtree in slot order.
pub open spec fn preorder(s: Seq<EntitySlot>, i: int) -> Seq<int>
    decreases s.len() - i, s.len() - i,
{
    if i < 0 || i >= s.len() {
        seq![i]
    } else {
        seq![i] + visit_children(s, i, i + 1)
    }
}

/// Visitation of every child subtree of `i` whose slot index is at least `k`.
pub open spec fn visit_children(s: Seq<EntitySlot>, i: int, k: int) -> Seq<int>
    decreases s.len() - i, s.len() - k,
{
    if i < 0 || k <= i || k >= s.len() {
        Seq::empty()
    } else {
        (if child_of(s, k, i) {
            preorder(s, k)
        } else {
            Seq::empty()
        }) + visit_children(s, i, k + 1)
    }
}

/// Visitation of every root subtree whose root slot index is at least `k`.
pub open spec fn roots_preorder(s: Seq<EntitySlot>, k: int) -> Seq<int>
    decreases s.len() - k,
{
    if k < 0 || k >= s.len() {
        Seq::empty()
    } else if is_root(s, k) {
        preorder(s, k) + roots_preorder(s, k + 1)
    } else {
        roots_preorder(s, k + 1)
    }
}

/// The full visitation order of one synchronization pass.
pub open spec fn visit_order_spec(s: Seq<EntitySlot>) -> Seq<int> {
    roots_preorder(s, 0)
}

/// Appends the pre-order visitation of the subtree rooted at `root` to `out`.
pub fn walk_subtree(scene: &Scene, root: usize, out: &mut Vec<usize>)
    requires
        scene.wf(),
        (root as int) < scene@.len(),
    ensures
        ints_of(final(out)@) == ints_of(old(out)@) + preorder(scene@, root as int),
    decreases scene@.len() - root,
{
    let ghost s = scene@;
    let ghost i = root as int;
    let n = scene.entities.len();
    out.push(root);
    proof {
        assert(ints_of(out@) =~= ints_of(old(out)@) + seq![i]);
    }
    let mut k: usize = root + 1;
    while k < n
        invariant
            scene.wf(),
            s == scene@,
            n == s.len(),
            i == root as int,
            0 <= i < s.len(),
            i + 1 <= k as int,
            ints_of(out@) + visit_children(s, i, k as int) == ints_of(old(out)@) + preorder(s, i),
        decreases s.len() - k,
    {
        let ghost entered = out@;
        let slot = scene.entities[k];
        let matched = match slot.parent {
            Some(p) => p == root,
            None => false,
        };
        proof {
            assert(matched == child_of(s, k as int, i));
        }
        if matched {
            walk_subtree(scene, k, out);
        }
        proof {
            let stepped: Seq<int> = if child_of(s, k as int, i) {
                preorder(s, k as int)
            } else {
                Seq::empty()
            };
            assert(visit_children(s, i, k as int) == stepped + visit_children(s, i, k as int + 1));
            assert(ints_of(out@) =~= ints_of(entered) + stepped);
            assert(ints_of(out@) + visit_children(s, i, k as int + 1) =~= ints_of(entered)
                + visit_children(s, i, k as int));
        }
        k = k + 1;
    }
    proof {
        assert(visit_children(s, i, k as int) == Seq::<int>::empty());
        assert(ints_of(out@) + Seq::<int>::empty() =~= ints_of(out@));
    }
}

/// The visitation order of the whole snapshot: each root subtree in pre-order,
/// roots taken in slot order.
pub fn visit_order(scene: &Scene) -> (order: Vec<usize>)
    requires
        scene.wf(),
    ensures
        ints_of(order@) == visit_order_spec(scene@),
{
    let ghost s = scene@;
    let mut out: Vec<usize> = Vec::new();
    proof {
        assert(ints_of(out@) + roots_preorder(s, 0) =~= roots_preorder(s, 0));
    }
    let mut k: usize = 0;
    while k < scene.entities.len()
        invariant
            scene.wf(),
            s == scene@,
            ints_of(out@) + roots_preorder(s, k as int) == roots_preorder(s, 0),
        decreases s.len() - k,
    {
        let ghost entered = out@;
        let slot = scene.entities[k];
        let root_here = slot.parent.is_none() && slot.node.is_some();
        proof {
            assert(root_here == is_root(s, k as int));
        }
        if root_here {
            walk_subtree(scene, k, &mut out);
        }
        proof {
            let stepped: Seq<int> = if is_root(s, k as int) {
                preorder(s, k as int)
            } else {
                Seq::empty()
            };
            assert(roots_preorder(s, k as int) == stepped + roots_preorder(s, k as int + 1));
            assert(ints_of(out@) =~= ints_of(entered) + stepped);
            assert(ints_of(out@) + roots_preorder(s, k as int + 1) =~= ints_of(entered)
                + roots_preorder(s, k as int));
        }
        k = k + 1;
    }
    proof {
        assert(roots_preorder(s, k as int) == Seq::<int>::empty());
        assert(ints_of(out@) + Seq::<int>::empty() =~= ints_of(out@));
    }
    out
}

} // verus!
