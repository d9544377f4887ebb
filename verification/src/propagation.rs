//! What the damage pass computes, as a function on the model of the tree.
//!
//! The pass visits an element with the damage that its parent hands down.
//! It first visits the element children, in document order, and collects
//! what they report; then it settles the element itself: its boxes are
//! discarded, or repaired in place, and the damage stored on it is consumed.
//! [`propagate`] is that computation; the executable pass in
//! [`crate::traversal`] is proved to compute exactly it.

use vstd::prelude::*;
use crate::damage::Damage;
use crate::dom::{
    damaged_boxes, reported_damage, restyled_boxes, same_shape, LayoutBox, NodeKind, NodeView,
    SharedStyleContext,
};

verus! {

/// Whether an element passes a rebuild of the box tree on to its children:
/// when its own damage asks for one, or when its parent asked for one and the
/// element does not isolate its subtree from it.
pub open spec fn rebuilds_children(own: Damage, from_parent: Damage, isolates: bool) -> bool {
    own.contains(Damage::rebuild_box_tree()) || (from_parent.contains(Damage::rebuild_box_tree())
        && !isolates)
}

/// The damage that an element hands down to each of its children: the
/// geometry part of what it has and received, and a rebuild of the box tree
/// where [`rebuilds_children`] says so.
pub open spec fn damage_for_children(own: Damage, from_parent: Damage, isolates: bool) -> Damage {
    let geometry = own.union(from_parent).truncated();
    if rebuilds_children(own, from_parent, isolates) {
        geometry.union(Damage::rebuild_box_tree())
    } else {
        geometry
    }
}

/// Whether a rendered element loses its boxes: when a child reported that the
/// child boxes must be collected again, or when what the element has and
/// received says so itself.
pub open spec fn discards_boxes(own: Damage, from_parent: Damage, from_children: Damage) -> bool {
    from_children.contains(Damage::recollect_box_tree_children()) || own.union(from_parent).contains(
        Damage::recollect_box_tree_children(),
    )
}

/// Whether the boxes of an element that keeps them must take damage in: when
/// anything it has, received or was reported asks for a relayout.
pub open spec fn repairs_boxes(own: Damage, from_parent: Damage, from_children: Damage) -> bool {
    own.union(from_parent).union(from_children).contains(Damage::relayout())
}

/// What a rendered element reports to its parent: the geometry part of what
/// it has, received and was reported; what its boxes reported when they were
/// repaired; and, where its boxes were discarded, that the parent must
/// collect its child boxes again.
pub open spec fn report_to_parent(
    own: Damage,
    from_parent: Damage,
    from_children: Damage,
    extra: Damage,
) -> Damage {
    let geometry = own.union(from_parent).intersection(Damage::relayout()).union(
        from_children.intersection(Damage::relayout()),
    );
    if discards_boxes(own, from_parent, from_children) {
        geometry.union(Damage::recollect_box_tree_children())
    } else {
        geometry.union(extra)
    }
}

/// What a rendered element's boxes report when the element is settled:
/// nothing unless they are kept and repaired.
pub open spec fn extra_damage<B: LayoutBox>(
    boxes: Seq<B>,
    own: Damage,
    from_parent: Damage,
    from_children: Damage,
) -> Damage {
    if !discards_boxes(own, from_parent, from_children) && repairs_boxes(
        own,
        from_parent,
        from_children,
    ) {
        reported_damage(boxes, own, from_children)
    } else {
        Damage::empty()
    }
}

/// The boxes of a rendered element after it is settled. Discarded, there are
/// none. Kept, they have taken the damage in where a relayout is due, and
/// point at the element's style where the element's own damage is not empty.
pub open spec fn settled_boxes<B: LayoutBox>(
    context: SharedStyleContext,
    node: NodeView<B>,
    own: Damage,
    from_parent: Damage,
    from_children: Damage,
) -> Seq<B> {
    if discards_boxes(own, from_parent, from_children) {
        Seq::empty()
    } else {
        let repaired = if repairs_boxes(own, from_parent, from_children) {
            damaged_boxes(node.boxes, own, from_children)
        } else {
            node.boxes
        };
        if !own.is_empty() && node.data is Some {
            restyled_boxes(repaired, context, node.data->0.style)
        } else {
            repaired
        }
    }
}

/// The damage stored on a rendered element after it is settled: none where
/// its boxes are kept; what it had and received where they are discarded, for
/// whoever builds the new boxes.
pub open spec fn settled_damage(own: Damage, from_parent: Damage, from_children: Damage) -> Damage {
    if discards_boxes(own, from_parent, from_children) {
        own.union(from_parent)
    } else {
        Damage::empty()
    }
}

/// A rendered element after it is settled, given the damage `own` that was
/// stored on it, what its parent handed down and what its children reported.
pub open spec fn settled<B: LayoutBox>(
    context: SharedStyleContext,
    node: NodeView<B>,
    own: Damage,
    from_parent: Damage,
    from_children: Damage,
) -> NodeView<B> {
    node.with_boxes(settled_boxes(context, node, own, from_parent, from_children)).with_damage(
        settled_damage(own, from_parent, from_children),
    )
}

/// The pass on node `id` of `t` with the damage `from_parent`: the tree
/// after it, and what the node reports to its parent.
///
/// A node that is not rendered loses its boxes and reports what it has and
/// received; nothing below it is visited. `limit` is the number of nodes;
/// it bounds the recursion, which goes from a node to children of larger
/// index.
pub open spec fn propagate_from<B: LayoutBox>(
    context: SharedStyleContext,
    t: Seq<NodeView<B>>,
    limit: nat,
    id: usize,
    from_parent: Damage,
) -> (Seq<NodeView<B>>, Damage)
    decreases limit - id, 1nat, 0nat,
{
    let node = t[id as int];
    let own = node.damage();
    if node.is_display_none() {
        (t.update(id as int, node.with_boxes(Seq::empty())), own.union(from_parent))
    } else {
        let (u, from_children) = propagate_children(
            context,
            t,
            limit,
            id,
            node.children,
            node.children.len(),
            damage_for_children(own, from_parent, node.isolates),
        );
        (
            u.update(id as int, settled(context, u[id as int], own, from_parent, from_children)),
            report_to_parent(
                own,
                from_parent,
                from_children,
                extra_damage(u[id as int].boxes, own, from_parent, from_children),
            ),
        )
    }
}

/// The pass on the first `k` of the children `kids` of node `id`, each with
/// the damage `child_damage`: the tree after it and the union of what those
/// children reported. Children that are not elements are passed over.
pub open spec fn propagate_children<B: LayoutBox>(
    context: SharedStyleContext,
    t: Seq<NodeView<B>>,
    limit: nat,
    id: usize,
    kids: Seq<usize>,
    k: nat,
    child_damage: Damage,
) -> (Seq<NodeView<B>>, Damage)
    decreases limit - id, 0nat, k,
{
    if k == 0 || k > kids.len() {
        (t, Damage::empty())
    } else {
        let (u, reported) = propagate_children(
            context,
            t,
            limit,
            id,
            kids,
            (k - 1) as nat,
            child_damage,
        );
        let child = kids[k - 1];
        if id < child < limit && u[child as int].kind == NodeKind::Element {
            let (v, r) = propagate_from(context, u, limit, child, child_damage);
            (v, reported.union(r))
        } else {
            (u, reported)
        }
    }
}

/// The damage pass on node `id` of the tree `t`.
pub open spec fn propagate<B: LayoutBox>(
    context: SharedStyleContext,
    t: Seq<NodeView<B>>,
    id: usize,
    from_parent: Damage,
) -> (Seq<NodeView<B>>, Damage) {
    propagate_from(context, t, t.len(), id, from_parent)
}

/// Every node that the pass on `id` visits is an element with style storage.
/// The pass visits `id` and, below a rendered node, its element children.
pub open spec fn styled_from<B>(t: Seq<NodeView<B>>, limit: nat, id: usize) -> bool
    decreases limit - id,
{
    &&& id < t.len()
    &&& t[id as int].is_styled_element()
    &&& !t[id as int].is_display_none() ==> forall|k: int|
        0 <= k < t[id as int].children.len() ==> {
            let child = #[trigger] t[id as int].children[k];
            id < child < limit && t[child as int].kind == NodeKind::Element ==> styled_from(
                t,
                limit,
                child,
            )
        }
}

/// The pass can run on node `id`: the style pass has been over every node
/// that it will visit.
pub open spec fn ready_for_damage_pass<B>(t: Seq<NodeView<B>>, id: usize) -> bool {
    styled_from(t, t.len(), id)
}

/// What the pass is ready for depends on the shape of the tree alone.
pub proof fn lemma_styled_from_same_shape<B>(
    t: Seq<NodeView<B>>,
    u: Seq<NodeView<B>>,
    limit: nat,
    id: usize,
)
    requires
        same_shape(t, u),
        limit <= t.len(),
        styled_from(t, limit, id),
    ensures
        styled_from(u, limit, id),
    decreases limit - id,
{
    assert(t[id as int].same_shape(u[id as int]));
    if !u[id as int].is_display_none() {
        assert forall|k: int| 0 <= k < u[id as int].children.len() implies {
            let child = #[trigger] u[id as int].children[k];
            id < child < limit && u[child as int].kind == NodeKind::Element ==> styled_from(
                u,
                limit,
                child,
            )
        } by {
            let child = t[id as int].children[k];
            if id < child < limit && u[child as int].kind == NodeKind::Element {
                assert(t[child as int].same_shape(u[child as int]));
                lemma_styled_from_same_shape(t, u, limit, child);
            }
        }
    }
}

/// The pass changes stored damage and boxes only, and only at the node it
/// starts from and at nodes of larger index.
pub proof fn lemma_propagate_from_keeps_shape<B: LayoutBox>(
    context: SharedStyleContext,
    t: Seq<NodeView<B>>,
    id: usize,
    from_parent: Damage,
)
    requires
        id < t.len(),
    ensures
        same_shape(t, propagate_from(context, t, t.len(), id, from_parent).0),
        forall|j: int|
            0 <= j < id ==> propagate_from(context, t, t.len(), id, from_parent).0[j] == t[j],
    decreases t.len() - id, 1nat, 0nat,
{
    let node = t[id as int];
    let own = node.damage();
    if node.is_display_none() {
    } else {
        let kids = node.children;
        let child_damage = damage_for_children(own, from_parent, node.isolates);
        lemma_propagate_children_keeps_shape(context, t, id, kids, kids.len(), child_damage);
        let (u, from_children) = propagate_children(
            context,
            t,
            t.len(),
            id,
            kids,
            kids.len(),
            child_damage,
        );
        let v = u.update(id as int, settled(context, u[id as int], own, from_parent, from_children));
        assert(same_shape(t, v)) by {
            assert forall|i: int| 0 <= i < t.len() implies (#[trigger] t[i]).same_shape(v[i]) by {
                assert(t[i].same_shape(u[i]));
            }
        }
    }
}

/// The pass on some children keeps the shape of the tree and leaves their
/// parent, and every node before it, as they were.
pub proof fn lemma_propagate_children_keeps_shape<B: LayoutBox>(
    context: SharedStyleContext,
    t: Seq<NodeView<B>>,
    id: usize,
    kids: Seq<usize>,
    k: nat,
    child_damage: Damage,
)
    requires
        id < t.len(),
    ensures
        same_shape(t, propagate_children(context, t, t.len(), id, kids, k, child_damage).0),
        forall|j: int|
            0 <= j <= id ==> propagate_children(context, t, t.len(), id, kids, k, child_damage).0[j]
                == t[j],
    decreases t.len() - id, 0nat, k,
{
    if k == 0 || k > kids.len() {
    } else {
        lemma_propagate_children_keeps_shape(context, t, id, kids, (k - 1) as nat, child_damage);
        let (u, reported) = propagate_children(
            context,
            t,
            t.len(),
            id,
            kids,
            (k - 1) as nat,
            child_damage,
        );
        let child = kids[k - 1];
        if id < child < t.len() && u[child as int].kind == NodeKind::Element {
            lemma_propagate_from_keeps_shape(context, u, child, child_damage);
            let v = propagate_from(context, u, u.len(), child, child_damage).0;
            assert(same_shape(t, v)) by {
                assert forall|i: int| 0 <= i < t.len() implies (#[trigger] t[i]).same_shape(
                    v[i],
                ) by {
                    assert(t[i].same_shape(u[i]));
                    assert(u[i].same_shape(v[i]));
                }
            }
        }
    }
}

} // verus!
