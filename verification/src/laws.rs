//! What holds of the damage pass on every tree.
//!
//! Each law is stated of [`propagate`], the function that the executable
//! pass is proved to compute.

use vstd::prelude::*;
use crate::damage::Damage;
use crate::dom::{
    lemma_same_shape_is_transitive, lemma_same_shape_wf, node_wf, same_shape, tree_wf, LayoutBox,
    NodeKind, NodeView, SharedStyleContext,
};
use crate::propagation::{
    damage_for_children, discards_boxes, lemma_propagate_children_keeps_shape,
    lemma_propagate_from_keeps_shape, propagate, propagate_children, rebuilds_children,
    report_to_parent, settled,
};

verus! {

/// Node `d` is node `a` or sits below it.
pub open spec fn descends_from<B>(t: Seq<NodeView<B>>, d: usize, a: usize) -> bool
    decreases d,
{
    d == a || (d < t.len() && t[d as int].parent is Some && t[d as int].parent->0 < d
        && descends_from(t, t[d as int].parent->0, a))
}

/// A node hands a rebuild that it received on to its children: it is a
/// rendered element that does not isolate its subtree.
pub open spec fn passes_rebuild_on<B>(node: NodeView<B>) -> bool {
    node.kind == NodeKind::Element && !node.is_display_none() && !node.isolates
}

/// A rebuild that node `a` hands to its children reaches the element `d`
/// below it: every node between the two hands it on.
pub open spec fn rebuild_reaches<B>(t: Seq<NodeView<B>>, a: usize, d: usize) -> bool
    decreases d,
{
    &&& d < t.len()
    &&& t[d as int].kind == NodeKind::Element
    &&& t[d as int].parent is Some
    &&& t[d as int].parent->0 < d
    &&& t[d as int].parent->0 == a || (passes_rebuild_on(t[t[d as int].parent->0 as int])
        && rebuild_reaches(t, a, t[d as int].parent->0))
}

/// The pass on `id` finds nothing to do: no node that it visits has damage,
/// and none that is not rendered has a box.
pub open spec fn at_rest_from<B>(t: Seq<NodeView<B>>, limit: nat, id: usize) -> bool
    decreases limit - id,
{
    &&& t[id as int].damage().is_empty()
    &&& if t[id as int].is_display_none() {
        t[id as int].boxes.len() == 0
    } else {
        forall|k: int|
            0 <= k < t[id as int].children.len() ==> {
                let child = #[trigger] t[id as int].children[k];
                id < child < limit && t[child as int].kind == NodeKind::Element ==> at_rest_from(
                    t,
                    limit,
                    child,
                )
            }
    }
}

/// The tree is at rest below `id`: see [`at_rest_from`].
pub open spec fn at_rest<B>(t: Seq<NodeView<B>>, id: usize) -> bool {
    at_rest_from(t, t.len(), id)
}

/// The pass on `id` with the damage `from_parent` consumes all the damage
/// that it meets: no rendered node that it visits loses its boxes, and no
/// node that is not rendered has damage stored on it.
pub open spec fn consumes_all_damage_from<B: LayoutBox>(
    context: SharedStyleContext,
    t: Seq<NodeView<B>>,
    limit: nat,
    id: usize,
    from_parent: Damage,
) -> bool
    decreases limit - id,
{
    let node = t[id as int];
    let own = node.damage();
    let child_damage = damage_for_children(own, from_parent, node.isolates);
    if node.is_display_none() {
        own.is_empty()
    } else {
        &&& !discards_boxes(
            own,
            from_parent,
            propagate_children(
                context,
                t,
                limit,
                id,
                node.children,
                node.children.len(),
                child_damage,
            ).1,
        )
        &&& forall|k: int|
            0 <= k < node.children.len() ==> {
                let child = #[trigger] node.children[k];
                let u = propagate_children(
                    context,
                    t,
                    limit,
                    id,
                    node.children,
                    k as nat,
                    child_damage,
                ).0;
                id < child < limit && u[child as int].kind == NodeKind::Element
                    ==> consumes_all_damage_from(context, u, limit, child, child_damage)
            }
    }
}

/// What a node hands down never exceeds what it has and received. It
/// carries box damage exactly when the node passes a rebuild on, and then it
/// carries a full rebuild of the box tree. A node without a rebuild of its own
/// passes one on exactly when its parent asked for one and the node does not
/// isolate its subtree.
pub proof fn lemma_children_get_no_more_than_the_parent(
    own: Damage,
    from_parent: Damage,
    isolates: bool,
)
    ensures
        own.union(from_parent).contains(damage_for_children(own, from_parent, isolates)),
        damage_for_children(own, from_parent, isolates).has_box_damage() <==> rebuilds_children(
            own,
            from_parent,
            isolates,
        ),
        rebuilds_children(own, from_parent, isolates) ==> damage_for_children(
            own,
            from_parent,
            isolates,
        ).contains(Damage::rebuild_box_tree()),
        !rebuilds_children(own, from_parent, isolates) ==> damage_for_children(
            own,
            from_parent,
            isolates,
        ) == own.union(from_parent).truncated(),
        !own.contains(Damage::rebuild_box_tree()) ==> (rebuilds_children(
            own,
            from_parent,
            isolates,
        ) <==> from_parent.contains(Damage::rebuild_box_tree()) && !isolates),
{
}

/// Of what a rendered node has, received and was told by its children, only
/// a relayout goes up, beside what its boxes report and the request to
/// collect child boxes again.
pub proof fn lemma_report_exposes_little(
    own: Damage,
    from_parent: Damage,
    from_children: Damage,
    extra: Damage,
)
    ensures
        Damage::recollect_box_tree_children().union(extra).contains(
            report_to_parent(own, from_parent, from_children, extra),
        ),
        discards_boxes(own, from_parent, from_children) ==> report_to_parent(
            own,
            from_parent,
            from_children,
            extra,
        ) == Damage::recollect_box_tree_children(),
        !discards_boxes(own, from_parent, from_children) ==> report_to_parent(
            own,
            from_parent,
            from_children,
            extra,
        ) == own.union(from_parent).union(from_children).truncated().union(extra),
{
}

/// A node that is not rendered ends without a box, nothing else in the tree
/// changes, its own stored damage included, and it reports what it has and
/// received.
pub proof fn lemma_not_rendered_prunes<B: LayoutBox>(
    context: SharedStyleContext,
    t: Seq<NodeView<B>>,
    id: usize,
    from_parent: Damage,
)
    requires
        id < t.len(),
        t[id as int].is_display_none(),
    ensures
        propagate(context, t, id, from_parent).0 == t.update(
            id as int,
            t[id as int].with_boxes(Seq::empty()),
        ),
        propagate(context, t, id, from_parent).0[id as int].boxes.len() == 0,
        propagate(context, t, id, from_parent).0[id as int].data == t[id as int].data,
        forall|j: int|
            0 <= j < t.len() && j != id ==> propagate(context, t, id, from_parent).0[j] == t[j],
        propagate(context, t, id, from_parent).1 == t[id as int].damage().union(from_parent),
{
}

/// What the pass leaves at the node it started from. A node that is not
/// rendered has no box, and neither has one that had or received a request
/// to collect child boxes again. A rendered node with style storage either
/// lost its boxes and stores what it had and received, or kept them all and
/// stores no damage.
pub proof fn lemma_visited_node_is_settled<B: LayoutBox>(
    context: SharedStyleContext,
    t: Seq<NodeView<B>>,
    id: usize,
    from_parent: Damage,
)
    requires
        id < t.len(),
    ensures
        ({
            let after = propagate(context, t, id, from_parent).0[id as int];
            let total = t[id as int].damage().union(from_parent);
            &&& t[id as int].is_display_none() ==> after.boxes.len() == 0
            &&& total.contains(Damage::recollect_box_tree_children()) ==> after.boxes.len() == 0
            &&& !t[id as int].is_display_none() && t[id as int].data is Some ==> (
            after.boxes.len() == 0 && after.damage() == total) || (after.boxes.len()
                == t[id as int].boxes.len() && after.damage().is_empty())
        }),
{
    let node = t[id as int];
    if !node.is_display_none() {
        let child_damage = damage_for_children(node.damage(), from_parent, node.isolates);
        lemma_propagate_children_keeps_shape(
            context,
            t,
            id,
            node.children,
            node.children.len(),
            child_damage,
        );
        let (u, from_children) = propagate_children(
            context,
            t,
            t.len(),
            id,
            node.children,
            node.children.len(),
            child_damage,
        );
        assert(u[id as int] == node);
        let done = settled(context, node, node.damage(), from_parent, from_children);
        assert(propagate(context, t, id, from_parent).0[id as int] == done);
    }
}

/// Whether one node sits below another depends on the shape of the tree
/// alone.
pub proof fn lemma_descends_from_same_shape<B>(
    t: Seq<NodeView<B>>,
    u: Seq<NodeView<B>>,
    d: usize,
    a: usize,
)
    requires
        same_shape(t, u),
        descends_from(t, d, a),
    ensures
        descends_from(u, d, a),
    decreases d,
{
    if d != a {
        assert(t[d as int].same_shape(u[d as int]));
        lemma_descends_from_same_shape(t, u, t[d as int].parent->0, a);
    }
}

/// A node has no smaller index than any node that it sits below.
pub proof fn lemma_descendants_come_later<B>(t: Seq<NodeView<B>>, d: usize, a: usize)
    requires
        descends_from(t, d, a),
    ensures
        a <= d,
    decreases d,
{
    if d != a {
        lemma_descendants_come_later(t, t[d as int].parent->0, a);
    }
}

/// What sits below a child sits below its parent.
pub proof fn lemma_descends_from_the_parent<B>(t: Seq<NodeView<B>>, d: usize, child: usize, a: usize)
    requires
        child < t.len(),
        t[child as int].parent == Some(a),
        a < child,
        descends_from(t, d, child),
    ensures
        descends_from(t, d, a),
    decreases d,
{
    if d == child {
        assert(descends_from(t, a, a));
    } else {
        lemma_descends_from_the_parent(t, t[d as int].parent->0, child, a);
    }
}

/// Two children of one node have nothing below them in common.
pub proof fn lemma_siblings_are_disjoint<B>(
    t: Seq<NodeView<B>>,
    a: usize,
    child: usize,
    other: usize,
    d: usize,
)
    requires
        child < t.len(),
        other < t.len(),
        t[child as int].parent == Some(a),
        t[other as int].parent == Some(a),
        a < child,
        a < other,
        child != other,
        descends_from(t, d, child),
    ensures
        !descends_from(t, d, other),
    decreases d,
{
    if descends_from(t, d, other) {
        if d == child {
            assert(descends_from(t, a, other));
            lemma_descendants_come_later(t, a, other);
        } else if d == other {
            assert(descends_from(t, a, child));
            lemma_descendants_come_later(t, a, child);
        } else {
            lemma_siblings_are_disjoint(t, a, child, other, t[d as int].parent->0);
        }
    }
}

/// The pass on a node touches that node and what sits below it, and nothing
/// else.
pub proof fn lemma_pass_stays_in_its_subtree<B: LayoutBox>(
    context: SharedStyleContext,
    t: Seq<NodeView<B>>,
    id: usize,
    from_parent: Damage,
    j: usize,
)
    requires
        tree_wf(t),
        id < t.len(),
        j < t.len(),
        !descends_from(t, j, id),
    ensures
        propagate(context, t, id, from_parent).0[j as int] == t[j as int],
    decreases t.len() - id, 1nat, 0nat,
{
    let node = t[id as int];
    if !node.is_display_none() {
        let child_damage = damage_for_children(node.damage(), from_parent, node.isolates);
        lemma_children_pass_stays_in_the_subtree(
            context,
            t,
            id,
            node.children.len(),
            child_damage,
            j,
        );
        lemma_propagate_children_keeps_shape(
            context,
            t,
            id,
            node.children,
            node.children.len(),
            child_damage,
        );
    }
}

/// The pass on some children of a node touches nothing but what sits below
/// that node.
pub proof fn lemma_children_pass_stays_in_the_subtree<B: LayoutBox>(
    context: SharedStyleContext,
    t: Seq<NodeView<B>>,
    id: usize,
    k: nat,
    child_damage: Damage,
    j: usize,
)
    requires
        tree_wf(t),
        id < t.len(),
        j < t.len(),
        !descends_from(t, j, id),
    ensures
        propagate_children(
            context,
            t,
            t.len(),
            id,
            t[id as int].children,
            k,
            child_damage,
        ).0[j as int] == t[j as int],
    decreases t.len() - id, 0nat, k,
{
    let kids = t[id as int].children;
    if !(k == 0 || k > kids.len()) {
        lemma_children_pass_stays_in_the_subtree(context, t, id, (k - 1) as nat, child_damage, j);
        lemma_propagate_children_keeps_shape(context, t, id, kids, (k - 1) as nat, child_damage);
        let u = propagate_children(context, t, t.len(), id, kids, (k - 1) as nat, child_damage).0;
        let child = kids[k - 1];
        assert(node_wf(t, id as int));
        if id < child < t.len() && u[child as int].kind == NodeKind::Element {
            lemma_same_shape_wf(t, u);
            if descends_from(u, j, child) {
                lemma_same_shape_is_transitive(t, u, u);
                lemma_descends_from_same_shape(u, t, j, child);
                lemma_descends_from_the_parent(t, j, child, id);
            }
            lemma_pass_stays_in_its_subtree(context, u, child, child_damage, j);
        }
    }
}

/// A pass that finds the tree at rest changes nothing and reports nothing:
/// every box, every style reference and every stored damage stays as it is.
pub proof fn lemma_pass_on_a_tree_at_rest_changes_nothing<B: LayoutBox>(
    context: SharedStyleContext,
    t: Seq<NodeView<B>>,
    id: usize,
)
    requires
        id < t.len(),
        at_rest(t, id),
    ensures
        propagate(context, t, id, Damage::empty()) == (t, Damage::empty()),
    decreases t.len() - id, 1nat, 0nat,
{
    let node = t[id as int];
    if node.is_display_none() {
        assert(node.boxes =~= Seq::empty());
        assert(t.update(id as int, node.with_boxes(Seq::empty())) =~= t);
    } else {
        let child_damage = damage_for_children(node.damage(), Damage::empty(), node.isolates);
        assert(child_damage == Damage::empty());
        lemma_children_pass_on_a_tree_at_rest(context, t, id, node.children.len());
        let done = settled(context, node, node.damage(), Damage::empty(), Damage::empty());
        assert(done.boxes =~= node.boxes);
        assert(done == node);
        assert(t.update(id as int, done) =~= t);
    }
}

/// The pass on some children of a node at rest changes nothing and collects
/// no damage.
pub proof fn lemma_children_pass_on_a_tree_at_rest<B: LayoutBox>(
    context: SharedStyleContext,
    t: Seq<NodeView<B>>,
    id: usize,
    k: nat,
)
    requires
        id < t.len(),
        at_rest(t, id),
        !t[id as int].is_display_none(),
    ensures
        propagate_children(
            context,
            t,
            t.len(),
            id,
            t[id as int].children,
            k,
            Damage::empty(),
        ) == (t, Damage::empty()),
    decreases t.len() - id, 0nat, k,
{
    let kids = t[id as int].children;
    if !(k == 0 || k > kids.len()) {
        lemma_children_pass_on_a_tree_at_rest(context, t, id, (k - 1) as nat);
        let child = kids[k - 1];
        if id < child < t.len() && t[child as int].kind == NodeKind::Element {
            lemma_pass_on_a_tree_at_rest_changes_nothing(context, t, child);
        }
    }
}

/// Where a pass has left the tree at rest, a second pass without new damage
/// changes nothing and reports nothing.
pub proof fn lemma_second_pass_changes_nothing<B: LayoutBox>(
    context: SharedStyleContext,
    t: Seq<NodeView<B>>,
    id: usize,
    from_parent: Damage,
)
    requires
        id < t.len(),
        at_rest(propagate(context, t, id, from_parent).0, id),
    ensures
        propagate(context, propagate(context, t, id, from_parent).0, id, Damage::empty()) == (
            propagate(context, t, id, from_parent).0,
            Damage::empty(),
        ),
{
    lemma_propagate_from_keeps_shape(context, t, id, from_parent);
    lemma_pass_on_a_tree_at_rest_changes_nothing(
        context,
        propagate(context, t, id, from_parent).0,
        id,
    );
}

/// Whether the tree is at rest below a node depends on that node and on
/// what sits below it, and on nothing else.
pub proof fn lemma_at_rest_is_local<B>(t: Seq<NodeView<B>>, u: Seq<NodeView<B>>, id: usize)
    requires
        tree_wf(t),
        t.len() == u.len(),
        id < t.len(),
        at_rest(t, id),
        forall|j: usize| j < t.len() && descends_from(t, j, id) ==> u[j as int] == t[j as int],
    ensures
        at_rest(u, id),
    decreases t.len() - id,
{
    assert(descends_from(t, id, id));
    assert(u[id as int] == t[id as int]);
    if !t[id as int].is_display_none() {
        assert forall|k: int| 0 <= k < u[id as int].children.len() implies {
            let child = #[trigger] u[id as int].children[k];
            id < child < u.len() && u[child as int].kind == NodeKind::Element ==> at_rest_from(
                u,
                u.len(),
                child,
            )
        } by {
            let child = t[id as int].children[k];
            assert(node_wf(t, id as int));
            assert(descends_from(t, child, child));
            lemma_descends_from_the_parent(t, child, child, id);
            if t[child as int].kind == NodeKind::Element {
                assert forall|j: usize| j < t.len() && descends_from(t, j, child) implies u[j as int]
                    == t[j as int] by {
                    lemma_descends_from_the_parent(t, j, child, id);
                }
                lemma_at_rest_is_local(t, u, child);
            }
        }
    }
}

/// What consuming all damage below a node says of the pass on one of its
/// children.
proof fn lemma_consuming_goes_down_to_a_child<B: LayoutBox>(
    context: SharedStyleContext,
    t: Seq<NodeView<B>>,
    id: usize,
    from_parent: Damage,
    k: int,
)
    requires
        !t[id as int].is_display_none(),
        consumes_all_damage_from(context, t, t.len(), id, from_parent),
        0 <= k < t[id as int].children.len(),
    ensures
        ({
            let node = t[id as int];
            let child_damage = damage_for_children(node.damage(), from_parent, node.isolates);
            let child = node.children[k];
            let u = propagate_children(
                context,
                t,
                t.len(),
                id,
                node.children,
                k as nat,
                child_damage,
            ).0;
            id < child < t.len() && u[child as int].kind == NodeKind::Element
                ==> consumes_all_damage_from(context, u, t.len(), child, child_damage)
        }),
{
}

/// Where the tree is at rest below one child of a node, the pass on another
/// child of that node leaves it at rest there.
proof fn lemma_rest_survives_the_pass_on_a_sibling<B: LayoutBox>(
    context: SharedStyleContext,
    t: Seq<NodeView<B>>,
    id: usize,
    child: usize,
    other: usize,
    from_parent: Damage,
)
    requires
        tree_wf(t),
        child < t.len(),
        other < t.len(),
        t[child as int].parent == Some(id),
        t[other as int].parent == Some(id),
        id < child,
        id < other,
        child != other,
        at_rest(t, child),
    ensures
        at_rest(propagate(context, t, other, from_parent).0, child),
{
    let v = propagate(context, t, other, from_parent).0;
    lemma_propagate_from_keeps_shape(context, t, other, from_parent);
    assert forall|x: usize| x < t.len() && descends_from(t, x, child) implies v[x as int]
        == t[x as int] by {
        lemma_siblings_are_disjoint(t, id, child, other, x);
        lemma_pass_stays_in_its_subtree(context, t, other, from_parent, x);
    }
    lemma_at_rest_is_local(t, v, child);
}

/// A pass that consumes all the damage that it meets leaves the tree at
/// rest.
pub proof fn lemma_pass_that_consumes_all_damage_leaves_rest<B: LayoutBox>(
    context: SharedStyleContext,
    t: Seq<NodeView<B>>,
    id: usize,
    from_parent: Damage,
)
    requires
        tree_wf(t),
        id < t.len(),
        consumes_all_damage_from(context, t, t.len(), id, from_parent),
    ensures
        at_rest(propagate(context, t, id, from_parent).0, id),
    decreases t.len() - id, 1nat, 0nat,
{
    let node = t[id as int];
    let own = node.damage();
    if !node.is_display_none() {
        let kids = node.children;
        let child_damage = damage_for_children(own, from_parent, node.isolates);
        lemma_propagate_children_keeps_shape(context, t, id, kids, kids.len(), child_damage);
        let (u, from_children) = propagate_children(
            context,
            t,
            t.len(),
            id,
            kids,
            kids.len(),
            child_damage,
        );
        let v = propagate(context, t, id, from_parent).0;
        lemma_same_shape_wf(t, u);
        assert(node_wf(t, id as int));
        assert(v[id as int].damage().is_empty());
        assert(v[id as int].children == kids);
        assert forall|k: int| 0 <= k < v[id as int].children.len() implies {
            let child = #[trigger] v[id as int].children[k];
            id < child < v.len() && v[child as int].kind == NodeKind::Element ==> at_rest_from(
                v,
                v.len(),
                child,
            )
        } by {
            let child = kids[k];
            assert(t[child as int].same_shape(u[child as int]));
            if u[child as int].kind == NodeKind::Element {
                lemma_children_pass_that_consumes_all_damage(
                    context,
                    t,
                    id,
                    from_parent,
                    kids.len(),
                    k,
                );
                assert forall|j: usize| j < u.len() && descends_from(u, j, child) implies v[j as int]
                    == u[j as int] by {
                    lemma_descendants_come_later(u, j, child);
                }
                lemma_at_rest_is_local(u, v, child);
            }
        }
    }
}

/// After a pass that consumes all the damage that it meets has been over
/// the first `k` children of a node, the tree is at rest below each of
/// them.
pub proof fn lemma_children_pass_that_consumes_all_damage<B: LayoutBox>(
    context: SharedStyleContext,
    t: Seq<NodeView<B>>,
    id: usize,
    from_parent: Damage,
    k: nat,
    j: int,
)
    requires
        tree_wf(t),
        id < t.len(),
        !t[id as int].is_display_none(),
        consumes_all_damage_from(context, t, t.len(), id, from_parent),
        0 <= j < k <= t[id as int].children.len(),
        t[t[id as int].children[j] as int].kind == NodeKind::Element,
    ensures
        at_rest(
            propagate_children(
                context,
                t,
                t.len(),
                id,
                t[id as int].children,
                k,
                damage_for_children(t[id as int].damage(), from_parent, t[id as int].isolates),
            ).0,
            t[id as int].children[j],
        ),
    decreases t.len() - id, 0nat, k,
{
    let node = t[id as int];
    let kids = node.children;
    let child_damage = damage_for_children(node.damage(), from_parent, node.isolates);
    let child = kids[j];
    lemma_propagate_children_keeps_shape(context, t, id, kids, (k - 1) as nat, child_damage);
    let u = propagate_children(context, t, t.len(), id, kids, (k - 1) as nat, child_damage).0;
    let last = kids[k - 1];
    lemma_same_shape_wf(t, u);
    assert(node_wf(t, id as int));
    assert(id < last < t.len() && t[last as int].parent == Some(id));
    assert(id < child < t.len() && t[child as int].parent == Some(id));
    assert(t[last as int].same_shape(u[last as int]));
    assert(t[child as int].same_shape(u[child as int]));
    if j == k - 1 {
        lemma_consuming_goes_down_to_a_child(context, t, id, from_parent, j);
        lemma_pass_that_consumes_all_damage_leaves_rest(context, u, last, child_damage);
    } else {
        lemma_children_pass_that_consumes_all_damage(
            context,
            t,
            id,
            from_parent,
            (k - 1) as nat,
            j,
        );
        if u[last as int].kind == NodeKind::Element {
            assert(kids[j] < kids[k - 1]);
            lemma_rest_survives_the_pass_on_a_sibling(context, u, id, child, last, child_damage);
        }
    }
}

/// After a pass that consumed all the damage that it met, a second pass
/// without new damage changes nothing and reports nothing.
pub proof fn lemma_pass_is_idempotent_once_damage_is_consumed<B: LayoutBox>(
    context: SharedStyleContext,
    t: Seq<NodeView<B>>,
    id: usize,
    from_parent: Damage,
)
    requires
        tree_wf(t),
        id < t.len(),
        consumes_all_damage_from(context, t, t.len(), id, from_parent),
    ensures
        propagate(context, propagate(context, t, id, from_parent).0, id, Damage::empty()) == (
            propagate(context, t, id, from_parent).0,
            Damage::empty(),
        ),
{
    lemma_pass_that_consumes_all_damage_leaves_rest(context, t, id, from_parent);
    lemma_second_pass_changes_nothing(context, t, id, from_parent);
}

/// Where a rebuild reaches depends on the shape of the tree alone.
pub proof fn lemma_rebuild_reaches_same_shape<B>(
    t: Seq<NodeView<B>>,
    u: Seq<NodeView<B>>,
    a: usize,
    d: usize,
)
    requires
        same_shape(t, u),
        rebuild_reaches(t, a, d),
    ensures
        rebuild_reaches(u, a, d),
    decreases d,
{
    let p = t[d as int].parent->0;
    assert(t[d as int].same_shape(u[d as int]));
    if p != a {
        assert(t[p as int].same_shape(u[p as int]));
        lemma_rebuild_reaches_same_shape(t, u, a, p);
    }
}

/// The child of `a` through which a rebuild reaches `d`.
pub open spec fn child_toward<B>(t: Seq<NodeView<B>>, a: usize, d: usize) -> usize
    decreases d,
{
    if d < t.len() && t[d as int].parent is Some && t[d as int].parent->0 < d
        && t[d as int].parent->0 != a {
        child_toward(t, a, t[d as int].parent->0)
    } else {
        d
    }
}

/// A rebuild reaches `d` through a child of `a`: either that child is `d`,
/// or it hands the rebuild on and the rebuild reaches `d` from there.
pub proof fn lemma_rebuild_goes_through_a_child<B>(t: Seq<NodeView<B>>, a: usize, d: usize)
    requires
        rebuild_reaches(t, a, d),
    ensures
        ({
            let child = child_toward(t, a, d);
            &&& child < t.len()
            &&& t[child as int].kind == NodeKind::Element
            &&& t[child as int].parent == Some(a)
            &&& a < child
            &&& descends_from(t, d, child)
            &&& child == d || (passes_rebuild_on(t[child as int]) && rebuild_reaches(t, child, d))
        }),
    decreases d,
{
    let p = t[d as int].parent->0;
    if p != a {
        lemma_rebuild_goes_through_a_child(t, a, p);
        let child = child_toward(t, a, p);
        assert(child_toward(t, a, d) == child);
        assert(descends_from(t, d, child));
    } else {
        assert(descends_from(t, d, d));
    }
}

/// A rebuild of the box tree that a rendered node hands to its children
/// discards the boxes of every element that it reaches, whatever damage
/// those elements have themselves.
pub proof fn lemma_rebuild_discards_every_box_it_reaches<B: LayoutBox>(
    context: SharedStyleContext,
    t: Seq<NodeView<B>>,
    a: usize,
    from_parent: Damage,
    d: usize,
)
    requires
        tree_wf(t),
        a < t.len(),
        !t[a as int].is_display_none(),
        rebuilds_children(t[a as int].damage(), from_parent, t[a as int].isolates),
        rebuild_reaches(t, a, d),
    ensures
        propagate(context, t, a, from_parent).0[d as int].boxes.len() == 0,
    decreases t.len() - a, 1nat, 0nat,
{
    let node = t[a as int];
    let child_damage = damage_for_children(node.damage(), from_parent, node.isolates);
    lemma_rebuild_goes_through_a_child(t, a, d);
    let child = child_toward(t, a, d);
    assert(node_wf(t, child as int));
    let at = choose|at: int| 0 <= at < node.children.len() && node.children[at] == child;
    lemma_rebuild_reaches_through_children(
        context,
        t,
        a,
        node.children.len(),
        child_damage,
        at,
        d,
    );
    lemma_descendants_come_later(t, d, child);
    lemma_propagate_children_keeps_shape(
        context,
        t,
        a,
        node.children,
        node.children.len(),
        child_damage,
    );
}

/// Once the pass has been over the child through which a rebuild reaches
/// `d`, the boxes of `d` are gone, and the pass on later children leaves
/// them gone.
pub proof fn lemma_rebuild_reaches_through_children<B: LayoutBox>(
    context: SharedStyleContext,
    t: Seq<NodeView<B>>,
    a: usize,
    k: nat,
    child_damage: Damage,
    at: int,
    d: usize,
)
    requires
        tree_wf(t),
        a < t.len(),
        child_damage.contains(Damage::rebuild_box_tree()),
        rebuild_reaches(t, a, d),
        0 <= at < k <= t[a as int].children.len(),
        t[a as int].children[at] == child_toward(t, a, d),
    ensures
        propagate_children(
            context,
            t,
            t.len(),
            a,
            t[a as int].children,
            k,
            child_damage,
        ).0[d as int].boxes.len() == 0,
    decreases t.len() - a, 0nat, k,
{
    let kids = t[a as int].children;
    let through = child_toward(t, a, d);
    lemma_rebuild_goes_through_a_child(t, a, d);
    lemma_propagate_children_keeps_shape(context, t, a, kids, (k - 1) as nat, child_damage);
    let u = propagate_children(context, t, t.len(), a, kids, (k - 1) as nat, child_damage).0;
    let child = kids[k - 1];
    assert(node_wf(t, a as int));
    assert(a < child < t.len() && t[child as int].parent == Some(a));
    assert(t[child as int].same_shape(u[child as int]));
    assert(t[through as int].same_shape(u[through as int]));
    lemma_same_shape_wf(t, u);
    if at == k - 1 {
        assert(child == through);
        if through == d {
            lemma_visited_node_is_settled(context, u, d, child_damage);
        } else {
            lemma_rebuild_reaches_same_shape(t, u, through, d);
            lemma_rebuild_discards_every_box_it_reaches(context, u, through, child_damage, d);
        }
    } else {
        lemma_rebuild_reaches_through_children(
            context,
            t,
            a,
            (k - 1) as nat,
            child_damage,
            at,
            d,
        );
        if u[child as int].kind == NodeKind::Element {
            assert(kids[at] < kids[k - 1]);
            lemma_siblings_are_disjoint(t, a, through, child, d);
            if descends_from(u, d, child) {
                lemma_same_shape_is_transitive(t, u, u);
                lemma_descends_from_same_shape(u, t, d, child);
            }
            lemma_pass_stays_in_its_subtree(context, u, child, child_damage, d);
        }
    }
}

} // verus!
