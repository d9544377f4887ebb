//! The two passes over the node tree.
//!
//! [`RecalcStyle`] is the top-down style pass. It owns no bottom-up step:
//! collecting damage from the leaves up is the business of
//! [`compute_damage_and_repair_style`] alone, which runs after it.

use vstd::prelude::*;
use crate::damage::Damage;
use crate::dom::{
    lemma_same_shape_is_transitive, node_wf, same_shape, tree_wf, ComputedStyle, LayoutBox,
    LayoutContext, LayoutTree, NodeKind, NodeView, SharedStyleContext, StyleData,
};
use crate::propagation::{
    extra_damage, lemma_propagate_children_keeps_shape, lemma_propagate_from_keeps_shape,
    lemma_styled_from_same_shape, propagate, propagate_children, ready_for_damage_pass,
    rebuilds_children, report_to_parent, settled, styled_from,
};

verus! {

/// What the style engine hands back for one element: its new style, and the
/// damage that the change from the old style to the new one does.
#[derive(Clone, Copy, Debug, PartialEq, Eq, Structural)]
pub struct Restyle {
    pub style: ComputedStyle,
    pub damage: Damage,
}

/// The style storage of a node after the style pass has processed it.
///
/// A text node has no style and keeps none. An element met for the first
/// time has nothing to compare its style with: its damage is a full
/// reconstruct. An element met before adds the engine's damage to what is
/// still stored on it.
pub open spec fn restyled_data<B>(node: NodeView<B>, restyle: Restyle) -> Option<StyleData> {
    match node.kind {
        NodeKind::Text => node.data,
        NodeKind::Element => match node.data {
            None => Some(StyleData { style: restyle.style, damage: Damage::reconstruct() }),
            Some(data) => Some(
                StyleData { style: restyle.style, damage: data.damage.union(restyle.damage) },
            ),
        },
    }
}

/// A node after the style pass has processed it: an element has its new
/// style storage and no longer asks for another visit of its descendants; a
/// text node is as it was.
pub open spec fn restyled_node<B>(node: NodeView<B>, restyle: Restyle) -> NodeView<B> {
    match node.kind {
        NodeKind::Text => node,
        NodeKind::Element => NodeView {
            data: restyled_data(node, restyle),
            dirty_descendants: false,
            ..node
        },
    }
}

/// The top-down style pass.
pub struct RecalcStyle<'a> {
    context: &'a LayoutContext,
}

impl<'a> RecalcStyle<'a> {
    /// The layout context that the pass was made with.
    pub closed spec fn spec_context(&self) -> &LayoutContext {
        self.context
    }

    pub fn new(context: &'a LayoutContext) -> (pass: Self)
        ensures
            pass.spec_context() == context,
    {
        RecalcStyle { context }
    }

    #[verifier::when_used_as_spec(spec_context)]
    pub fn context(&self) -> (context: &LayoutContext)
        ensures
            context == self.spec_context(),
    {
        self.context
    }

    /// The part of the context that the style engine shares between tasks.
    pub fn shared_context(&self) -> (context: &SharedStyleContext)
        ensures
            *context == self.spec_context().style_context,
    {
        &self.context.style_context
    }

    /// The style pass has no bottom-up step.
    pub fn needs_postorder_traversal() -> (needed: bool)
        ensures
            !needed,
    {
        false
    }

    /// Whether the pass has to visit the text node `node`: when it has no
    /// box yet, or when its parent, whose style storage is `parent_data`,
    /// has damage.
    pub fn text_node_needs_traversal<B>(
        tree: &LayoutTree<B>,
        node: usize,
        parent_data: &StyleData,
    ) -> (needed: bool)
        ensures
            needed == (!(node < tree@.len() && tree@[node as int].boxes.len() > 0)
                || !parent_data.damage.is_empty()),
    {
        !tree.has_box(node) || !parent_data.damage.is_empty()
    }

    /// Processes `node` on the way down, given what the style engine
    /// computed for it. Text nodes are passed over.
    pub fn process_preorder<B>(&self, tree: &mut LayoutTree<B>, node: usize, restyle: Restyle)
        requires
            old(tree).wf(),
        ensures
            final(tree).wf(),
            final(tree)@ == if node < old(tree)@.len() {
                old(tree)@.update(node as int, restyled_node(old(tree)@[node as int], restyle))
            } else {
                old(tree)@
            },
    {
        if tree.is_text_node(node) || node >= tree.len() {
            proof {
                if node < tree@.len() {
                    assert(tree@ =~= tree@.update(
                        node as int,
                        restyled_node(tree@[node as int], restyle),
                    ));
                }
            }
            return ;
        }
        let damage = match tree.style_data(node) {
            Some(data) => data.damage.union(restyle.damage),
            None => Damage::reconstruct(),
        };
        tree.set_style_data(node, StyleData { style: restyle.style, damage });
        tree.set_dirty_descendants(node, false);
        proof {
            assert(final(tree)@ =~= old(tree)@.update(
                node as int,
                restyled_node(old(tree)@[node as int], restyle),
            ));
        }
    }
}

/// The damage that an element hands down to its children.
///
/// It never asks more of a child than the element has or received itself,
/// and it carries box damage exactly when the element passes a rebuild on.
pub fn damage_for_children(own: Damage, from_parent: Damage, isolates: bool) -> (damage: Damage)
    ensures
        damage == crate::propagation::damage_for_children(own, from_parent, isolates),
        own.union(from_parent).contains(damage),
        damage.has_box_damage() <==> rebuilds_children(own, from_parent, isolates),
        damage.has_box_damage() ==> damage.contains(Damage::rebuild_box_tree()),
{
    let mut damage = own.union(from_parent);
    damage.truncate();
    let rebuild_children = own.contains(Damage::rebuild_box_tree()) || (from_parent.contains(
        Damage::rebuild_box_tree(),
    ) && !isolates);
    if rebuild_children {
        damage.insert(Damage::rebuild_box_tree());
    }
    damage
}

/// Whether the damage pass can run on `node`: whether the style pass has
/// been over every node that it will visit.
pub fn is_ready_for_damage_pass<B>(tree: &LayoutTree<B>, node: usize) -> (ready: bool)
    requires
        tree.wf(),
    ensures
        ready == ready_for_damage_pass(tree@, node),
{
    is_styled_from(tree, node)
}

fn is_styled_from<B>(tree: &LayoutTree<B>, node: usize) -> (ready: bool)
    requires
        tree.wf(),
    ensures
        ready == styled_from(tree@, tree@.len(), node),
    decreases tree@.len() - node,
{
    if !tree.is_element(node) {
        return false;
    }
    let display_none = match tree.style_data(node) {
        Some(data) => data.style.display_none,
        None => {
            return false;
        },
    };
    if display_none {
        return true;
    }
    let ghost t = tree@;
    let child_count = tree.child_count(node);
    let mut k: usize = 0;
    while k < child_count
        invariant
            tree.wf(),
            t == tree@,
            node < t.len(),
            t[node as int].is_styled_element(),
            !t[node as int].is_display_none(),
            child_count == t[node as int].children.len(),
            k <= child_count,
            forall|j: int|
                0 <= j < k ==> {
                    let child = #[trigger] t[node as int].children[j];
                    node < child < t.len() && t[child as int].kind == NodeKind::Element
                        ==> styled_from(t, t.len(), child)
                },
        decreases child_count - k,
    {
        if let Some(child) = tree.child(node, k) {
            proof {
                assert(node_wf(t, node as int));
            }
            if tree.is_element(child) {
                if !is_styled_from(tree, child) {
                    return false;
                }
            }
        }
        k = k + 1;
    }
    true
}

/// The damage pass, started on `node` with the damage that the environment
/// puts on it. It leaves the boxes and the stored damage of `node` and of
/// what is below it as the new styles demand, and returns what is left for
/// the caller to do: in particular whether geometry must be computed again.
pub fn compute_damage_and_repair_style<B: LayoutBox>(
    context: &SharedStyleContext,
    tree: &mut LayoutTree<B>,
    node: usize,
    damage_from_environment: Damage,
) -> (damage: Damage)
    requires
        old(tree).wf(),
        ready_for_damage_pass(old(tree)@, node),
    ensures
        final(tree).wf(),
        final(tree)@ == propagate(*context, old(tree)@, node, damage_from_environment).0,
        damage == propagate(*context, old(tree)@, node, damage_from_environment).1,
{
    compute_damage_and_repair_style_inner(context, tree, node, damage_from_environment)
}

/// One step of the damage pass: visits `node` with the damage that its
/// parent hands down, and returns what `node` reports to its parent.
pub fn compute_damage_and_repair_style_inner<B: LayoutBox>(
    context: &SharedStyleContext,
    tree: &mut LayoutTree<B>,
    node: usize,
    damage_from_parent: Damage,
) -> (damage: Damage)
    requires
        old(tree).wf(),
        ready_for_damage_pass(old(tree)@, node),
    ensures
        final(tree).wf(),
        final(tree)@ == propagate(*context, old(tree)@, node, damage_from_parent).0,
        damage == propagate(*context, old(tree)@, node, damage_from_parent).1,
    decreases old(tree)@.len() - node, 1nat,
{
    let ghost t = tree@;
    let element_damage = tree.damage(node);
    let is_display_none = match tree.style_data(node) {
        Some(data) => data.style.display_none,
        None => false,
    };

    if is_display_none {
        tree.unset_all_boxes(node);
        return element_damage.union(damage_from_parent);
    }
    // Children get the geometry part of the damage only, unless a rebuild of
    // the box tree is under way: that one goes down to the first node that
    // isolates its subtree from it.

    let isolates = tree.isolates_box_tree_rebuild_damage(node);
    let damage_for_children = damage_for_children(element_damage, damage_from_parent, isolates);
    let damage_from_children = collect_damage_from_children(
        context,
        tree,
        node,
        damage_for_children,
    );
    proof {
        lemma_propagate_children_keeps_shape(
            *context,
            t,
            node,
            t[node as int].children,
            t[node as int].children.len(),
            damage_for_children,
        );
        assert(tree@[node as int] == t[node as int]);
    }
    settle(context, tree, node, element_damage, damage_from_parent, damage_from_children)
}

/// Visits the element children of `node`, in document order, each with
/// `damage_for_children`, and returns the union of what they report.
fn collect_damage_from_children<B: LayoutBox>(
    context: &SharedStyleContext,
    tree: &mut LayoutTree<B>,
    node: usize,
    damage_for_children: Damage,
) -> (damage: Damage)
    requires
        old(tree).wf(),
        ready_for_damage_pass(old(tree)@, node),
        !old(tree)@[node as int].is_display_none(),
    ensures
        final(tree).wf(),
        final(tree)@ == propagate_children(
            *context,
            old(tree)@,
            old(tree)@.len(),
            node,
            old(tree)@[node as int].children,
            old(tree)@[node as int].children.len(),
            damage_for_children,
        ).0,
        damage == propagate_children(
            *context,
            old(tree)@,
            old(tree)@.len(),
            node,
            old(tree)@[node as int].children,
            old(tree)@[node as int].children.len(),
            damage_for_children,
        ).1,
    decreases old(tree)@.len() - node, 0nat,
{
    let ghost t = tree@;
    let ghost kids = t[node as int].children;
    let mut damage_from_children = Damage::empty();
    let child_count = tree.child_count(node);
    let mut k: usize = 0;
    while k < child_count
        invariant
            t == old(tree)@,
            tree.wf(),
            tree_wf(t),
            same_shape(t, tree@),
            node < t.len(),
            styled_from(t, t.len(), node),
            !t[node as int].is_display_none(),
            kids == t[node as int].children,
            child_count == kids.len(),
            k <= child_count,
            tree@ == propagate_children(
                *context,
                t,
                t.len(),
                node,
                kids,
                k as nat,
                damage_for_children,
            ).0,
            damage_from_children == propagate_children(
                *context,
                t,
                t.len(),
                node,
                kids,
                k as nat,
                damage_for_children,
            ).1,
        decreases child_count - k,
    {
        let ghost u = tree@;
        proof {
            assert(t[node as int].same_shape(u[node as int]));
            assert(node_wf(t, node as int));
            assert(node < kids[k as int] < t.len());
            assert(t[kids[k as int] as int].same_shape(u[kids[k as int] as int]));
        }
        if let Some(child) = tree.child(node, k) {
            if tree.is_element(child) {
                proof {
                    lemma_styled_from_same_shape(t, u, t.len(), child);
                    lemma_propagate_from_keeps_shape(*context, u, child, damage_for_children);
                }
                let reported = compute_damage_and_repair_style_inner(
                    context,
                    tree,
                    child,
                    damage_for_children,
                );
                damage_from_children = damage_from_children.union(reported);
                proof {
                    lemma_same_shape_is_transitive(t, u, tree@);
                }
            }
        }
        k = k + 1;
    }
    damage_from_children
}

/// Settles `node` once its children have reported: discards its boxes or
/// repairs them in place, consumes the damage stored on it, and returns what
/// it reports to its parent.
fn settle<B: LayoutBox>(
    context: &SharedStyleContext,
    tree: &mut LayoutTree<B>,
    node: usize,
    element_damage: Damage,
    damage_from_parent: Damage,
    damage_from_children: Damage,
) -> (damage: Damage)
    requires
        old(tree).wf(),
        node < old(tree)@.len(),
        old(tree)@[node as int].data is Some,
        old(tree)@[node as int].damage() == element_damage,
    ensures
        final(tree).wf(),
        final(tree)@ == old(tree)@.update(
            node as int,
            settled(
                *context,
                old(tree)@[node as int],
                element_damage,
                damage_from_parent,
                damage_from_children,
            ),
        ),
        damage == report_to_parent(
            element_damage,
            damage_from_parent,
            damage_from_children,
            extra_damage(
                old(tree)@[node as int].boxes,
                element_damage,
                damage_from_parent,
                damage_from_children,
            ),
        ),
{
    let mut element_and_parent_damage = element_damage.union(damage_from_parent);

    // Of what the children report, only the geometry part goes further up.
    let mut layout_damage_for_parent = element_and_parent_damage.intersection(
        Damage::relayout(),
    ).union(damage_from_children.intersection(Damage::relayout()));

    if damage_from_children.contains(Damage::recollect_box_tree_children())
        || element_and_parent_damage.contains(Damage::recollect_box_tree_children()) {
        // This node, an ancestor or a descendant is rebuilt, so the boxes of
        // this node are no longer valid. The parent must collect its child
        // boxes again.
        tree.unset_all_boxes(node);
        layout_damage_for_parent.insert(Damage::recollect_box_tree_children());
    } else {
        // The boxes are kept. Where a relayout is due they drop what they
        // cached and cannot use any more.
        if element_and_parent_damage.union(damage_from_children).contains(Damage::relayout()) {
            let extra_layout_damage_for_parent = tree.with_layout_box_base_including_pseudos(
                node,
                element_damage,
                damage_from_children,
            );
            layout_damage_for_parent.insert(extra_layout_damage_for_parent);
        }
        // Kept boxes must point at the new style if the style of this
        // element has changed.

        if !element_damage.is_empty() {
            tree.repair_style(context, node);
        }
        // No boxes are built for this node, which is where damage is
        // otherwise consumed: it is consumed here.

        element_and_parent_damage = Damage::empty();
    }

    if element_and_parent_damage != element_damage {
        tree.set_damage(node, element_and_parent_damage);
    }
    proof {
        let done = settled(
            *context,
            old(tree)@[node as int],
            element_damage,
            damage_from_parent,
            damage_from_children,
        );
        assert(tree@[node as int].boxes =~= done.boxes);
        assert(tree@[node as int] == done);
        assert(tree@ =~= old(tree)@.update(node as int, done));
    }
    layout_damage_for_parent
}

} // verus!
