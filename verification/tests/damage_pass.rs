use layout_damage::cached_box::CachedBox;
use layout_damage::damage::Damage;
use layout_damage::dom::{
    ComputedStyle, LayoutBox, LayoutContext, LayoutTree, NodeKind, SharedStyleContext, StyleData,
    MAX_TREE_DEPTH,
};
use layout_damage::traversal::{
    compute_damage_and_repair_style, damage_for_children, is_ready_for_damage_pass, RecalcStyle,
    Restyle,
};

const CONTEXT: SharedStyleContext = SharedStyleContext { visited_styles_enabled: false };

fn style(id: u64) -> ComputedStyle {
    ComputedStyle { id, display_none: false }
}

fn hidden(id: u64) -> ComputedStyle {
    ComputedStyle { id, display_none: true }
}

/// An element with style `id`, the given damage and one block-level box that
/// still points at the style `id + 100`.
fn element(
    tree: &mut LayoutTree<CachedBox>,
    parent: Option<usize>,
    id: u64,
    damage: Damage,
) -> usize {
    let node = match parent {
        Some(parent) => tree.append_child(parent, NodeKind::Element).unwrap(),
        None => tree.add_root(NodeKind::Element),
    };
    tree.set_style_data(node, StyleData { style: style(id), damage });
    tree.push_box(node, CachedBox::new(style(id + 100), false));
    node
}

fn fresh_box(id: u64) -> CachedBox {
    CachedBox { style: style(id + 100), fragments_cached: true, inline_level: false }
}

#[test]
fn relayout_bubbles_up_a_chain() {
    let mut tree = LayoutTree::new();
    let a = element(&mut tree, None, 1, Damage::empty());
    let b = element(&mut tree, Some(a), 2, Damage::empty());
    let c = element(&mut tree, Some(b), 3, Damage::relayout());
    assert!(is_ready_for_damage_pass(&tree, a));

    let result = compute_damage_and_repair_style(&CONTEXT, &mut tree, a, Damage::empty());

    assert_eq!(result, Damage::relayout());
    // C: repaired, and pointed at its new style, because its own style changed.
    assert_eq!(
        tree.layout_box(c, 0),
        Some(&CachedBox { style: style(3), fragments_cached: false, inline_level: false })
    );
    // B and A: kept and repaired, style reference untouched.
    assert_eq!(
        tree.layout_box(b, 0),
        Some(&CachedBox { style: style(102), fragments_cached: false, inline_level: false })
    );
    assert_eq!(
        tree.layout_box(a, 0),
        Some(&CachedBox { style: style(101), fragments_cached: false, inline_level: false })
    );
    for node in [a, b, c] {
        assert_eq!(tree.box_count(node), 1);
        assert_eq!(tree.damage(node), Damage::empty());
        assert!(!tree.damage(node).has_box_damage());
    }
}

#[test]
fn new_child_makes_the_parent_recollect() {
    let mut tree = LayoutTree::new();
    let parent = element(&mut tree, None, 1, Damage::empty());
    let left = element(&mut tree, Some(parent), 2, Damage::empty());
    let right = element(&mut tree, Some(parent), 3, Damage::empty());
    let d = tree.append_child(parent, NodeKind::Element).unwrap();
    assert!(!is_ready_for_damage_pass(&tree, parent));

    let layout_context = LayoutContext { style_context: CONTEXT };
    let pass = RecalcStyle::new(&layout_context);
    pass.process_preorder(&mut tree, d, Restyle { style: style(4), damage: Damage::empty() });
    assert_eq!(
        tree.style_data(d),
        Some(StyleData { style: style(4), damage: Damage::reconstruct() })
    );
    assert!(is_ready_for_damage_pass(&tree, parent));

    let result = compute_damage_and_repair_style(&CONTEXT, &mut tree, parent, Damage::empty());

    assert_eq!(result, Damage::recollect_box_tree_children());
    assert!(!tree.has_box(parent));
    assert!(!tree.has_box(d));
    assert_eq!(tree.damage(d), Damage::reconstruct());
    assert_eq!(tree.layout_box(left, 0), Some(&fresh_box(2)));
    assert_eq!(tree.layout_box(right, 0), Some(&fresh_box(3)));
    assert_eq!(tree.damage(left), Damage::empty());
    assert_eq!(tree.damage(right), Damage::empty());
}

fn isolation_tree(isolates: bool) -> (LayoutTree<CachedBox>, usize, usize, usize) {
    let mut tree = LayoutTree::new();
    let top = element(&mut tree, None, 1, Damage::rebuild_box_tree());
    let middle = element(&mut tree, Some(top), 2, Damage::empty());
    let bottom = element(&mut tree, Some(middle), 3, Damage::empty());
    tree.set_isolates(middle, isolates);
    (tree, top, middle, bottom)
}

#[test]
fn isolation_stops_a_rebuild_from_above() {
    let (mut tree, top, middle, bottom) = isolation_tree(true);
    let result = compute_damage_and_repair_style(&CONTEXT, &mut tree, top, Damage::empty());
    assert_eq!(result, Damage::recollect_box_tree_children());
    assert!(!tree.has_box(top));
    // The isolating node is rebuilt itself; what is below it is kept.
    assert!(!tree.has_box(middle));
    assert_eq!(tree.damage(middle), Damage::rebuild_box_tree());
    assert_eq!(
        tree.layout_box(bottom, 0),
        Some(&CachedBox { style: style(103), fragments_cached: false, inline_level: false })
    );
    assert_eq!(tree.damage(bottom), Damage::empty());
}

#[test]
fn without_isolation_a_rebuild_goes_all_the_way_down() {
    let (mut tree, top, middle, bottom) = isolation_tree(false);
    let result = compute_damage_and_repair_style(&CONTEXT, &mut tree, top, Damage::empty());
    assert_eq!(result, Damage::recollect_box_tree_children());
    assert!(!tree.has_box(top));
    assert!(!tree.has_box(middle));
    assert!(!tree.has_box(bottom));
    assert_eq!(tree.damage(bottom), Damage::rebuild_box_tree());
}

#[test]
fn isolation_boundary_on_the_damage_handed_down() {
    let from_parent = Damage::rebuild_box_tree();
    assert_eq!(damage_for_children(Damage::empty(), from_parent, true), Damage::relayout());
    assert_eq!(
        damage_for_children(Damage::empty(), from_parent, false),
        Damage::rebuild_box_tree()
    );
    // Damage of its own goes down whether or not the node isolates.
    assert_eq!(
        damage_for_children(Damage::reconstruct(), Damage::empty(), true),
        Damage::rebuild_box_tree()
    );
    assert_eq!(
        damage_for_children(Damage::recollect_box_tree_children(), Damage::empty(), false),
        Damage::relayout()
    );
    assert_eq!(damage_for_children(Damage::empty(), Damage::empty(), false), Damage::empty());
}

#[test]
fn reconstruct_discards_every_box_below() {
    let mut tree = LayoutTree::new();
    let root = element(&mut tree, None, 1, Damage::reconstruct());
    let a = element(&mut tree, Some(root), 2, Damage::empty());
    let b = element(&mut tree, Some(root), 3, Damage::relayout());
    let a1 = element(&mut tree, Some(a), 4, Damage::empty());
    let a2 = element(&mut tree, Some(a), 5, Damage::empty());
    let b1 = element(&mut tree, Some(b), 6, Damage::empty());

    let result = compute_damage_and_repair_style(&CONTEXT, &mut tree, root, Damage::empty());

    assert_eq!(result, Damage::recollect_box_tree_children());
    for node in [root, a, b, a1, a2, b1] {
        assert!(!tree.has_box(node));
        assert!(tree.damage(node).contains(Damage::rebuild_box_tree()));
    }
    assert_eq!(tree.damage(root), Damage::reconstruct());
    assert_eq!(tree.damage(a), Damage::rebuild_box_tree());
}

#[test]
fn a_node_that_is_not_rendered_prunes_its_subtree() {
    let mut tree = LayoutTree::new();
    let root = element(&mut tree, None, 1, Damage::empty());
    let gone = tree.append_child(root, NodeKind::Element).unwrap();
    tree.set_style_data(gone, StyleData { style: hidden(2), damage: Damage::relayout() });
    tree.push_box(gone, fresh_box(2));
    let below = element(&mut tree, Some(gone), 3, Damage::reconstruct());
    // A node below that was never styled does not matter: it is not visited.
    let unstyled = tree.append_child(gone, NodeKind::Element).unwrap();
    assert!(is_ready_for_damage_pass(&tree, root));

    let result = compute_damage_and_repair_style(&CONTEXT, &mut tree, root, Damage::empty());

    assert_eq!(result, Damage::relayout());
    assert!(!tree.has_box(gone));
    assert_eq!(tree.damage(gone), Damage::relayout());
    assert_eq!(tree.damage(below), Damage::reconstruct());
    assert_eq!(tree.layout_box(below, 0), Some(&fresh_box(3)));
    assert_eq!(tree.style_data(unstyled), None);
    // The root was told of a relayout by its child and repaired its box.
    assert_eq!(
        tree.layout_box(root, 0),
        Some(&CachedBox { style: style(101), fragments_cached: false, inline_level: false })
    );
}

#[test]
fn a_second_pass_changes_nothing() {
    let mut tree = LayoutTree::new();
    let a = element(&mut tree, None, 1, Damage::relayout());
    let b = element(&mut tree, Some(a), 2, Damage::empty());
    let c = element(&mut tree, Some(b), 3, Damage::relayout());
    let text = tree.append_child(b, NodeKind::Text).unwrap();
    tree.push_box(text, fresh_box(9));

    let first = compute_damage_and_repair_style(&CONTEXT, &mut tree, a, Damage::empty());
    assert_eq!(first, Damage::relayout());
    let boxes: Vec<CachedBox> =
        [a, b, c, text].iter().map(|&n| *tree.layout_box(n, 0).unwrap()).collect();

    let second = compute_damage_and_repair_style(&CONTEXT, &mut tree, a, Damage::empty());

    assert_eq!(second, Damage::empty());
    for (k, node) in [a, b, c, text].into_iter().enumerate() {
        assert_eq!(tree.layout_box(node, 0), Some(&boxes[k]));
        assert_eq!(tree.box_count(node), 1);
        assert_eq!(tree.damage(node), Damage::empty());
    }
    // The text node was never touched.
    assert_eq!(boxes[3], fresh_box(9));
}

#[test]
fn damage_that_stays_is_seen_again() {
    // After a box was discarded, its node keeps the damage for whoever
    // builds the new box. Until that has happened a second pass reports it
    // once more.
    let mut tree = LayoutTree::new();
    let a = element(&mut tree, None, 1, Damage::reconstruct());
    let first = compute_damage_and_repair_style(&CONTEXT, &mut tree, a, Damage::empty());
    assert_eq!(first, Damage::recollect_box_tree_children());
    assert_eq!(tree.damage(a), Damage::reconstruct());
    let second = compute_damage_and_repair_style(&CONTEXT, &mut tree, a, Damage::empty());
    assert_eq!(second, Damage::recollect_box_tree_children());
    assert!(!tree.has_box(a));
}

#[test]
fn an_inline_box_reports_to_the_parent() {
    let mut tree = LayoutTree::new();
    let parent = element(&mut tree, None, 1, Damage::empty());
    let child = tree.append_child(parent, NodeKind::Element).unwrap();
    tree.set_style_data(child, StyleData { style: style(2), damage: Damage::relayout() });
    tree.push_box(child, CachedBox::new(style(102), true));
    tree.push_box(child, CachedBox::new(style(102), false));

    let result = compute_damage_and_repair_style(&CONTEXT, &mut tree, parent, Damage::empty());

    // The child keeps both boxes, repaired and restyled, and asks the
    // parent to collect its child boxes again: the parent loses its box.
    assert_eq!(result, Damage::recollect_box_tree_children());
    assert_eq!(tree.box_count(child), 2);
    assert_eq!(
        tree.layout_box(child, 0),
        Some(&CachedBox { style: style(2), fragments_cached: false, inline_level: true })
    );
    assert_eq!(
        tree.layout_box(child, 1),
        Some(&CachedBox { style: style(2), fragments_cached: false, inline_level: false })
    );
    assert_eq!(tree.damage(child), Damage::empty());
    assert!(!tree.has_box(parent));
    assert_eq!(tree.damage(parent), Damage::empty());
}

#[test]
fn damage_from_the_environment_reaches_the_root() {
    let mut tree = LayoutTree::new();
    let root = element(&mut tree, None, 1, Damage::empty());
    let child = element(&mut tree, Some(root), 2, Damage::empty());
    let result = compute_damage_and_repair_style(&CONTEXT, &mut tree, root, Damage::relayout());
    assert_eq!(result, Damage::relayout());
    // Neither style changed: boxes are repaired, style references stay.
    assert_eq!(
        tree.layout_box(root, 0),
        Some(&CachedBox { style: style(101), fragments_cached: false, inline_level: false })
    );
    assert_eq!(
        tree.layout_box(child, 0),
        Some(&CachedBox { style: style(102), fragments_cached: false, inline_level: false })
    );
}

#[test]
fn text_children_are_passed_over() {
    let mut tree = LayoutTree::new();
    let root = element(&mut tree, None, 1, Damage::empty());
    let text = tree.append_child(root, NodeKind::Text).unwrap();
    tree.push_box(text, fresh_box(5));
    let child = element(&mut tree, Some(root), 2, Damage::rebuild_box_tree());
    let result = compute_damage_and_repair_style(&CONTEXT, &mut tree, root, Damage::empty());
    assert_eq!(result, Damage::recollect_box_tree_children());
    assert_eq!(tree.layout_box(text, 0), Some(&fresh_box(5)));
    assert!(!tree.has_box(child));
    assert!(!tree.has_box(root));
    assert_eq!(tree.damage(root), Damage::empty());
}

#[test]
fn readiness_needs_style_on_every_visited_element() {
    let mut tree: LayoutTree<CachedBox> = LayoutTree::new();
    let root = tree.add_root(NodeKind::Element);
    assert!(!is_ready_for_damage_pass(&tree, root));
    assert!(!is_ready_for_damage_pass(&tree, 17));
    tree.set_style_data(root, StyleData { style: style(1), damage: Damage::empty() });
    assert!(is_ready_for_damage_pass(&tree, root));
    let text = tree.append_child(root, NodeKind::Text).unwrap();
    assert!(is_ready_for_damage_pass(&tree, root));
    assert!(!is_ready_for_damage_pass(&tree, text));
    let child = tree.append_child(root, NodeKind::Element).unwrap();
    assert!(!is_ready_for_damage_pass(&tree, root));
    tree.set_style_data(child, StyleData { style: style(2), damage: Damage::empty() });
    assert!(is_ready_for_damage_pass(&tree, root));
}

#[test]
fn style_pass_hooks() {
    let layout_context = LayoutContext { style_context: CONTEXT };
    let pass = RecalcStyle::new(&layout_context);
    assert_eq!(*pass.context(), layout_context);
    assert_eq!(*pass.shared_context(), CONTEXT);
    assert!(!RecalcStyle::needs_postorder_traversal());

    let mut tree: LayoutTree<CachedBox> = LayoutTree::new();
    let root = tree.add_root(NodeKind::Element);
    let text = tree.append_child(root, NodeKind::Text).unwrap();
    tree.set_dirty_descendants(root, true);

    // First visit: a full reconstruct, whatever the engine reports.
    pass.process_preorder(&mut tree, root, Restyle { style: style(1), damage: Damage::relayout() });
    assert_eq!(
        tree.style_data(root),
        Some(StyleData { style: style(1), damage: Damage::reconstruct() })
    );
    assert!(!tree.has_dirty_descendants(root));

    // Later visits add the engine's damage to what is stored.
    tree.set_damage(root, Damage::relayout());
    tree.set_dirty_descendants(root, true);
    pass.process_preorder(
        &mut tree,
        root,
        Restyle { style: style(7), damage: Damage::recollect_box_tree_children() },
    );
    assert_eq!(
        tree.style_data(root),
        Some(StyleData { style: style(7), damage: Damage::recollect_box_tree_children() })
    );
    assert!(!tree.has_dirty_descendants(root));

    // Text nodes are passed over, and so are nodes that do not exist.
    pass.process_preorder(&mut tree, text, Restyle { style: style(8), damage: Damage::relayout() });
    assert_eq!(tree.style_data(text), None);
    pass.process_preorder(&mut tree, 99, Restyle { style: style(8), damage: Damage::relayout() });
    assert_eq!(tree.len(), 2);

    // A text node is visited while it has no box, or while its parent has damage.
    let calm = StyleData { style: style(7), damage: Damage::empty() };
    let damaged = StyleData { style: style(7), damage: Damage::relayout() };
    assert!(RecalcStyle::text_node_needs_traversal(&tree, text, &calm));
    tree.push_box(text, fresh_box(1));
    assert!(!RecalcStyle::text_node_needs_traversal(&tree, text, &calm));
    assert!(RecalcStyle::text_node_needs_traversal(&tree, text, &damaged));
}

#[test]
fn the_tree_has_a_depth_limit() {
    let mut tree: LayoutTree<CachedBox> = LayoutTree::new();
    let mut node = tree.add_root(NodeKind::Element);
    for depth in 1..=MAX_TREE_DEPTH {
        node = tree.append_child(node, NodeKind::Element).unwrap();
        assert_eq!(tree.depth(node), Some(depth));
    }
    assert_eq!(tree.append_child(node, NodeKind::Element), None);
    assert_eq!(tree.append_child(node, NodeKind::Text), None);
    assert_eq!(tree.len(), MAX_TREE_DEPTH + 1);

    // The pass goes all the way down a tree of full depth.
    for id in 0..tree.len() {
        tree.set_style_data(id, StyleData { style: style(1), damage: Damage::empty() });
        tree.push_box(id, fresh_box(1));
    }
    tree.set_damage(node, Damage::relayout());
    let result = compute_damage_and_repair_style(&CONTEXT, &mut tree, 0, Damage::empty());
    assert_eq!(result, Damage::relayout());
    assert_eq!(tree.damage(node), Damage::empty());
}

#[test]
fn tree_links() {
    let mut tree: LayoutTree<CachedBox> = LayoutTree::new();
    assert_eq!(tree.len(), 0);
    let root = tree.add_root(NodeKind::Element);
    let text = tree.append_child(root, NodeKind::Text).unwrap();
    let child = tree.append_child(root, NodeKind::Element).unwrap();
    assert_eq!((root, text, child), (0, 1, 2));
    assert_eq!(tree.append_child(text, NodeKind::Element), None);
    assert_eq!(tree.append_child(9, NodeKind::Element), None);
    assert_eq!(tree.len(), 3);
    assert_eq!(tree.kind(root), Some(NodeKind::Element));
    assert_eq!(tree.kind(text), Some(NodeKind::Text));
    assert_eq!(tree.kind(3), None);
    assert!(tree.is_element(child) && !tree.is_element(text) && !tree.is_element(3));
    assert!(tree.is_text_node(text) && !tree.is_text_node(root) && !tree.is_text_node(3));
    assert_eq!(tree.parent(root), None);
    assert_eq!(tree.parent(child), Some(root));
    assert_eq!(tree.parent(3), None);
    assert_eq!(tree.depth(root), Some(0));
    assert_eq!(tree.depth(child), Some(1));
    assert_eq!(tree.depth(3), None);
    assert_eq!(tree.child_count(root), 2);
    assert_eq!(tree.child_count(text), 0);
    assert_eq!(tree.child_count(3), 0);
    assert_eq!(tree.child(root, 0), Some(text));
    assert_eq!(tree.child(root, 1), Some(child));
    assert_eq!(tree.child(root, 2), None);
    assert_eq!(tree.child(3, 0), None);

    // A text node takes no style, and damage needs style storage.
    tree.set_style_data(text, StyleData { style: style(1), damage: Damage::relayout() });
    assert_eq!(tree.style_data(text), None);
    tree.set_damage(child, Damage::relayout());
    assert_eq!(tree.damage(child), Damage::empty());
    tree.set_style_data(child, StyleData { style: style(1), damage: Damage::empty() });
    tree.set_damage(child, Damage::relayout());
    assert_eq!(tree.damage(child), Damage::relayout());
    assert_eq!(tree.damage(3), Damage::empty());

    assert!(!tree.isolates_box_tree_rebuild_damage(child));
    tree.set_isolates(child, true);
    assert!(tree.isolates_box_tree_rebuild_damage(child));
    assert!(!tree.isolates_box_tree_rebuild_damage(3));
    tree.set_isolates(3, true);
    tree.set_dirty_descendants(3, true);
    assert!(!tree.has_dirty_descendants(3));

    assert!(!tree.has_box(child));
    tree.push_box(child, fresh_box(1));
    tree.push_box(child, fresh_box(2));
    tree.push_box(3, fresh_box(3));
    assert_eq!(tree.box_count(child), 2);
    assert_eq!(tree.box_count(3), 0);
    assert_eq!(tree.layout_box(child, 1), Some(&fresh_box(2)));
    assert_eq!(tree.layout_box(child, 2), None);
    tree.repair_style(&CONTEXT, child);
    assert_eq!(tree.layout_box(child, 0).unwrap().style, style(1));
    assert_eq!(tree.layout_box(child, 1).unwrap().style, style(1));
    let extra = tree.with_layout_box_base_including_pseudos(
        child,
        Damage::relayout(),
        Damage::empty(),
    );
    assert_eq!(extra, Damage::empty());
    assert!(!tree.layout_box(child, 0).unwrap().fragments_cached);
    assert_eq!(
        tree.with_layout_box_base_including_pseudos(3, Damage::relayout(), Damage::empty()),
        Damage::empty()
    );
    tree.unset_all_boxes(child);
    tree.unset_all_boxes(3);
    assert!(!tree.has_box(child));
    tree.repair_style(&CONTEXT, root);
    assert_eq!(tree.len(), 3);
}

#[test]
fn children_never_get_more_than_the_parent_has() {
    let mut values = Vec::new();
    for bits in 0..16u8 {
        values.push(Damage {
            relayout: bits & 1 != 0,
            recollect_children: bits & 2 != 0,
            rebuild_box: bits & 4 != 0,
            reconstruct: bits & 8 != 0,
        });
    }
    for &own in &values {
        for &from_parent in &values {
            for isolates in [false, true] {
                let handed_down = damage_for_children(own, from_parent, isolates);
                let rebuilds = own.contains(Damage::rebuild_box_tree())
                    || (from_parent.contains(Damage::rebuild_box_tree()) && !isolates);
                assert!(own.union(from_parent).contains(handed_down));
                assert_eq!(handed_down.has_box_damage(), rebuilds);
                if rebuilds {
                    assert!(handed_down.contains(Damage::rebuild_box_tree()));
                    assert!(!handed_down.reconstruct);
                } else {
                    assert_eq!(handed_down, own.union(from_parent).truncated());
                }
            }
        }
    }
}

#[test]
fn a_cached_box_takes_damage_in() {
    let mut block = CachedBox::new(style(1), false);
    assert!(block.fragments_cached);
    assert_eq!(block.add_damage(Damage::relayout(), Damage::empty()), Damage::empty());
    assert!(!block.fragments_cached);
    block.repair_style(&CONTEXT, &style(2));
    assert_eq!(block, CachedBox { style: style(2), fragments_cached: false, inline_level: false });

    let mut inline = CachedBox::new(style(1), true);
    assert_eq!(inline.add_damage(Damage::empty(), Damage::relayout()), Damage::empty());
    assert_eq!(
        inline.add_damage(Damage::relayout(), Damage::empty()),
        Damage::recollect_box_tree_children()
    );
    assert_eq!(inline.style, style(1));
}
