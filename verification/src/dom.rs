//! The node tree that both passes walk, held in an arena.
//!
//! Nodes are created by appending and are never removed, so a child always
//! has a larger index than its parent. A node owns at most one [`StyleData`]
//! and any number of cached boxes: its own and those of its pseudo-elements.
//! What a box is stays open: the tree is generic over [`LayoutBox`].

use vstd::prelude::*;
use crate::damage::Damage;

verus! {

/// The deepest a node may sit below its root. Both passes recurse once per
/// level, so this bounds their stack.
pub const MAX_TREE_DEPTH: usize = 512;

/// The two kinds of node. Only an element has a style of its own.
#[derive(Clone, Copy, Debug, PartialEq, Eq, Structural)]
pub enum NodeKind {
    Element,
    Text,
}

/// What the style engine computed for an element: which style it is, and
/// whether that style takes the element out of rendering.
#[derive(Clone, Copy, Debug, PartialEq, Eq, Structural)]
pub struct ComputedStyle {
    /// Identity of the computed values; two styles with the same `id` are the
    /// same style.
    pub id: u64,
    /// The style says that the element generates no box.
    pub display_none: bool,
}

/// Per-element style storage: the current style and the damage that the last
/// restyle left on the element.
#[derive(Clone, Copy, Debug, PartialEq, Eq, Structural)]
pub struct StyleData {
    pub style: ComputedStyle,
    pub damage: Damage,
}

/// What all tasks of one reflow share and only read.
#[derive(Clone, Copy, Debug, PartialEq, Eq, Structural)]
pub struct SharedStyleContext {
    /// Whether styles for visited links may be used.
    pub visited_styles_enabled: bool,
}

/// What layout shares during one reflow.
#[derive(Clone, Copy, Debug, PartialEq, Eq, Structural)]
pub struct LayoutContext {
    pub style_context: SharedStyleContext,
}

/// A cached layout box, as far as the damage pass needs to know it.
///
/// The pass never looks inside a box. It asks a box to take damage in, which
/// lets the box drop whatever it cached that the damage made stale, and to
/// point at the element's current style. What either does to the box is the
/// implementor's business; the spec functions name it.
pub trait LayoutBox: Sized {
    /// The box after it has taken in `own` damage of its element and the
    /// damage `from_children` that the element's children reported.
    spec fn damaged(&self, own: Damage, from_children: Damage) -> Self;

    /// The further damage that taking those in makes the box report to the
    /// element's parent.
    spec fn reported(&self, own: Damage, from_children: Damage) -> Damage;

    /// The box after its style reference was set to `style`.
    spec fn restyled(&self, context: SharedStyleContext, style: ComputedStyle) -> Self;

    /// Takes damage in and reports what the parent has to know.
    fn add_damage(&mut self, own: Damage, from_children: Damage) -> (extra: Damage)
        ensures
            *final(self) == old(self).damaged(own, from_children),
            extra == old(self).reported(own, from_children),
    ;

    /// Points the box at `style` without touching geometry.
    fn repair_style(&mut self, context: &SharedStyleContext, style: &ComputedStyle)
        ensures
            *final(self) == old(self).restyled(*context, *style),
    ;
}

/// One node of the arena.
pub struct Node<B> {
    kind: NodeKind,
    parent: Option<usize>,
    children: Vec<usize>,
    depth: usize,
    data: Option<StyleData>,
    isolates: bool,
    dirty_descendants: bool,
    boxes: Vec<B>,
}

/// The mathematical model of a node.
pub ghost struct NodeView<B> {
    pub kind: NodeKind,
    /// Index of the parent, if the node is not a root.
    pub parent: Option<usize>,
    /// Indices of the children, in document order.
    pub children: Seq<usize>,
    /// Number of ancestors.
    pub depth: usize,
    /// Style storage; `None` until the style pass has visited the node.
    pub data: Option<StyleData>,
    /// The node starts an independent formatting context, where a rebuild
    /// that an ancestor asked for stops.
    pub isolates: bool,
    /// The style engine wants the node's descendants visited again.
    pub dirty_descendants: bool,
    /// The cached boxes of the node and of its pseudo-elements.
    pub boxes: Seq<B>,
}

impl<B> NodeView<B> {
    /// The damage stored on the node; none where it has no style storage.
    pub open spec fn damage(self) -> Damage {
        match self.data {
            Some(data) => data.damage,
            None => Damage::empty(),
        }
    }

    /// The node's style says that it generates no box.
    pub open spec fn is_display_none(self) -> bool {
        self.data is Some && self.data->0.style.display_none
    }

    /// The node is an element that the style pass has visited.
    pub open spec fn is_styled_element(self) -> bool {
        self.kind == NodeKind::Element && self.data is Some
    }

    /// The same node with other boxes.
    pub open spec fn with_boxes(self, boxes: Seq<B>) -> NodeView<B> {
        NodeView { boxes, ..self }
    }

    /// The same node with other stored damage; unchanged where it has no
    /// style storage.
    pub open spec fn with_damage(self, damage: Damage) -> NodeView<B> {
        match self.data {
            Some(data) => NodeView { data: Some(StyleData { damage, ..data }), ..self },
            None => self,
        }
    }

    /// The two nodes differ at most in their stored damage and their boxes.
    pub open spec fn same_shape(self, other: NodeView<B>) -> bool {
        &&& self.kind == other.kind
        &&& self.parent == other.parent
        &&& self.children == other.children
        &&& self.depth == other.depth
        &&& self.isolates == other.isolates
        &&& self.dirty_descendants == other.dirty_descendants
        &&& self.data is Some <==> other.data is Some
        &&& self.data is Some ==> self.data->0.style == other.data->0.style
    }
}

impl<B> Node<B> {
    pub closed spec fn view(&self) -> NodeView<B> {
        NodeView {
            kind: self.kind,
            parent: self.parent,
            children: self.children@,
            depth: self.depth,
            data: self.data,
            isolates: self.isolates,
            dirty_descendants: self.dirty_descendants,
            boxes: self.boxes@,
        }
    }
}

/// Node `i` of `t` is linked to its parent and children as a tree node is.
pub open spec fn node_wf<B>(t: Seq<NodeView<B>>, i: int) -> bool {
    let n = t[i];
    &&& n.depth <= MAX_TREE_DEPTH
    &&& match n.parent {
        None => n.depth == 0,
        Some(p) => {
            &&& p < i
            &&& t[p as int].kind == NodeKind::Element
            &&& t[p as int].depth + 1 == n.depth
            &&& t[p as int].children.contains(i as usize)
        },
    }
    &&& forall|k: int|
        0 <= k < n.children.len() ==> i < #[trigger] n.children[k] < t.len() && t[n.children[k] as int].parent
            == Some(i as usize)
    &&& forall|j: int, k: int| 0 <= j < k < n.children.len() ==> n.children[j] < n.children[k]
    &&& n.kind == NodeKind::Text ==> n.children.len() == 0 && n.data is None
}

/// `t` is a forest: every node is well linked.
pub open spec fn tree_wf<B>(t: Seq<NodeView<B>>) -> bool {
    forall|i: int| 0 <= i < t.len() ==> #[trigger] node_wf(t, i)
}

/// The two trees have the same nodes, which differ at most in their stored
/// damage and their boxes.
pub open spec fn same_shape<B>(t: Seq<NodeView<B>>, u: Seq<NodeView<B>>) -> bool {
    &&& t.len() == u.len()
    &&& forall|i: int| 0 <= i < t.len() ==> (#[trigger] t[i]).same_shape(u[i])
}

/// The boxes after each of them has taken the damage in.
pub open spec fn damaged_boxes<B: LayoutBox>(boxes: Seq<B>, own: Damage, from_children: Damage) -> Seq<
    B,
> {
    Seq::new(boxes.len(), |k: int| boxes[k].damaged(own, from_children))
}

/// The union of what the boxes report when they take the damage in.
pub open spec fn reported_damage<B: LayoutBox>(
    boxes: Seq<B>,
    own: Damage,
    from_children: Damage,
) -> Damage
    decreases boxes.len(),
{
    if boxes.len() == 0 {
        Damage::empty()
    } else {
        reported_damage(boxes.drop_last(), own, from_children).union(
            boxes.last().reported(own, from_children),
        )
    }
}

/// The boxes after each of them was pointed at `style`.
pub open spec fn restyled_boxes<B: LayoutBox>(
    boxes: Seq<B>,
    context: SharedStyleContext,
    style: ComputedStyle,
) -> Seq<B> {
    Seq::new(boxes.len(), |k: int| boxes[k].restyled(context, style))
}

/// Having the same shape is an equivalence: here, that it is transitive and
/// symmetric.
pub proof fn lemma_same_shape_is_transitive<B>(
    t: Seq<NodeView<B>>,
    u: Seq<NodeView<B>>,
    v: Seq<NodeView<B>>,
)
    requires
        same_shape(t, u),
        same_shape(u, v),
    ensures
        same_shape(t, v),
        same_shape(u, t),
{
    assert forall|i: int| 0 <= i < t.len() implies (#[trigger] t[i]).same_shape(v[i]) by {
        assert(t[i].same_shape(u[i]));
        assert(u[i].same_shape(v[i]));
    }
    assert forall|i: int| 0 <= i < u.len() implies (#[trigger] u[i]).same_shape(t[i]) by {
        assert(t[i].same_shape(u[i]));
    }
}

/// `t` with node `id` replaced by `node`; `t` itself where it has no such node.
pub open spec fn updated_at<B>(t: Seq<NodeView<B>>, id: usize, node: NodeView<B>) -> Seq<NodeView<B>> {
    if id < t.len() {
        t.update(id as int, node)
    } else {
        t
    }
}

/// Replacing a node by one with the same links keeps a forest a forest.
pub proof fn lemma_wf_after_update<B>(t: Seq<NodeView<B>>, id: usize, node: NodeView<B>)
    requires
        tree_wf(t),
        id < t.len(),
        node.kind == t[id as int].kind,
        node.parent == t[id as int].parent,
        node.children == t[id as int].children,
        node.depth == t[id as int].depth,
        node.kind == NodeKind::Text ==> node.data is None,
    ensures
        tree_wf(t.update(id as int, node)),
{
    let u = t.update(id as int, node);
    assert forall|i: int| 0 <= i < u.len() implies #[trigger] node_wf(u, i) by {
        assert(node_wf(t, i));
        assert forall|k: int| 0 <= k < u[i].children.len() implies i < #[trigger] u[i].children[k]
            < u.len() && u[u[i].children[k] as int].parent == Some(i as usize) by {
            let c = t[i].children[k];
            assert(t[c as int].parent == Some(i as usize));
        }
        if t[i].parent is Some {
            let g = t[i].parent->0 as int;
            assert(t[g].children.contains(i as usize));
            assert(u[g].children == t[g].children);
        }
    }
}

/// Two trees of the same shape are forests together.
pub proof fn lemma_same_shape_wf<B>(t: Seq<NodeView<B>>, u: Seq<NodeView<B>>)
    requires
        tree_wf(t),
        same_shape(t, u),
    ensures
        tree_wf(u),
{
    assert forall|i: int| 0 <= i < u.len() implies #[trigger] node_wf(u, i) by {
        assert(node_wf(t, i));
        assert(t[i].same_shape(u[i]));
        assert forall|k: int| 0 <= k < u[i].children.len() implies i < #[trigger] u[i].children[k]
            < u.len() && u[u[i].children[k] as int].parent == Some(i as usize) by {
            let c = t[i].children[k];
            assert(t[c as int].parent == Some(i as usize));
            assert(t[c as int].same_shape(u[c as int]));
        }
        if t[i].parent is Some {
            let g = t[i].parent->0 as int;
            assert(t[g].children.contains(i as usize));
            assert(t[g].same_shape(u[g]));
        }
    }
}

/// The arena of nodes.
pub struct LayoutTree<B> {
    nodes: Vec<Node<B>>,
}

impl<B> View for LayoutTree<B> {
    type V = Seq<NodeView<B>>;

    closed spec fn view(&self) -> Seq<NodeView<B>> {
        Seq::new(self.nodes@.len(), |i: int| self.nodes@[i].view())
    }
}

impl<B> LayoutTree<B> {
    /// The tree's invariant: it is a forest within the depth limit.
    pub open spec fn wf(&self) -> bool {
        tree_wf(self@)
    }

    /// A tree without nodes.
    pub fn new() -> (tree: Self)
        ensures
            tree.wf(),
            tree@.len() == 0,
    {
        LayoutTree { nodes: Vec::new() }
    }

    /// Number of nodes. Every index below it names a node.
    pub fn len(&self) -> (n: usize)
        ensures
            n == self@.len(),
    {
        self.nodes.len()
    }

    /// Adds a node without parent and returns its index.
    pub fn add_root(&mut self, kind: NodeKind) -> (id: usize)
        requires
            old(self).wf(),
        ensures
            final(self).wf(),
            id == old(self)@.len(),
            final(self)@ == old(self)@.push(
                NodeView {
                    kind,
                    parent: None,
                    children: Seq::empty(),
                    depth: 0,
                    data: None,
                    isolates: false,
                    dirty_descendants: false,
                    boxes: Seq::empty(),
                },
            ),
    {
        let id = self.nodes.len();
        self.nodes.push(
            Node {
                kind,
                parent: None,
                children: Vec::new(),
                depth: 0,
                data: None,
                isolates: false,
                dirty_descendants: false,
                boxes: Vec::new(),
            },
        );
        proof {
            let t = old(self)@;
            let u = self@;
            assert(u =~= t.push(
                NodeView {
                    kind,
                    parent: None,
                    children: Seq::empty(),
                    depth: 0,
                    data: None,
                    isolates: false,
                    dirty_descendants: false,
                    boxes: Seq::empty(),
                },
            ));
            assert forall|i: int| 0 <= i < u.len() implies #[trigger] node_wf(u, i) by {
                if i < t.len() {
                    assert(node_wf(t, i));
                    assert(u[i] == t[i]);
                }
            }
        }
        id
    }

    /// Whether a child can be appended to `parent`: it is an element of this
    /// tree that does not sit at the depth limit.
    pub open spec fn can_append_to(&self, parent: usize) -> bool {
        &&& parent < self@.len()
        &&& self@[parent as int].kind == NodeKind::Element
        &&& self@[parent as int].depth < MAX_TREE_DEPTH
    }

    /// Appends a new node as the last child of `parent` and returns its
    /// index. Where `parent` cannot take a child the tree stays as it is.
    pub fn append_child(&mut self, parent: usize, kind: NodeKind) -> (id: Option<usize>)
        requires
            old(self).wf(),
        ensures
            final(self).wf(),
            id is Some <==> old(self).can_append_to(parent),
            id is None ==> final(self)@ == old(self)@,
            id is Some ==> {
                let t = old(self)@;
                let p = t[parent as int];
                &&& id == Some(t.len() as usize)
                &&& final(self)@ == t.update(
                    parent as int,
                    NodeView { children: p.children.push(t.len() as usize), ..p },
                ).push(
                    NodeView {
                        kind,
                        parent: Some(parent),
                        children: Seq::empty(),
                        depth: (p.depth + 1) as usize,
                        data: None,
                        isolates: false,
                        dirty_descendants: false,
                        boxes: Seq::empty(),
                    },
                )
            },
    {
        if parent >= self.nodes.len() {
            return None;
        }
        match self.nodes[parent].kind {
            NodeKind::Text => {
                return None;
            },
            NodeKind::Element => {},
        }
        let depth = self.nodes[parent].depth;
        if depth >= MAX_TREE_DEPTH {
            return None;
        }
        let id = self.nodes.len();
        proof {
            assert(node_wf(old(self)@, parent as int));
        }
        self.nodes[parent].children.push(id);
        self.nodes.push(
            Node {
                kind,
                parent: Some(parent),
                children: Vec::new(),
                depth: depth + 1,
                data: None,
                isolates: false,
                dirty_descendants: false,
                boxes: Vec::new(),
            },
        );
        proof {
            let t = old(self)@;
            let p = t[parent as int];
            let u = self@;
            let child = NodeView::<B> {
                kind,
                parent: Some(parent),
                children: Seq::empty(),
                depth: (p.depth + 1) as usize,
                data: None,
                isolates: false,
                dirty_descendants: false,
                boxes: Seq::empty(),
            };
            assert(u =~= t.update(
                parent as int,
                NodeView { children: p.children.push(id), ..p },
            ).push(child));
            assert forall|i: int| 0 <= i < u.len() implies #[trigger] node_wf(u, i) by {
                if i == id {
                    assert(u[parent as int].children[p.children.len() as int] == id);
                } else if i == parent {
                    assert(node_wf(t, i));
                    assert forall|k: int| 0 <= k < u[i].children.len() implies i
                        < #[trigger] u[i].children[k] < u.len() && u[u[i].children[k] as int].parent
                        == Some(i as usize) by {
                        if k < p.children.len() {
                            assert(u[i].children[k] == p.children[k]);
                        }
                    }
                    if p.parent is Some {
                        let g = p.parent->0 as int;
                        assert(t[g].children.contains(i as usize));
                        assert(u[g] == t[g]);
                    }
                } else {
                    assert(node_wf(t, i));
                    assert(u[i] == t[i]);
                    if t[i].parent is Some {
                        let g = t[i].parent->0 as int;
                        let k = choose|k: int| 0 <= k < t[g].children.len() && t[g].children[k] == i;
                        assert(u[g].children[k] == i);
                    }
                    assert forall|k: int| 0 <= k < u[i].children.len() implies i
                        < #[trigger] u[i].children[k] < u.len() && u[u[i].children[k] as int].parent
                        == Some(i as usize) by {
                        let c = t[i].children[k];
                        assert(t[c as int].parent == Some(i as usize));
                    }
                }
            }
        }
        Some(id)
    }
}

impl<B> LayoutTree<B> {
    /// The kind of node `id`; `None` where the tree has no such node.
    pub fn kind(&self, id: usize) -> (kind: Option<NodeKind>)
        ensures
            kind == if id < self@.len() {
                Some(self@[id as int].kind)
            } else {
                None
            },
    {
        if id < self.nodes.len() {
            Some(self.nodes[id].kind)
        } else {
            None
        }
    }

    /// Whether `id` names an element.
    pub fn is_element(&self, id: usize) -> (b: bool)
        ensures
            b == (id < self@.len() && self@[id as int].kind == NodeKind::Element),
    {
        if id < self.nodes.len() {
            match self.nodes[id].kind {
                NodeKind::Element => true,
                NodeKind::Text => false,
            }
        } else {
            false
        }
    }

    /// Whether `id` names a text node.
    pub fn is_text_node(&self, id: usize) -> (b: bool)
        ensures
            b == (id < self@.len() && self@[id as int].kind == NodeKind::Text),
    {
        if id < self.nodes.len() {
            match self.nodes[id].kind {
                NodeKind::Element => false,
                NodeKind::Text => true,
            }
        } else {
            false
        }
    }

    /// The parent of node `id`; `None` for a root and where the tree has no
    /// such node.
    pub fn parent(&self, id: usize) -> (parent: Option<usize>)
        ensures
            parent == if id < self@.len() {
                self@[id as int].parent
            } else {
                None
            },
    {
        if id < self.nodes.len() {
            self.nodes[id].parent
        } else {
            None
        }
    }

    /// How many ancestors node `id` has; `None` where the tree has no such
    /// node.
    pub fn depth(&self, id: usize) -> (depth: Option<usize>)
        ensures
            depth == if id < self@.len() {
                Some(self@[id as int].depth)
            } else {
                None
            },
    {
        if id < self.nodes.len() {
            Some(self.nodes[id].depth)
        } else {
            None
        }
    }

    /// How many children node `id` has; none where the tree has no such
    /// node.
    pub fn child_count(&self, id: usize) -> (n: usize)
        ensures
            n == if id < self@.len() {
                self@[id as int].children.len()
            } else {
                0
            },
    {
        if id < self.nodes.len() {
            self.nodes[id].children.len()
        } else {
            0
        }
    }

    /// The `k`-th child of node `id`, in document order.
    pub fn child(&self, id: usize, k: usize) -> (child: Option<usize>)
        ensures
            child == if id < self@.len() && k < self@[id as int].children.len() {
                Some(self@[id as int].children[k as int])
            } else {
                None
            },
    {
        if id < self.nodes.len() && k < self.nodes[id].children.len() {
            Some(self.nodes[id].children[k])
        } else {
            None
        }
    }

    /// The style storage of node `id`, if the style pass has made one.
    pub fn style_data(&self, id: usize) -> (data: Option<StyleData>)
        ensures
            data == if id < self@.len() {
                self@[id as int].data
            } else {
                None
            },
    {
        if id < self.nodes.len() {
            self.nodes[id].data
        } else {
            None
        }
    }

    /// The damage stored on node `id`; none where there is no style storage.
    pub fn damage(&self, id: usize) -> (damage: Damage)
        ensures
            damage == if id < self@.len() {
                self@[id as int].damage()
            } else {
                Damage::empty()
            },
    {
        if id < self.nodes.len() {
            match self.nodes[id].data {
                Some(data) => data.damage,
                None => Damage::empty(),
            }
        } else {
            Damage::empty()
        }
    }

    /// Whether node `id` stops a rebuild that an ancestor asked for.
    pub fn isolates_box_tree_rebuild_damage(&self, id: usize) -> (b: bool)
        ensures
            b == (id < self@.len() && self@[id as int].isolates),
    {
        id < self.nodes.len() && self.nodes[id].isolates
    }

    /// Whether the style engine wants the descendants of node `id` visited
    /// again.
    pub fn has_dirty_descendants(&self, id: usize) -> (b: bool)
        ensures
            b == (id < self@.len() && self@[id as int].dirty_descendants),
    {
        id < self.nodes.len() && self.nodes[id].dirty_descendants
    }

    /// How many boxes node `id` holds.
    pub fn box_count(&self, id: usize) -> (n: usize)
        ensures
            n == if id < self@.len() {
                self@[id as int].boxes.len()
            } else {
                0
            },
    {
        if id < self.nodes.len() {
            self.nodes[id].boxes.len()
        } else {
            0
        }
    }

    /// Whether node `id` holds a box.
    pub fn has_box(&self, id: usize) -> (b: bool)
        ensures
            b == (id < self@.len() && self@[id as int].boxes.len() > 0),
    {
        id < self.nodes.len() && self.nodes[id].boxes.len() > 0
    }

    /// The `k`-th box of node `id`.
    pub fn layout_box(&self, id: usize, k: usize) -> (b: Option<&B>)
        ensures
            b == if id < self@.len() && k < self@[id as int].boxes.len() {
                Some(&self@[id as int].boxes[k as int])
            } else {
                None
            },
    {
        if id < self.nodes.len() && k < self.nodes[id].boxes.len() {
            Some(&self.nodes[id].boxes[k])
        } else {
            None
        }
    }

    /// Says whether node `id` starts an independent formatting context.
    pub fn set_isolates(&mut self, id: usize, isolates: bool)
        requires
            old(self).wf(),
        ensures
            final(self).wf(),
            final(self)@ == updated_at(
                old(self)@,
                id,
                NodeView { isolates, ..old(self)@[id as int] },
            ),
    {
        if id < self.nodes.len() {
            self.nodes[id].isolates = isolates;
            proof {
                let n = NodeView { isolates, ..old(self)@[id as int] };
                assert(self@ =~= old(self)@.update(id as int, n));
                assert(node_wf(old(self)@, id as int));
                lemma_wf_after_update(old(self)@, id, n);
            }
        }
    }

    /// Sets or clears the mark that asks for another visit of the
    /// descendants of node `id`.
    pub fn set_dirty_descendants(&mut self, id: usize, dirty: bool)
        requires
            old(self).wf(),
        ensures
            final(self).wf(),
            final(self)@ == updated_at(
                old(self)@,
                id,
                NodeView { dirty_descendants: dirty, ..old(self)@[id as int] },
            ),
    {
        if id < self.nodes.len() {
            self.nodes[id].dirty_descendants = dirty;
            proof {
                let n = NodeView { dirty_descendants: dirty, ..old(self)@[id as int] };
                assert(self@ =~= old(self)@.update(id as int, n));
                assert(node_wf(old(self)@, id as int));
                lemma_wf_after_update(old(self)@, id, n);
            }
        }
    }

    /// Gives element `id` the style storage `data`. A text node has no style
    /// of its own: for one, and where the tree has no such node, nothing
    /// changes.
    pub fn set_style_data(&mut self, id: usize, data: StyleData)
        requires
            old(self).wf(),
        ensures
            final(self).wf(),
            final(self)@ == if id < old(self)@.len() && old(self)@[id as int].kind
                == NodeKind::Element {
                old(self)@.update(id as int, NodeView { data: Some(data), ..old(self)@[id as int] })
            } else {
                old(self)@
            },
    {
        if id < self.nodes.len() {
            match self.nodes[id].kind {
                NodeKind::Element => {
                    self.nodes[id].data = Some(data);
                    proof {
                        let n = NodeView { data: Some(data), ..old(self)@[id as int] };
                        assert(self@ =~= old(self)@.update(id as int, n));
                        lemma_wf_after_update(old(self)@, id, n);
                    }
                },
                NodeKind::Text => {},
            }
        }
    }

    /// Replaces the damage stored on node `id`. Without style storage there
    /// is nowhere to store it, and nothing changes.
    pub fn set_damage(&mut self, id: usize, damage: Damage)
        requires
            old(self).wf(),
        ensures
            final(self).wf(),
            final(self)@ == updated_at(old(self)@, id, old(self)@[id as int].with_damage(damage)),
    {
        if id < self.nodes.len() {
            match self.nodes[id].data {
                Some(data) => {
                    self.nodes[id].data = Some(StyleData { style: data.style, damage });
                },
                None => {},
            }
            proof {
                let n = old(self)@[id as int].with_damage(damage);
                assert(self@ =~= old(self)@.update(id as int, n));
                assert(node_wf(old(self)@, id as int));
                lemma_wf_after_update(old(self)@, id, n);
            }
        }
    }

    /// Gives node `id` one more box. Where the tree has no such node the box
    /// is dropped.
    pub fn push_box(&mut self, id: usize, layout_box: B)
        requires
            old(self).wf(),
        ensures
            final(self).wf(),
            final(self)@ == updated_at(
                old(self)@,
                id,
                old(self)@[id as int].with_boxes(old(self)@[id as int].boxes.push(layout_box)),
            ),
    {
        if id < self.nodes.len() {
            self.nodes[id].boxes.push(layout_box);
            proof {
                let n = old(self)@[id as int].with_boxes(
                    old(self)@[id as int].boxes.push(layout_box),
                );
                assert(self@ =~= old(self)@.update(id as int, n));
                assert(node_wf(old(self)@, id as int));
                lemma_wf_after_update(old(self)@, id, n);
            }
        }
    }

    /// Discards every box of node `id`.
    pub fn unset_all_boxes(&mut self, id: usize)
        requires
            old(self).wf(),
        ensures
            final(self).wf(),
            final(self)@ == updated_at(
                old(self)@,
                id,
                old(self)@[id as int].with_boxes(Seq::empty()),
            ),
    {
        if id < self.nodes.len() {
            self.nodes[id].boxes = Vec::new();
            proof {
                let n = old(self)@[id as int].with_boxes(Seq::empty());
                assert(self@ =~= old(self)@.update(id as int, n));
                assert(node_wf(old(self)@, id as int));
                lemma_wf_after_update(old(self)@, id, n);
            }
        }
    }
}

impl<B: LayoutBox> LayoutTree<B> {
    /// Lets every box of node `id` take the damage in, and returns the union
    /// of what they report for the parent.
    pub fn with_layout_box_base_including_pseudos(
        &mut self,
        id: usize,
        own: Damage,
        from_children: Damage,
    ) -> (extra: Damage)
        requires
            old(self).wf(),
        ensures
            final(self).wf(),
            final(self)@ == updated_at(
                old(self)@,
                id,
                old(self)@[id as int].with_boxes(
                    damaged_boxes(old(self)@[id as int].boxes, own, from_children),
                ),
            ),
            extra == if id < old(self)@.len() {
                reported_damage(old(self)@[id as int].boxes, own, from_children)
            } else {
                Damage::empty()
            },
    {
        let mut extra = Damage::empty();
        if id < self.nodes.len() {
            let ghost before = old(self)@[id as int];
            let n = self.nodes[id].boxes.len();
            let mut k: usize = 0;
            while k < n
                invariant
                    id < self.nodes.len(),
                    self.nodes.len() == old(self).nodes.len(),
                    k <= n,
                    n == before.boxes.len(),
                    before == old(self)@[id as int],
                    self@.len() == old(self)@.len(),
                    forall|j: int| 0 <= j < self@.len() && j != id ==> self@[j] == old(self)@[j],
                    self@[id as int].with_boxes(before.boxes) == before,
                    self@[id as int].boxes.len() == n,
                    forall|j: int|
                        0 <= j < k ==> self@[id as int].boxes[j] == before.boxes[j].damaged(
                            own,
                            from_children,
                        ),
                    forall|j: int| k <= j < n ==> self@[id as int].boxes[j] == before.boxes[j],
                    extra == reported_damage(before.boxes.take(k as int), own, from_children),
                decreases n - k,
            {
                let ghost prev = self@;
                let reported = self.nodes[id].boxes[k].add_damage(own, from_children);
                extra = extra.union(reported);
                proof {
                    assert(before.boxes.take(k as int + 1).drop_last() =~= before.boxes.take(
                        k as int,
                    ));
                    assert(before.boxes.take(k as int + 1).last() == before.boxes[k as int]);
                    assert(prev[id as int].boxes[k as int] == before.boxes[k as int]);
                    assert forall|j: int| 0 <= j < self@.len() && j != id implies self@[j] == old(
                        self,
                    )@[j] by {
                        assert(self@[j] == prev[j]);
                    }
                    assert(self@[id as int].with_boxes(before.boxes) == before) by {
                        assert(prev[id as int].with_boxes(before.boxes) == before);
                    }
                }
                k = k + 1;
            }
            proof {
                assert(before.boxes.take(n as int) =~= before.boxes);
                let node = before.with_boxes(damaged_boxes(before.boxes, own, from_children));
                assert(self@[id as int].boxes =~= damaged_boxes(before.boxes, own, from_children));
                assert(self@[id as int] == node);
                assert(self@ =~= old(self)@.update(id as int, node));
                assert(node_wf(old(self)@, id as int));
                lemma_wf_after_update(old(self)@, id, node);
            }
        }
        extra
    }

    /// Points every box of element `id` at the element's current style.
    /// Without style storage there is no style to point at, and nothing
    /// changes.
    pub fn repair_style(&mut self, context: &SharedStyleContext, id: usize)
        requires
            old(self).wf(),
        ensures
            final(self).wf(),
            final(self)@ == if id < old(self)@.len() && old(self)@[id as int].data is Some {
                old(self)@.update(
                    id as int,
                    old(self)@[id as int].with_boxes(
                        restyled_boxes(
                            old(self)@[id as int].boxes,
                            *context,
                            old(self)@[id as int].data->0.style,
                        ),
                    ),
                )
            } else {
                old(self)@
            },
    {
        if id < self.nodes.len() {
            match self.nodes[id].data {
                Some(data) => {
                    let style = data.style;
                    let ghost before = old(self)@[id as int];
                    let n = self.nodes[id].boxes.len();
                    let mut k: usize = 0;
                    while k < n
                        invariant
                            id < self.nodes.len(),
                            self.nodes.len() == old(self).nodes.len(),
                            k <= n,
                            n == before.boxes.len(),
                            before == old(self)@[id as int],
                            self@.len() == old(self)@.len(),
                            forall|j: int|
                                0 <= j < self@.len() && j != id ==> self@[j] == old(self)@[j],
                            self@[id as int].with_boxes(before.boxes) == before,
                            self@[id as int].boxes.len() == n,
                            forall|j: int|
                                0 <= j < k ==> self@[id as int].boxes[j] == before.boxes[j].restyled(
                                    *context,
                                    style,
                                ),
                            forall|j: int|
                                k <= j < n ==> self@[id as int].boxes[j] == before.boxes[j],
                        decreases n - k,
                    {
                        let ghost prev = self@;
                        self.nodes[id].boxes[k].repair_style(context, &style);
                        proof {
                            assert(prev[id as int].boxes[k as int] == before.boxes[k as int]);
                            assert forall|j: int| 0 <= j < self@.len() && j != id implies self@[j]
                                == old(self)@[j] by {
                                assert(self@[j] == prev[j]);
                            }
                            assert(self@[id as int].with_boxes(before.boxes) == before) by {
                                assert(prev[id as int].with_boxes(before.boxes) == before);
                            }
                        }
                        k = k + 1;
                    }
                    proof {
                        let node = before.with_boxes(
                            restyled_boxes(before.boxes, *context, style),
                        );
                        assert(self@[id as int].boxes =~= restyled_boxes(
                            before.boxes,
                            *context,
                            style,
                        ));
                        assert(self@[id as int] == node);
                        assert(self@ =~= old(self)@.update(id as int, node));
                        assert(node_wf(old(self)@, id as int));
                        lemma_wf_after_update(old(self)@, id, node);
                    }
                },
                None => {},
            }
        }
    }
}

} // verus!
