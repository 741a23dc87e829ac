//! The layer hierarchy: an ordered tree of shape references and named,
//! collapsible groups.
//!
//! Contracts speak of `NodeView`, a ghost mirror of the tree in which the
//! children of a group are a sequence, so every operation can state the
//! exact tree it produces.

use vstd::prelude::*;

verus! {

use crate::ids::{IdAllocator, spec_group_name};

/// A node in the layer hierarchy: a reference to a shape, or a group of
/// further nodes.
#[derive(Debug, PartialEq)]
pub enum LayerNode {
    /// Reference to a shape by its identifier.
    Shape { shape_id: u64 },
    /// A group containing other nodes.
    Group { id: u64, name: String, children: Vec<LayerNode>, expanded: bool },
}

/// The ghost mirror of a layer node.
#[verifier::ext_equal]
pub enum NodeView {
    Shape { shape_id: u64 },
    Group { id: u64, name: Seq<char>, children: Seq<NodeView>, expanded: bool },
}

/// The ghost mirror of a node.
pub open spec fn view_of(n: LayerNode) -> NodeView
    decreases n,
{
    match n {
        LayerNode::Shape { shape_id } => NodeView::Shape { shape_id },
        LayerNode::Group { id, name, children, expanded } => NodeView::Group {
            id,
            name: name@,
            children: views_of(children@),
            expanded,
        },
    }
}

/// The ghost mirrors of a node sequence.
pub open spec fn views_of(ns: Seq<LayerNode>) -> Seq<NodeView>
    decreases ns,
{
    if ns.len() == 0 {
        Seq::empty()
    } else {
        seq![view_of(ns[0])] + views_of(ns.drop_first())
    }
}

/// All shape identifiers under a node, in order.
pub open spec fn node_ids(v: NodeView) -> Seq<u64>
    decreases v,
{
    match v {
        NodeView::Shape { shape_id } => seq![shape_id],
        NodeView::Group { children, .. } => nodes_ids(children),
    }
}

/// All shape identifiers under a node sequence, in order.
pub open spec fn nodes_ids(vs: Seq<NodeView>) -> Seq<u64>
    decreases vs,
{
    if vs.len() == 0 {
        Seq::empty()
    } else {
        node_ids(vs[0]) + nodes_ids(vs.drop_first())
    }
}

/// Views distribute over sequence concatenation.
pub proof fn lemma_views_of_app(a: Seq<LayerNode>, b: Seq<LayerNode>)
    ensures
        views_of(a + b) == views_of(a) + views_of(b),
    decreases a,
{
    if a.len() == 0 {
        assert(a + b =~= b);
        assert(views_of(a) + views_of(b) =~= views_of(b));
    } else {
        assert((a + b).drop_first() =~= a.drop_first() + b);
        lemma_views_of_app(a.drop_first(), b);
        assert(views_of(a + b) =~= views_of(a) + views_of(b));
    }
}

/// Identifier lists distribute over sequence concatenation.
pub proof fn lemma_nodes_ids_app(a: Seq<NodeView>, b: Seq<NodeView>)
    ensures
        nodes_ids(a + b) == nodes_ids(a) + nodes_ids(b),
    decreases a,
{
    if a.len() == 0 {
        assert(a + b =~= b);
        assert(nodes_ids(a) + nodes_ids(b) =~= nodes_ids(b));
    } else {
        assert((a + b).drop_first() =~= a.drop_first() + b);
        lemma_nodes_ids_app(a.drop_first(), b);
        assert(nodes_ids(a + b) =~= nodes_ids(a) + nodes_ids(b));
    }
}

/// The view of a one-node sequence.
pub proof fn lemma_views_singleton(n: LayerNode)
    ensures
        views_of(seq![n]) == seq![view_of(n)],
{
    let s = seq![n];
    assert(s[0] == n);
    assert(s.drop_first() =~= Seq::<LayerNode>::empty());
    assert(views_of(s.drop_first()) =~= Seq::<NodeView>::empty());
    assert(views_of(s) =~= seq![view_of(n)]);
}

/// The identifiers of a one-view sequence.
pub proof fn lemma_ids_singleton(v: NodeView)
    ensures
        nodes_ids(seq![v]) == node_ids(v),
{
    let s = seq![v];
    assert(s[0] == v);
    assert(s.drop_first() =~= Seq::<NodeView>::empty());
    assert(nodes_ids(s.drop_first()) =~= Seq::<u64>::empty());
    assert(nodes_ids(s) =~= node_ids(v));
}

impl LayerNode {
    /// A node referring to a shape.
    pub fn shape(shape_id: u64) -> (n: LayerNode)
        ensures
            view_of(n) == (NodeView::Shape { shape_id }),
    {
        LayerNode::Shape { shape_id }
    }

    /// A new, expanded, empty group with the given name and a fresh
    /// identifier.
    pub fn group(ids: &mut IdAllocator, name: String) -> (n: LayerNode)
        requires
            old(ids).next_id < u64::MAX,
        ensures
            view_of(n) == (NodeView::Group {
                id: old(ids).next_id,
                name: name@,
                children: Seq::<NodeView>::empty(),
                expanded: true,
            }),
            final(ids).next_id == old(ids).next_id + 1,
            final(ids).next_name == old(ids).next_name,
    {
        let id = ids.generate_group_id();
        let n = LayerNode::Group { id, name, children: Vec::new(), expanded: true };
        proof {
            assert(views_of(Seq::<LayerNode>::empty()) =~= Seq::<NodeView>::empty());
        }
        n
    }

    /// A new group with the next auto-generated name.
    pub fn new_group(ids: &mut IdAllocator) -> (n: LayerNode)
        requires
            old(ids).next_id < u64::MAX,
            old(ids).next_name < u64::MAX,
        ensures
            view_of(n) == (NodeView::Group {
                id: old(ids).next_id,
                name: spec_group_name(old(ids).next_name as int),
                children: Seq::<NodeView>::empty(),
                expanded: true,
            }),
            final(ids).next_id == old(ids).next_id + 1,
            final(ids).next_name == old(ids).next_name + 1,
    {
        let name = ids.generate_group_name();
        Self::group(ids, name)
    }

    /// The node's own identifier: the shape's for a shape node, the
    /// group's for a group.
    pub fn id(&self) -> (r: u64)
        ensures
            r == match view_of(*self) {
                NodeView::Shape { shape_id } => shape_id,
                NodeView::Group { id, .. } => id,
            },
    {
        match self {
            LayerNode::Shape { shape_id } => *shape_id,
            LayerNode::Group { id, .. } => *id,
        }
    }

    /// Whether this node refers to a shape.
    pub fn is_shape(&self) -> (r: bool)
        ensures
            r == (view_of(*self) is Shape),
    {
        match self {
            LayerNode::Shape { .. } => true,
            LayerNode::Group { .. } => false,
        }
    }

    /// Whether this node is a group.
    pub fn is_group(&self) -> (r: bool)
        ensures
            r == (view_of(*self) is Group),
    {
        match self {
            LayerNode::Shape { .. } => false,
            LayerNode::Group { .. } => true,
        }
    }

    /// All shape identifiers under this node, in order.
    pub fn all_shape_ids(&self) -> (r: Vec<u64>)
        ensures
            r@ == node_ids(view_of(*self)),
        decreases *self,
    {
        match self {
            LayerNode::Shape { shape_id } => {
                let mut v: Vec<u64> = Vec::new();
                v.push(*shape_id);
                proof {
                    assert(v@ =~= node_ids(view_of(*self)));
                }
                v
            },
            LayerNode::Group { children, .. } => {
                let mut v: Vec<u64> = Vec::new();
                let mut i: usize = 0;
                while i < children.len()
                    invariant
                        0 <= i <= children@.len(),
                        *self is Group,
                        children@ == self->Group_children@,
                        v@ == nodes_ids(views_of(children@.take(i as int))),
                    decreases children@.len() - i,
                {
                    proof {
                        assert(decreases_to!(*self => self->Group_children));
                        assert(decreases_to!(self->Group_children => self->Group_children@));
                        assert(decreases_to!(self->Group_children@ => self->Group_children@[i as int]));
                    }
                    let mut sub = children[i].all_shape_ids();
                    v.append(&mut sub);
                    proof {
                        assert(children@.take(i + 1) =~= children@.take(i as int) + seq![
                            children@[i as int],
                        ]);
                        lemma_views_of_app(children@.take(i as int), seq![children@[i as int]]);
                        lemma_views_singleton(children@[i as int]);
                        lemma_nodes_ids_app(
                            views_of(children@.take(i as int)),
                            seq![view_of(children@[i as int])],
                        );
                        lemma_ids_singleton(view_of(children@[i as int]));
                    }
                    i = i + 1;
                }
                proof {
                    assert(children@.take(children@.len() as int) =~= children@);
                }
                v
            },
        }
    }

    /// Whether a shape identifier occurs under this node.
    pub fn contains_shape(&self, target_id: u64) -> (r: bool)
        ensures
            r == node_ids(view_of(*self)).contains(target_id),
        decreases *self,
    {
        match self {
            LayerNode::Shape { shape_id } => {
                let r = *shape_id == target_id;
                proof {
                    if r {
                        assert(node_ids(view_of(*self))[0] == target_id);
                    }
                }
                r
            },
            LayerNode::Group { children, .. } => {
                let mut i: usize = 0;
                let mut found = false;
                while i < children.len() && !found
                    invariant
                        0 <= i <= children@.len(),
                        *self is Group,
                        children@ == self->Group_children@,
                        found ==> node_ids(view_of(*self)).contains(target_id),
                        !found ==> !nodes_ids(views_of(children@.take(i as int))).contains(
                            target_id,
                        ),
                    decreases children@.len() - i,
                {
                    proof {
                        assert(decreases_to!(*self => self->Group_children));
                        assert(decreases_to!(self->Group_children => self->Group_children@));
                        assert(decreases_to!(self->Group_children@ => self->Group_children@[i as int]));
                    }
                    found = children[i].contains_shape(target_id);
                    proof {
                        assert(children@.take(i + 1) =~= children@.take(i as int) + seq![
                            children@[i as int],
                        ]);
                        lemma_views_of_app(children@.take(i as int), seq![children@[i as int]]);
                        lemma_views_singleton(children@[i as int]);
                        lemma_nodes_ids_app(
                            views_of(children@.take(i as int)),
                            seq![view_of(children@[i as int])],
                        );
                        lemma_ids_singleton(view_of(children@[i as int]));
                        if found {
                            let ids = node_ids(view_of(children@[i as int]));
                            let k = choose|k: int| 0 <= k < ids.len() && ids[k] == target_id;
                            assert(nodes_ids(views_of(children@.take(i + 1)))[nodes_ids(
                                views_of(children@.take(i as int)),
                            ).len() + k] == target_id);
                            lemma_node_ids_prefix(children@, i + 1, target_id);
                        }
                    }
                    i = i + 1;
                }
                proof {
                    if !found {
                        assert(children@.take(children@.len() as int) =~= children@);
                    }
                }
                found
            },
        }
    }
}

/// A node sequence with every reference to one shape removed, recursively.
pub open spec fn spec_remove_nodes(vs: Seq<NodeView>, shape_id: u64) -> Seq<NodeView>
    decreases vs,
{
    if vs.len() == 0 {
        Seq::empty()
    } else {
        let rest = spec_remove_nodes(vs.drop_first(), shape_id);
        match vs[0] {
            NodeView::Shape { shape_id: sid } => if sid == shape_id {
                rest
            } else {
                seq![vs[0]] + rest
            },
            NodeView::Group { id, name, children, expanded } => seq![
                NodeView::Group {
                    id,
                    name,
                    children: spec_remove_nodes(children, shape_id),
                    expanded,
                },
            ] + rest,
        }
    }
}

/// A node sequence after toggling the collapsed state of groups named by
/// `gid`: the first such group at each level is flipped and its subtree
/// left alone; other groups are searched recursively.
pub open spec fn spec_toggle_nodes(vs: Seq<NodeView>, gid: u64) -> Seq<NodeView>
    decreases vs,
{
    if vs.len() == 0 {
        Seq::empty()
    } else {
        match vs[0] {
            NodeView::Shape { .. } => seq![vs[0]] + spec_toggle_nodes(vs.drop_first(), gid),
            NodeView::Group { id, name, children, expanded } => if id == gid {
                seq![NodeView::Group { id, name, children, expanded: !expanded }]
                    + vs.drop_first()
            } else {
                seq![
                    NodeView::Group {
                        id,
                        name,
                        children: spec_toggle_nodes(children, gid),
                        expanded,
                    },
                ] + spec_toggle_nodes(vs.drop_first(), gid)
            },
        }
    }
}

/// A node sequence after renaming groups named by `gid`, with the same
/// search order as toggling.
pub open spec fn spec_rename_nodes(vs: Seq<NodeView>, gid: u64, name: Seq<char>) -> Seq<NodeView>
    decreases vs,
{
    if vs.len() == 0 {
        Seq::empty()
    } else {
        match vs[0] {
            NodeView::Shape { .. } => seq![vs[0]] + spec_rename_nodes(vs.drop_first(), gid, name),
            NodeView::Group { id, name: n0, children, expanded } => if id == gid {
                seq![NodeView::Group { id, name, children, expanded }] + vs.drop_first()
            } else {
                seq![
                    NodeView::Group {
                        id,
                        name: n0,
                        children: spec_rename_nodes(children, gid, name),
                        expanded,
                    },
                ] + spec_rename_nodes(vs.drop_first(), gid, name)
            },
        }
    }
}

/// Dissolving a group: the first group with the given identifier, in the
/// search order of the original walk, is replaced by its children. The
/// second component says whether one was found.
pub open spec fn spec_ungroup_nodes(vs: Seq<NodeView>, gid: u64) -> (Seq<NodeView>, bool)
    decreases vs,
{
    if vs.len() == 0 {
        (Seq::empty(), false)
    } else {
        match vs[0] {
            NodeView::Shape { .. } => {
                let t = spec_ungroup_nodes(vs.drop_first(), gid);
                (seq![vs[0]] + t.0, t.1)
            },
            NodeView::Group { id, name, children, expanded } => if id == gid {
                (children + vs.drop_first(), true)
            } else {
                let c = spec_ungroup_nodes(children, gid);
                if c.1 {
                    (
                        seq![NodeView::Group { id, name, children: c.0, expanded }]
                            + vs.drop_first(),
                        true,
                    )
                } else {
                    let t = spec_ungroup_nodes(vs.drop_first(), gid);
                    (seq![vs[0]] + t.0, t.1)
                }
            },
        }
    }
}

/// The shape identifiers under the first group with the given identifier
/// whose subtree is nonempty; empty if none is found.
pub open spec fn spec_find_group(vs: Seq<NodeView>, gid: u64) -> Seq<u64>
    decreases vs,
{
    if vs.len() == 0 {
        Seq::empty()
    } else {
        match vs[0] {
            NodeView::Shape { .. } => spec_find_group(vs.drop_first(), gid),
            NodeView::Group { id, children, .. } => if id == gid {
                node_ids(vs[0])
            } else {
                let r = spec_find_group(children, gid);
                if r.len() > 0 {
                    r
                } else {
                    spec_find_group(vs.drop_first(), gid)
                }
            },
        }
    }
}

/// The identifiers selected when a shape is clicked: the whole topmost
/// group containing it, or just the shape when it sits at top level.
pub open spec fn spec_selection_for(vs: Seq<NodeView>, shape_id: u64) -> Option<Seq<u64>>
    decreases vs,
{
    if vs.len() == 0 {
        None
    } else {
        match vs[0] {
            NodeView::Shape { shape_id: sid } => if sid == shape_id {
                Some(seq![shape_id])
            } else {
                spec_selection_for(vs.drop_first(), shape_id)
            },
            NodeView::Group { .. } => if node_ids(vs[0]).contains(shape_id) {
                Some(node_ids(vs[0]))
            } else {
                spec_selection_for(vs.drop_first(), shape_id)
            },
        }
    }
}

/// Whether a node is swept into a new group for a selection: a selected
/// shape, or a group whose (nonempty) shapes are all selected.
pub open spec fn spec_matches(v: NodeView, sel: Seq<u64>) -> bool {
    match v {
        NodeView::Shape { shape_id } => sel.contains(shape_id),
        NodeView::Group { .. } => node_ids(v).len() > 0 && forall|k: int|
            0 <= k < node_ids(v).len() ==> sel.contains(#[trigger] node_ids(v)[k]),
    }
}

/// The matching nodes of a sequence, in order.
pub open spec fn spec_matched(vs: Seq<NodeView>, sel: Seq<u64>) -> Seq<NodeView>
    decreases vs,
{
    if vs.len() == 0 {
        Seq::empty()
    } else if spec_matches(vs[0], sel) {
        seq![vs[0]] + spec_matched(vs.drop_first(), sel)
    } else {
        spec_matched(vs.drop_first(), sel)
    }
}

/// The non-matching nodes of a sequence, in order.
pub open spec fn spec_unmatched(vs: Seq<NodeView>, sel: Seq<u64>) -> Seq<NodeView>
    decreases vs,
{
    if vs.len() == 0 {
        Seq::empty()
    } else if spec_matches(vs[0], sel) {
        spec_unmatched(vs.drop_first(), sel)
    } else {
        seq![vs[0]] + spec_unmatched(vs.drop_first(), sel)
    }
}

/// How many non-matching nodes precede the first matching one.
pub open spec fn spec_prefix_count(vs: Seq<NodeView>, sel: Seq<u64>) -> int
    decreases vs,
{
    if vs.len() == 0 {
        0
    } else if spec_matches(vs[0], sel) {
        0
    } else {
        1 + spec_prefix_count(vs.drop_first(), sel)
    }
}

/// If the identifiers of a take-prefix of a node sequence contain a value,
/// the identifiers of the whole sequence contain it.
proof fn lemma_node_ids_prefix(ns: Seq<LayerNode>, i: int, target: u64)
    requires
        0 <= i <= ns.len(),
        nodes_ids(views_of(ns.take(i))).contains(target),
    ensures
        nodes_ids(views_of(ns)).contains(target),
{
    assert(ns =~= ns.take(i) + ns.skip(i));
    lemma_views_of_app(ns.take(i), ns.skip(i));
    lemma_nodes_ids_app(views_of(ns.take(i)), views_of(ns.skip(i)));
    let a = nodes_ids(views_of(ns.take(i)));
    let k = choose|k: int| 0 <= k < a.len() && a[k] == target;
    assert(nodes_ids(views_of(ns))[k] == target);
}

/// A view sequence has one view per node, in order.
pub proof fn lemma_views_index(ns: Seq<LayerNode>)
    ensures
        views_of(ns).len() == ns.len(),
        forall|i: int| 0 <= i < ns.len() ==> views_of(ns)[i] == view_of(#[trigger] ns[i]),
    decreases ns,
{
    if ns.len() > 0 {
        lemma_views_index(ns.drop_first());
        assert(forall|i: int|
            1 <= i < ns.len() ==> views_of(ns)[i] == views_of(ns.drop_first())[i - 1]);
        assert(forall|i: int| 1 <= i < ns.len() ==> ns.drop_first()[i - 1] == #[trigger] ns[i]);
    }
}

/// Unfolding a view sequence one node at a time, from a suffix.
proof fn lemma_views_skip_step(ns: Seq<LayerNode>, i: int)
    requires
        0 <= i < ns.len(),
    ensures
        views_of(ns.skip(i)) == seq![view_of(ns[i])] + views_of(ns.skip(i + 1)),
{
    assert(ns.skip(i)[0] == ns[i]);
    assert(ns.skip(i).drop_first() =~= ns.skip(i + 1));
    assert(views_of(ns.skip(i)) =~= seq![view_of(ns[i])] + views_of(ns.skip(i + 1)));
}

/// Whether a slice of identifiers holds a value.
fn slice_contains_u64(s: &[u64], x: u64) -> (r: bool)
    ensures
        r == s@.contains(x),
{
    let mut i: usize = 0;
    while i < s.len()
        invariant
            0 <= i <= s@.len(),
            forall|k: int| 0 <= k < i ==> s@[k] != x,
        decreases s@.len() - i,
    {
        if s[i] == x {
            return true;
        }
        i = i + 1;
    }
    false
}

/// Whether a node is swept into a new group for a selection.
fn node_matches(n: &LayerNode, sel: &[u64]) -> (r: bool)
    ensures
        r == spec_matches(view_of(*n), sel@),
{
    match n {
        LayerNode::Shape { shape_id } => slice_contains_u64(sel, *shape_id),
        LayerNode::Group { .. } => {
            let ids = n.all_shape_ids();
            if ids.len() == 0 {
                return false;
            }
            let mut i: usize = 0;
            while i < ids.len()
                invariant
                    0 <= i <= ids@.len(),
                    ids@ == node_ids(view_of(*n)),
                    forall|k: int| 0 <= k < i ==> sel@.contains(#[trigger] ids@[k]),
                decreases ids@.len() - i,
            {
                if !slice_contains_u64(sel, ids[i]) {
                    return false;
                }
                i = i + 1;
            }
            true
        },
    }
}

/// Remove every reference to one shape, recursively, rebuilding the node
/// list in place.
fn remove_shape_recursive(nodes: &mut Vec<LayerNode>, shape_id: u64)
    ensures
        views_of(final(nodes)@) == spec_remove_nodes(views_of(old(nodes)@), shape_id),
    decreases old(nodes)@,
{
    let ghost orig = old(nodes)@;
    let mut out: Vec<LayerNode> = Vec::new();
    let ghost mut k: int = 0;
    while nodes.len() > 0
        invariant
            orig == old(nodes)@,
            0 <= k <= orig.len(),
            nodes@ =~= orig.skip(k),
            spec_remove_nodes(views_of(orig), shape_id) == views_of(out@) + spec_remove_nodes(
                views_of(nodes@),
                shape_id,
            ),
        decreases nodes@.len(),
    {
        let ghost nsb = nodes@;
        let ghost outb = out@;
        let n = nodes.remove(0);
        proof {
            lemma_views_skip_step(orig, k);
            assert(n == orig[k]);
            assert(nodes@ =~= orig.skip(k + 1));
        }
        let ghost vb = views_of(nsb);
        proof {
            assert(vb.drop_first() =~= views_of(nodes@));
            assert(vb[0] == view_of(orig[k]));
        }
        match n {
            LayerNode::Shape { shape_id: sid } => {
                if sid != shape_id {
                    let kept = LayerNode::Shape { shape_id: sid };
                    out.push(kept);
                    proof {
                        assert(out@ =~= outb + seq![kept]);
                        lemma_views_of_app(outb, seq![kept]);
                        lemma_views_singleton(kept);
                        assert(spec_remove_nodes(vb, shape_id) =~= seq![vb[0]]
                            + spec_remove_nodes(views_of(nodes@), shape_id));
                        assert(views_of(out@) + spec_remove_nodes(views_of(nodes@), shape_id)
                            =~= views_of(outb) + spec_remove_nodes(vb, shape_id));
                    }
                } else {
                    proof {
                        assert(spec_remove_nodes(vb, shape_id) == spec_remove_nodes(
                            views_of(nodes@),
                            shape_id,
                        ));
                    }
                }
            },
            LayerNode::Group { id, name, mut children, expanded } => {
                proof {
                    assert(decreases_to!(orig => orig[k]));
                    assert(decreases_to!(orig[k] => orig[k]->Group_children));
                    assert(decreases_to!(orig[k]->Group_children => orig[k]->Group_children@));
                    assert(children@ == orig[k]->Group_children@);
                }
                let ghost ch0 = children@;
                let ghost nm = name@;
                remove_shape_recursive(&mut children, shape_id);
                let rebuilt = LayerNode::Group { id, name, children, expanded };
                out.push(rebuilt);
                proof {
                    assert(out@ =~= outb + seq![rebuilt]);
                    lemma_views_of_app(outb, seq![rebuilt]);
                    lemma_views_singleton(rebuilt);
                    assert(view_of(rebuilt) == (NodeView::Group {
                        id,
                        name: nm,
                        children: spec_remove_nodes(views_of(ch0), shape_id),
                        expanded,
                    }));
                    assert(view_of(orig[k]) == (NodeView::Group {
                        id,
                        name: nm,
                        children: views_of(ch0),
                        expanded,
                    }));
                    assert(spec_remove_nodes(vb, shape_id) =~= seq![view_of(rebuilt)]
                        + spec_remove_nodes(views_of(nodes@), shape_id));
                    assert(views_of(out@) + spec_remove_nodes(views_of(nodes@), shape_id)
                        =~= views_of(outb) + spec_remove_nodes(vb, shape_id));
                }
            },
        }
        proof {
            k = k + 1;
        }
    }
    proof {
        assert(views_of(nodes@) =~= Seq::<NodeView>::empty());
        assert(views_of(out@) + spec_remove_nodes(Seq::<NodeView>::empty(), shape_id)
            =~= views_of(out@));
    }
    *nodes = out;
}

/// Toggle the collapsed state of groups with the given identifier.
fn toggle_expanded_recursive(nodes: &mut Vec<LayerNode>, group_id: u64)
    ensures
        views_of(final(nodes)@) == spec_toggle_nodes(views_of(old(nodes)@), group_id),
    decreases old(nodes)@,
{
    let ghost orig = old(nodes)@;
    let mut out: Vec<LayerNode> = Vec::new();
    let ghost mut k: int = 0;
    let mut done = false;
    while nodes.len() > 0
        invariant
            orig == old(nodes)@,
            0 <= k <= orig.len(),
            nodes@ =~= orig.skip(k),
            !done ==> spec_toggle_nodes(views_of(orig), group_id) == views_of(out@)
                + spec_toggle_nodes(views_of(nodes@), group_id),
            done ==> spec_toggle_nodes(views_of(orig), group_id) == views_of(out@) + views_of(
                nodes@,
            ),
        decreases nodes@.len(),
    {
        let ghost nsb = nodes@;
        let ghost outb = out@;
        let n = nodes.remove(0);
        proof {
            lemma_views_skip_step(orig, k);
            assert(n == orig[k]);
            assert(nodes@ =~= orig.skip(k + 1));
        }
        let ghost vb = views_of(nsb);
        proof {
            assert(vb.drop_first() =~= views_of(nodes@));
            assert(vb[0] == view_of(orig[k]));
        }
        if done {
            out.push(n);
            proof {
                assert(out@ =~= outb + seq![orig[k]]);
                lemma_views_of_app(outb, seq![orig[k]]);
                lemma_views_singleton(orig[k]);
                assert(views_of(out@) + views_of(nodes@) =~= views_of(outb) + vb);
            }
        } else {
            match n {
                LayerNode::Shape { shape_id } => {
                    let kept = LayerNode::Shape { shape_id };
                    out.push(kept);
                    proof {
                        assert(out@ =~= outb + seq![kept]);
                        lemma_views_of_app(outb, seq![kept]);
                        lemma_views_singleton(kept);
                        assert(spec_toggle_nodes(vb, group_id) =~= seq![vb[0]]
                            + spec_toggle_nodes(views_of(nodes@), group_id));
                        assert(views_of(out@) + spec_toggle_nodes(views_of(nodes@), group_id)
                            =~= views_of(outb) + spec_toggle_nodes(vb, group_id));
                    }
                },
                LayerNode::Group { id, name, mut children, expanded } => {
                    let ghost nm = name@;
                    let ghost ch0 = children@;
                    if id == group_id {
                        let rebuilt = LayerNode::Group { id, name, children, expanded: !expanded };
                        out.push(rebuilt);
                        done = true;
                        proof {
                            assert(out@ =~= outb + seq![rebuilt]);
                            lemma_views_of_app(outb, seq![rebuilt]);
                            lemma_views_singleton(rebuilt);
                            assert(spec_toggle_nodes(vb, group_id) =~= seq![view_of(rebuilt)]
                                + views_of(nodes@));
                            assert(views_of(out@) + views_of(nodes@) =~= views_of(outb)
                                + spec_toggle_nodes(vb, group_id));
                        }
                    } else {
                        proof {
                            assert(decreases_to!(orig => orig[k]));
                            assert(decreases_to!(orig[k] => orig[k]->Group_children));
                            assert(decreases_to!(orig[k]->Group_children => orig[k]->Group_children@));
                            assert(children@ == orig[k]->Group_children@);
                        }
                        toggle_expanded_recursive(&mut children, group_id);
                        let rebuilt = LayerNode::Group { id, name, children, expanded };
                        out.push(rebuilt);
                        proof {
                            assert(out@ =~= outb + seq![rebuilt]);
                            lemma_views_of_app(outb, seq![rebuilt]);
                            lemma_views_singleton(rebuilt);
                            assert(view_of(rebuilt) == (NodeView::Group {
                                id,
                                name: nm,
                                children: spec_toggle_nodes(views_of(ch0), group_id),
                                expanded,
                            }));
                            assert(spec_toggle_nodes(vb, group_id) =~= seq![view_of(rebuilt)]
                                + spec_toggle_nodes(views_of(nodes@), group_id));
                            assert(views_of(out@) + spec_toggle_nodes(
                                views_of(nodes@),
                                group_id,
                            ) =~= views_of(outb) + spec_toggle_nodes(vb, group_id));
                        }
                    }
                },
            }
        }
        proof {
            k = k + 1;
        }
    }
    proof {
        assert(views_of(nodes@) =~= Seq::<NodeView>::empty());
        assert(spec_toggle_nodes(Seq::<NodeView>::empty(), group_id) =~= Seq::<
            NodeView,
        >::empty());
        assert(views_of(out@) + Seq::<NodeView>::empty() =~= views_of(out@));
    }
    *nodes = out;
}

/// Rename groups with the given identifier.
fn rename_group_recursive(nodes: &mut Vec<LayerNode>, group_id: u64, new_name: String)
    ensures
        views_of(final(nodes)@) == spec_rename_nodes(views_of(old(nodes)@), group_id, new_name@),
    decreases old(nodes)@,
{
    let ghost orig = old(nodes)@;
    let mut out: Vec<LayerNode> = Vec::new();
    let ghost mut k: int = 0;
    let mut done = false;
    while nodes.len() > 0
        invariant
            orig == old(nodes)@,
            0 <= k <= orig.len(),
            nodes@ =~= orig.skip(k),
            !done ==> spec_rename_nodes(views_of(orig), group_id, new_name@) == views_of(out@)
                + spec_rename_nodes(views_of(nodes@), group_id, new_name@),
            done ==> spec_rename_nodes(views_of(orig), group_id, new_name@) == views_of(out@)
                + views_of(nodes@),
        decreases nodes@.len(),
    {
        let ghost nsb = nodes@;
        let ghost outb = out@;
        let n = nodes.remove(0);
        proof {
            lemma_views_skip_step(orig, k);
            assert(n == orig[k]);
            assert(nodes@ =~= orig.skip(k + 1));
        }
        let ghost vb = views_of(nsb);
        proof {
            assert(vb.drop_first() =~= views_of(nodes@));
            assert(vb[0] == view_of(orig[k]));
        }
        if done {
            out.push(n);
            proof {
                assert(out@ =~= outb + seq![orig[k]]);
                lemma_views_of_app(outb, seq![orig[k]]);
                lemma_views_singleton(orig[k]);
                assert(views_of(out@) + views_of(nodes@) =~= views_of(outb) + vb);
            }
        } else {
            match n {
                LayerNode::Shape { shape_id } => {
                    let kept = LayerNode::Shape { shape_id };
                    out.push(kept);
                    proof {
                        assert(out@ =~= outb + seq![kept]);
                        lemma_views_of_app(outb, seq![kept]);
                        lemma_views_singleton(kept);
                        assert(spec_rename_nodes(vb, group_id, new_name@) =~= seq![vb[0]]
                            + spec_rename_nodes(views_of(nodes@), group_id, new_name@));
                        assert(views_of(out@) + spec_rename_nodes(
                            views_of(nodes@),
                            group_id,
                            new_name@,
                        ) =~= views_of(outb) + spec_rename_nodes(vb, group_id, new_name@));
                    }
                },
                LayerNode::Group { id, name, mut children, expanded } => {
                    let ghost nm = name@;
                    let ghost ch0 = children@;
                    if id == group_id {
                        let rebuilt = LayerNode::Group {
                            id,
                            name: new_name.clone(),
                            children,
                            expanded,
                        };
                        out.push(rebuilt);
                        done = true;
                        proof {
                            assert(out@ =~= outb + seq![out@.last()]);
                            lemma_views_of_app(outb, seq![out@.last()]);
                            lemma_views_singleton(out@.last());
                            assert(spec_rename_nodes(vb, group_id, new_name@) =~= seq![
                                view_of(out@.last()),
                            ] + views_of(nodes@));
                            assert(views_of(out@) + views_of(nodes@) =~= views_of(outb)
                                + spec_rename_nodes(vb, group_id, new_name@));
                        }
                    } else {
                        proof {
                            assert(decreases_to!(orig => orig[k]));
                            assert(decreases_to!(orig[k] => orig[k]->Group_children));
                            assert(decreases_to!(orig[k]->Group_children => orig[k]->Group_children@));
                            assert(children@ == orig[k]->Group_children@);
                        }
                        rename_group_recursive(&mut children, group_id, new_name.clone());
                        let rebuilt = LayerNode::Group { id, name, children, expanded };
                        out.push(rebuilt);
                        proof {
                            assert(out@ =~= outb + seq![rebuilt]);
                            lemma_views_of_app(outb, seq![rebuilt]);
                            lemma_views_singleton(rebuilt);
                            assert(view_of(rebuilt) == (NodeView::Group {
                                id,
                                name: nm,
                                children: spec_rename_nodes(views_of(ch0), group_id, new_name@),
                                expanded,
                            }));
                            assert(spec_rename_nodes(vb, group_id, new_name@) =~= seq![
                                view_of(rebuilt),
                            ] + spec_rename_nodes(views_of(nodes@), group_id, new_name@));
                            assert(views_of(out@) + spec_rename_nodes(
                                views_of(nodes@),
                                group_id,
                                new_name@,
                            ) =~= views_of(outb) + spec_rename_nodes(vb, group_id, new_name@));
                        }
                    }
                },
            }
        }
        proof {
            k = k + 1;
        }
    }
    proof {
        assert(views_of(nodes@) =~= Seq::<NodeView>::empty());
        assert(spec_rename_nodes(Seq::<NodeView>::empty(), group_id, new_name@) =~= Seq::<
            NodeView,
        >::empty());
        assert(views_of(out@) + Seq::<NodeView>::empty() =~= views_of(out@));
    }
    *nodes = out;
}

/// When no group is found, dissolving changes nothing.
proof fn lemma_ungroup_not_found(vs: Seq<NodeView>, gid: u64)
    requires
        !spec_ungroup_nodes(vs, gid).1,
    ensures
        spec_ungroup_nodes(vs, gid).0 == vs,
    decreases vs,
{
    if vs.len() > 0 {
        match vs[0] {
            NodeView::Shape { .. } => {
                lemma_ungroup_not_found(vs.drop_first(), gid);
                assert(spec_ungroup_nodes(vs, gid).0 =~= vs);
            },
            NodeView::Group { id, children, .. } => {
                let c = spec_ungroup_nodes(children, gid);
                lemma_ungroup_not_found(vs.drop_first(), gid);
                assert(spec_ungroup_nodes(vs, gid).0 =~= vs);
            },
        }
    }
}

/// Dissolve the first group with the given identifier, splicing its
/// children into its place. Returns whether one was found.
fn ungroup_recursive(nodes: &mut Vec<LayerNode>, group_id: u64) -> (found: bool)
    ensures
        views_of(final(nodes)@) == spec_ungroup_nodes(views_of(old(nodes)@), group_id).0,
        found == spec_ungroup_nodes(views_of(old(nodes)@), group_id).1,
    decreases old(nodes)@,
{
    let ghost orig = old(nodes)@;
    let mut out: Vec<LayerNode> = Vec::new();
    let ghost mut k: int = 0;
    let mut done = false;
    while nodes.len() > 0
        invariant
            orig == old(nodes)@,
            0 <= k <= orig.len(),
            nodes@ =~= orig.skip(k),
            !done ==> ({
                let t = spec_ungroup_nodes(views_of(orig), group_id);
                let tn = spec_ungroup_nodes(views_of(nodes@), group_id);
                t.0 == views_of(out@) + tn.0 && t.1 == tn.1
            }),
            done ==> spec_ungroup_nodes(views_of(orig), group_id).0 == views_of(out@) + views_of(
                nodes@,
            ) && spec_ungroup_nodes(views_of(orig), group_id).1,
        decreases nodes@.len(),
    {
        let ghost nsb = nodes@;
        let ghost outb = out@;
        let n = nodes.remove(0);
        proof {
            lemma_views_skip_step(orig, k);
            assert(n == orig[k]);
            assert(nodes@ =~= orig.skip(k + 1));
        }
        let ghost vb = views_of(nsb);
        proof {
            assert(vb.drop_first() =~= views_of(nodes@));
            assert(vb[0] == view_of(orig[k]));
        }
        if done {
            out.push(n);
            proof {
                assert(out@ =~= outb + seq![orig[k]]);
                lemma_views_of_app(outb, seq![orig[k]]);
                lemma_views_singleton(orig[k]);
                assert(views_of(out@) + views_of(nodes@) =~= views_of(outb) + vb);
            }
        } else {
            match n {
                LayerNode::Shape { shape_id } => {
                    let kept = LayerNode::Shape { shape_id };
                    out.push(kept);
                    proof {
                        assert(out@ =~= outb + seq![kept]);
                        lemma_views_of_app(outb, seq![kept]);
                        lemma_views_singleton(kept);
                        assert(spec_ungroup_nodes(vb, group_id).0 =~= seq![vb[0]]
                            + spec_ungroup_nodes(views_of(nodes@), group_id).0);
                        assert(views_of(out@) + spec_ungroup_nodes(views_of(nodes@), group_id).0
                            =~= views_of(outb) + spec_ungroup_nodes(vb, group_id).0);
                    }
                },
                LayerNode::Group { id, name, mut children, expanded } => {
                    let ghost nm = name@;
                    let ghost ch0 = children@;
                    if id == group_id {
                        let ghost chv = views_of(ch0);
                        let ghost chlen = children@.len() as int;
                        while children.len() > 0
                            invariant
                                chv == views_of(ch0),
                                chlen == ch0.len(),
                                0 <= children@.len() <= chlen,
                                children@.len() + out@.len() == outb.len() + chlen,
                                children@ =~= ch0.skip(chlen - children@.len() as int),
                                views_of(out@) =~= views_of(outb) + views_of(
                                    ch0.take(chlen - children@.len() as int),
                                ),
                            decreases children@.len(),
                        {
                            let ghost cb = children@;
                            let ghost ob2 = out@;
                            let c = children.remove(0);
                            out.push(c);
                            proof {
                                let pos = chlen - cb.len() as int;
                                assert(c == ch0[pos]);
                                assert(children@ =~= ch0.skip(pos + 1));
                                assert(ch0.take(pos + 1) =~= ch0.take(pos) + seq![ch0[pos]]);
                                lemma_views_of_app(ch0.take(pos), seq![ch0[pos]]);
                                lemma_views_singleton(ch0[pos]);
                                assert(out@ =~= ob2 + seq![c]);
                                lemma_views_of_app(ob2, seq![c]);
                                assert(views_of(out@) =~= views_of(outb) + views_of(
                                    ch0.take(pos + 1),
                                ));
                            }
                        }
                        done = true;
                        proof {
                            assert(ch0.take(chlen) =~= ch0);
                            assert(spec_ungroup_nodes(vb, group_id).0 =~= chv + views_of(
                                nodes@,
                            ));
                            assert(spec_ungroup_nodes(vb, group_id).1);
                            assert(views_of(out@) + views_of(nodes@) =~= views_of(outb) + (chv
                                + views_of(nodes@)));
                        }
                    } else {
                        proof {
                            assert(decreases_to!(orig => orig[k]));
                            assert(decreases_to!(orig[k] => orig[k]->Group_children));
                            assert(decreases_to!(orig[k]->Group_children => orig[k]->Group_children@));
                            assert(children@ == orig[k]->Group_children@);
                        }
                        let sub_found = ungroup_recursive(&mut children, group_id);
                        let rebuilt = LayerNode::Group { id, name, children, expanded };
                        out.push(rebuilt);
                        if sub_found {
                            done = true;
                        }
                        proof {
                            assert(out@ =~= outb + seq![rebuilt]);
                            lemma_views_of_app(outb, seq![rebuilt]);
                            lemma_views_singleton(rebuilt);
                            let c = spec_ungroup_nodes(views_of(ch0), group_id);
                            assert(view_of(rebuilt) == (NodeView::Group {
                                id,
                                name: nm,
                                children: c.0,
                                expanded,
                            }));
                            if sub_found {
                                assert(spec_ungroup_nodes(vb, group_id).0 =~= seq![
                                    view_of(rebuilt),
                                ] + views_of(nodes@));
                                assert(views_of(out@) + views_of(nodes@) =~= views_of(outb)
                                    + spec_ungroup_nodes(vb, group_id).0);
                            } else {
                                lemma_ungroup_not_found(views_of(ch0), group_id);
                                assert(c.0 =~= views_of(ch0));
                                assert(view_of(rebuilt) =~= vb[0]);
                                assert(spec_ungroup_nodes(vb, group_id).0 =~= seq![vb[0]]
                                    + spec_ungroup_nodes(views_of(nodes@), group_id).0);
                                assert(views_of(out@) + spec_ungroup_nodes(
                                    views_of(nodes@),
                                    group_id,
                                ).0 =~= views_of(outb) + spec_ungroup_nodes(vb, group_id).0);
                            }
                        }
                    }
                },
            }
        }
        proof {
            k = k + 1;
        }
    }
    proof {
        assert(views_of(nodes@) =~= Seq::<NodeView>::empty());
        assert(views_of(out@) + Seq::<NodeView>::empty() =~= views_of(out@));
        assert(views_of(out@) + spec_ungroup_nodes(Seq::<NodeView>::empty(), group_id).0
            =~= views_of(out@));
    }
    *nodes = out;
    done
}

/// The shape identifiers under the first group with the given identifier.
fn find_group_shapes(nodes: &Vec<LayerNode>, group_id: u64) -> (r: Vec<u64>)
    ensures
        r@ == spec_find_group(views_of(nodes@), group_id),
    decreases nodes@,
{
    let mut i: usize = 0;
    proof {
        assert(nodes@.skip(0) =~= nodes@);
    }
    while i < nodes.len()
        invariant
            0 <= i <= nodes@.len(),
            spec_find_group(views_of(nodes@), group_id) == spec_find_group(
                views_of(nodes@.skip(i as int)),
                group_id,
            ),
        decreases nodes@.len() - i,
    {
        proof {
            lemma_views_skip_step(nodes@, i as int);
            let vcur = views_of(nodes@.skip(i as int));
            assert(vcur.drop_first() =~= views_of(nodes@.skip(i + 1)));
            assert(vcur[0] == view_of(nodes@[i as int]));
        }
        match &nodes[i] {
            LayerNode::Shape { .. } => {},
            LayerNode::Group { id, children, .. } => {
                if *id == group_id {
                    return nodes[i].all_shape_ids();
                }
                proof {
                    assert(decreases_to!(nodes@ => nodes@[i as int]));
                    assert(decreases_to!(nodes@[i as int] => nodes@[i as int]->Group_children));
                    assert(decreases_to!(nodes@[i as int]->Group_children => nodes@[i as int]->Group_children@));
                    assert(children@ == nodes@[i as int]->Group_children@);
                }
                let sub = find_group_shapes(children, group_id);
                if sub.len() > 0 {
                    return sub;
                }
            },
        }
        i = i + 1;
    }
    proof {
        assert(views_of(nodes@.skip(nodes@.len() as int)) =~= Seq::<NodeView>::empty());
    }
    Vec::new()
}

/// The identifiers selected when a shape is clicked, if the shape is in
/// the tree at all.
fn find_selection_for_shape(nodes: &Vec<LayerNode>, shape_id: u64) -> (r: Option<Vec<u64>>)
    ensures
        r is Some <==> spec_selection_for(views_of(nodes@), shape_id) is Some,
        r is Some ==> r->0@ == spec_selection_for(views_of(nodes@), shape_id)->0,
{
    let mut i: usize = 0;
    proof {
        assert(nodes@.skip(0) =~= nodes@);
    }
    while i < nodes.len()
        invariant
            0 <= i <= nodes@.len(),
            spec_selection_for(views_of(nodes@), shape_id) == spec_selection_for(
                views_of(nodes@.skip(i as int)),
                shape_id,
            ),
        decreases nodes@.len() - i,
    {
        proof {
            lemma_views_skip_step(nodes@, i as int);
            let vcur = views_of(nodes@.skip(i as int));
            assert(vcur.drop_first() =~= views_of(nodes@.skip(i + 1)));
            assert(vcur[0] == view_of(nodes@[i as int]));
        }
        match &nodes[i] {
            LayerNode::Shape { shape_id: sid } => {
                if *sid == shape_id {
                    let mut v: Vec<u64> = Vec::new();
                    v.push(shape_id);
                    proof {
                        assert(v@ =~= seq![shape_id]);
                    }
                    return Some(v);
                }
            },
            LayerNode::Group { .. } => {
                if nodes[i].contains_shape(shape_id) {
                    return Some(nodes[i].all_shape_ids());
                }
            },
        }
        i = i + 1;
    }
    proof {
        assert(views_of(nodes@.skip(nodes@.len() as int)) =~= Seq::<NodeView>::empty());
    }
    None
}

/// The layer hierarchy: an ordered forest of shape references and groups,
/// together with the allocator that numbers new groups.
#[derive(Debug, PartialEq)]
pub struct LayerTree {
    /// Top-level nodes, bottom of the z-order first.
    pub nodes: Vec<LayerNode>,
    /// Source of group identifiers and auto-generated names.
    pub ids: IdAllocator,
}

impl LayerTree {
    /// The ghost mirror of the whole tree.
    pub open spec fn tv(self) -> Seq<NodeView> {
        views_of(self.nodes@)
    }

    /// An empty tree.
    pub fn new() -> (t: LayerTree)
        ensures
            t.tv() == Seq::<NodeView>::empty(),
            t.ids.next_id == 1,
            t.ids.next_name == 1,
    {
        LayerTree { nodes: Vec::new(), ids: IdAllocator::new() }
    }

    /// A flat tree with one shape node per identifier, in order.
    pub fn from_shapes(shape_ids: &[u64]) -> (t: LayerTree)
        ensures
            t.tv().len() == shape_ids@.len(),
            forall|i: int|
                0 <= i < shape_ids@.len() ==> t.tv()[i] == (NodeView::Shape {
                    shape_id: shape_ids@[i],
                }),
            nodes_ids(t.tv()) == shape_ids@,
            t.ids.next_id == 1,
            t.ids.next_name == 1,
    {
        let mut nodes: Vec<LayerNode> = Vec::new();
        let mut i: usize = 0;
        while i < shape_ids.len()
            invariant
                0 <= i <= shape_ids@.len(),
                views_of(nodes@).len() == i,
                forall|k: int|
                    0 <= k < i ==> views_of(nodes@)[k] == (NodeView::Shape {
                        shape_id: shape_ids@[k],
                    }),
                nodes_ids(views_of(nodes@)) == shape_ids@.take(i as int),
            decreases shape_ids@.len() - i,
        {
            let ghost nb = nodes@;
            let n = LayerNode::shape(shape_ids[i]);
            nodes.push(n);
            proof {
                assert(nodes@ =~= nb + seq![n]);
                lemma_views_of_app(nb, seq![n]);
                lemma_views_singleton(n);
                lemma_nodes_ids_app(views_of(nb), seq![view_of(n)]);
                lemma_ids_singleton(view_of(n));
                lemma_views_index(nodes@);
                assert(nodes_ids(views_of(nodes@)) =~= shape_ids@.take(i + 1));
                assert(forall|k: int|
                    0 <= k < i ==> views_of(nodes@)[k] == views_of(nb)[k]);
            }
            i = i + 1;
        }
        proof {
            assert(shape_ids@.take(shape_ids@.len() as int) =~= shape_ids@);
        }
        LayerTree { nodes, ids: IdAllocator::new() }
    }

    /// Append a shape node at the top of the z-order.
    pub fn add_shape(&mut self, shape_id: u64)
        ensures
            final(self).tv() == old(self).tv().push(NodeView::Shape { shape_id }),
            final(self).ids == old(self).ids,
    {
        let ghost nb = self.nodes@;
        self.nodes.push(LayerNode::Shape { shape_id });
        proof {
            assert(self.nodes@ =~= nb + seq![LayerNode::Shape { shape_id }]);
            lemma_views_of_app(nb, seq![LayerNode::Shape { shape_id }]);
            lemma_views_singleton(LayerNode::Shape { shape_id });
            assert(views_of(self.nodes@) =~= views_of(nb).push(NodeView::Shape { shape_id }));
        }
    }

    /// Remove every reference to a shape, wherever it sits in the tree.
    pub fn remove_shape(&mut self, shape_id: u64)
        ensures
            final(self).tv() == spec_remove_nodes(old(self).tv(), shape_id),
            final(self).ids == old(self).ids,
    {
        remove_shape_recursive(&mut self.nodes, shape_id);
    }

    /// All shape identifiers in the tree, in z-order.
    pub fn all_shape_ids(&self) -> (r: Vec<u64>)
        ensures
            r@ == nodes_ids(self.tv()),
    {
        let mut v: Vec<u64> = Vec::new();
        let mut i: usize = 0;
        while i < self.nodes.len()
            invariant
                0 <= i <= self.nodes@.len(),
                v@ == nodes_ids(views_of(self.nodes@.take(i as int))),
            decreases self.nodes@.len() - i,
        {
            let mut sub = self.nodes[i].all_shape_ids();
            v.append(&mut sub);
            proof {
                assert(self.nodes@.take(i + 1) =~= self.nodes@.take(i as int) + seq![
                    self.nodes@[i as int],
                ]);
                lemma_views_of_app(self.nodes@.take(i as int), seq![self.nodes@[i as int]]);
                lemma_views_singleton(self.nodes@[i as int]);
                lemma_nodes_ids_app(
                    views_of(self.nodes@.take(i as int)),
                    seq![view_of(self.nodes@[i as int])],
                );
                lemma_ids_singleton(view_of(self.nodes@[i as int]));
            }
            i = i + 1;
        }
        proof {
            assert(self.nodes@.take(self.nodes@.len() as int) =~= self.nodes@);
        }
        v
    }

    /// Dissolve a group, splicing its children into its place. Returns
    /// whether the group was found.
    pub fn ungroup(&mut self, group_id: u64) -> (found: bool)
        ensures
            final(self).tv() == spec_ungroup_nodes(old(self).tv(), group_id).0,
            found == spec_ungroup_nodes(old(self).tv(), group_id).1,
            final(self).ids == old(self).ids,
    {
        ungroup_recursive(&mut self.nodes, group_id)
    }

    /// Toggle the collapsed state of a group.
    pub fn toggle_expanded(&mut self, group_id: u64)
        ensures
            final(self).tv() == spec_toggle_nodes(old(self).tv(), group_id),
            final(self).ids == old(self).ids,
    {
        toggle_expanded_recursive(&mut self.nodes, group_id);
    }

    /// Rename a group.
    pub fn rename_group(&mut self, group_id: u64, new_name: String)
        ensures
            final(self).tv() == spec_rename_nodes(old(self).tv(), group_id, new_name@),
            final(self).ids == old(self).ids,
    {
        rename_group_recursive(&mut self.nodes, group_id, new_name);
    }

    /// The shape identifiers under a group.
    pub fn get_group_shape_ids(&self, group_id: u64) -> (r: Vec<u64>)
        ensures
            r@ == spec_find_group(self.tv(), group_id),
    {
        find_group_shapes(&self.nodes, group_id)
    }

    /// The identifiers to select when a shape is clicked: all shapes of the
    /// topmost group containing it, or the shape alone.
    pub fn get_selection_for_shape(&self, shape_id: u64) -> (r: Vec<u64>)
        ensures
            r@ == match spec_selection_for(self.tv(), shape_id) {
                Some(ids) => ids,
                None => seq![shape_id],
            },
    {
        match find_selection_for_shape(&self.nodes, shape_id) {
            Some(v) => v,
            None => {
                let mut v: Vec<u64> = Vec::new();
                v.push(shape_id);
                proof {
                    assert(v@ =~= seq![shape_id]);
                }
                v
            },
        }
    }

    /// Sweep the top-level nodes covered by a selection into a new group
    /// at the position of the first of them. Returns the new group's
    /// identifier, or `None` when fewer than two nodes are covered.
    pub fn group_shapes(&mut self, shape_ids: &[u64]) -> (r: Option<u64>)
        requires
            old(self).ids.next_id < u64::MAX,
            old(self).ids.next_name < u64::MAX,
        ensures
            ({
                let vs = old(self).tv();
                let sel = shape_ids@;
                if sel.len() < 2 || spec_matched(vs, sel).len() < 2 {
                    r is None && *final(self) == *old(self)
                } else {
                    let kk = spec_prefix_count(vs, sel);
                    let gv = NodeView::Group {
                        id: old(self).ids.next_id,
                        name: spec_group_name(old(self).ids.next_name as int),
                        children: spec_matched(vs, sel),
                        expanded: true,
                    };
                    &&& r == Some(old(self).ids.next_id)
                    &&& final(self).tv() == spec_unmatched(vs, sel).take(kk) + seq![gv]
                        + spec_unmatched(vs, sel).skip(kk)
                    &&& final(self).ids.next_id == old(self).ids.next_id + 1
                    &&& final(self).ids.next_name == old(self).ids.next_name + 1
                }
            }),
    {
        if shape_ids.len() < 2 {
            return None;
        }
        let ghost orig = self.nodes@;
        let mut count: usize = 0;
        let mut i: usize = 0;
        proof {
            assert(self.nodes@.skip(0) =~= self.nodes@);
        }
        while i < self.nodes.len()
            invariant
                0 <= i <= self.nodes@.len(),
                self.nodes@ == orig,
                self.ids == old(self).ids,
                count <= i,
                count + spec_matched(views_of(self.nodes@.skip(i as int)), shape_ids@).len()
                    == spec_matched(views_of(self.nodes@), shape_ids@).len(),
            decreases self.nodes@.len() - i,
        {
            proof {
                lemma_views_skip_step(self.nodes@, i as int);
                let vcur = views_of(self.nodes@.skip(i as int));
                assert(vcur.drop_first() =~= views_of(self.nodes@.skip(i + 1)));
                assert(vcur[0] == view_of(self.nodes@[i as int]));
            }
            if node_matches(&self.nodes[i], shape_ids) {
                count = count + 1;
            }
            i = i + 1;
        }
        proof {
            assert(views_of(self.nodes@.skip(self.nodes@.len() as int)) =~= Seq::<
                NodeView,
            >::empty());
        }
        if count < 2 {
            return None;
        }
        let mut rest: Vec<LayerNode> = Vec::new();
        let mut moved: Vec<LayerNode> = Vec::new();
        let mut kk: usize = 0;
        let mut seen = false;
        let ghost sel = shape_ids@;
        let ghost mut k: int = 0;
        while self.nodes.len() > 0
            invariant
                0 <= k <= orig.len(),
                self.nodes@ =~= orig.skip(k),
                self.ids == old(self).ids,
                count == spec_matched(views_of(orig), sel).len(),
                2 <= count,
                spec_matched(views_of(orig), sel) == views_of(moved@) + spec_matched(
                    views_of(self.nodes@),
                    sel,
                ),
                spec_unmatched(views_of(orig), sel) == views_of(rest@) + spec_unmatched(
                    views_of(self.nodes@),
                    sel,
                ),
                sel == shape_ids@,
                !seen ==> moved@.len() == 0 && spec_prefix_count(views_of(orig), sel)
                    == rest@.len() + spec_prefix_count(views_of(self.nodes@), sel),
                seen ==> kk == spec_prefix_count(views_of(orig), sel) && kk <= rest@.len(),
            decreases self.nodes@.len(),
        {
            let ghost nsb = self.nodes@;
            let ghost restb = rest@;
            let ghost movedb = moved@;
            let n = self.nodes.remove(0);
            proof {
                lemma_views_skip_step(orig, k);
                assert(n == orig[k]);
                assert(self.nodes@ =~= orig.skip(k + 1));
                assert(views_of(nsb).drop_first() =~= views_of(self.nodes@));
                assert(views_of(nsb)[0] == view_of(orig[k]));
            }
            let m = node_matches(&n, shape_ids);
            if m {
                if !seen {
                    kk = rest.len();
                    seen = true;
                }
                moved.push(n);
                proof {
                    assert(moved@ =~= movedb + seq![orig[k]]);
                    lemma_views_of_app(movedb, seq![orig[k]]);
                    lemma_views_singleton(orig[k]);
                    assert(spec_matched(views_of(nsb), sel) =~= seq![view_of(orig[k])]
                        + spec_matched(views_of(self.nodes@), sel));
                    assert(views_of(moved@) + spec_matched(views_of(self.nodes@), sel)
                        =~= views_of(movedb) + spec_matched(views_of(nsb), sel));
                    assert(spec_unmatched(views_of(nsb), sel) == spec_unmatched(
                        views_of(self.nodes@),
                        sel,
                    ));
                }
            } else {
                rest.push(n);
                proof {
                    assert(rest@ =~= restb + seq![orig[k]]);
                    lemma_views_of_app(restb, seq![orig[k]]);
                    lemma_views_singleton(orig[k]);
                    assert(spec_unmatched(views_of(nsb), sel) =~= seq![view_of(orig[k])]
                        + spec_unmatched(views_of(self.nodes@), sel));
                    assert(views_of(rest@) + spec_unmatched(views_of(self.nodes@), sel)
                        =~= views_of(restb) + spec_unmatched(views_of(nsb), sel));
                    assert(spec_matched(views_of(nsb), sel) == spec_matched(
                        views_of(self.nodes@),
                        sel,
                    ));
                }
            }
            proof {
                k = k + 1;
            }
        }
        proof {
            assert(views_of(self.nodes@) =~= Seq::<NodeView>::empty());
            assert(views_of(moved@) + spec_matched(Seq::<NodeView>::empty(), sel) =~= views_of(
                moved@,
            ));
            assert(views_of(rest@) + spec_unmatched(Seq::<NodeView>::empty(), sel) =~= views_of(
                rest@,
            ));
            lemma_views_index(moved@);
            if !seen {
                assert(spec_matched(views_of(orig), sel).len() == 0);
            }
        }
        let gid = self.ids.generate_group_id();
        let name = self.ids.generate_group_name();
        let ghost nm = name@;
        let group = LayerNode::Group { id: gid, name, children: moved, expanded: true };
        let ghost restv = rest@;
        rest.insert(kk, group);
        self.nodes = rest;
        proof {
            assert(self.nodes@ =~= restv.take(kk as int) + seq![group] + restv.skip(kk as int));
            lemma_views_of_app(restv.take(kk as int) + seq![group], restv.skip(kk as int));
            lemma_views_of_app(restv.take(kk as int), seq![group]);
            lemma_views_singleton(group);
            lemma_views_index(restv.take(kk as int));
            lemma_views_index(restv.skip(kk as int));
            lemma_views_index(restv);
            assert forall|j: int| 0 <= j < kk implies views_of(restv.take(kk as int))[j]
                == views_of(restv).take(kk as int)[j] by {
                assert(restv.take(kk as int)[j] == restv[j]);
            }
            assert(views_of(restv.take(kk as int)) =~= views_of(restv).take(kk as int));
            assert forall|j: int| 0 <= j < restv.len() - kk implies views_of(
                restv.skip(kk as int),
            )[j] == views_of(restv).skip(kk as int)[j] by {
                assert(restv.skip(kk as int)[j] == restv[j + kk]);
            }
            assert(views_of(restv.skip(kk as int)) =~= views_of(restv).skip(kk as int));
            assert(views_of(self.nodes@) =~= views_of(restv).take(kk as int) + seq![
                view_of(group),
            ] + views_of(restv).skip(kk as int));
        }
        Some(gid)
    }
}

impl Default for LayerTree {
    /// An empty tree.
    fn default() -> (t: LayerTree)
        ensures
            t.tv() == Seq::<NodeView>::empty(),
            t.ids.next_id == 1,
            t.ids.next_name == 1,
    {
        LayerTree::new()
    }
}

} // verus!
