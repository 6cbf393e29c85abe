//! The diagram graph: nodes owned by one store and addressed by identity.
//!
//! A [`Diagram`] owns every node. Nodes refer to each other by [`NodeIdx`]
//! only, so the graph stays navigable while single nodes are edited.

pub mod bag;
pub mod laws;
pub mod visual;

use std::cmp::Ordering;
use vstd::prelude::*;
use vstd::std_specs::cmp::PartialOrdSpecImpl;
use self::bag::{stored, Component, ComponentKind, Data, NodeData};

verus! {

/// The identity of a node within its diagram. Identities are ordered as
/// the numbers they hold.
#[derive(Clone, Copy, PartialEq, Eq, Ord, Debug, Structural)]
pub struct NodeIdx(pub usize);

impl PartialOrd for NodeIdx {
    fn partial_cmp(&self, other: &NodeIdx) -> (r: Option<Ordering>) {
        if self.0 < other.0 {
            Some(Ordering::Less)
        } else if self.0 == other.0 {
            Some(Ordering::Equal)
        } else {
            Some(Ordering::Greater)
        }
    }
}

impl PartialOrdSpecImpl for NodeIdx {
    open spec fn obeys_partial_cmp_spec() -> bool {
        true
    }

    open spec fn partial_cmp_spec(&self, other: &NodeIdx) -> Option<Ordering> {
        if self.0 < other.0 {
            Some(Ordering::Less)
        } else if self.0 == other.0 {
            Some(Ordering::Equal)
        } else {
            Some(Ordering::Greater)
        }
    }
}

impl From<usize> for NodeIdx {
    fn from(v: usize) -> (r: NodeIdx) {
        NodeIdx(v)
    }
}

impl vstd::std_specs::convert::FromSpecImpl<usize> for NodeIdx {
    open spec fn obeys_from_spec() -> bool {
        true
    }

    open spec fn from_spec(v: usize) -> NodeIdx {
        NodeIdx(v)
    }
}

impl From<NodeIdx> for usize {
    fn from(v: NodeIdx) -> (r: usize) {
        v.0
    }
}

impl vstd::std_specs::convert::FromSpecImpl<NodeIdx> for usize {
    open spec fn obeys_from_spec() -> bool {
        true
    }

    open spec fn from_spec(v: NodeIdx) -> usize {
        v.0
    }
}

/// What a node stands for. It is fixed when the node is created.
#[non_exhaustive]
#[derive(Clone, Copy, PartialEq, Eq, Debug, Structural)]
pub enum NodeType {
    /// Root of the object graph.
    Root,
    /// A box that can be drawn, depending on its `BoxData`.
    Box,
    Text,
    Connector,
    Line,
}

/// What a node is, as a mathematical value.
pub struct NodeView {
    pub id: NodeIdx,
    pub ty: NodeType,
    pub children: Seq<NodeIdx>,
    pub data: Map<ComponentKind, Component>,
}

impl NodeView {
    /// `self` is a later state of the node `before`: identity and type are
    /// the same, and no child was added.
    pub open spec fn keeps_identity(self, before: NodeView) -> bool {
        &&& self.id == before.id
        &&& self.ty == before.ty
        &&& forall|c: NodeIdx| self.children.contains(c) ==> before.children.contains(c)
    }
}

/// `i` is the first position at which `x` occurs in `s`.
pub open spec fn is_first_at(s: Seq<NodeIdx>, x: NodeIdx, i: int) -> bool {
    &&& 0 <= i < s.len()
    &&& s[i] == x
    &&& forall|j: int| 0 <= j < i ==> s[j] != x
}

/// A graph in which every node sits at the index of its identity and every
/// child link leads to a node of the graph.
pub open spec fn graph_wf(g: Seq<NodeView>) -> bool {
    forall|i: int|
        0 <= i < g.len() ==> {
            &&& (#[trigger] g[i]).id.0 == i
            &&& forall|c: NodeIdx| #[trigger] g[i].children.contains(c) ==> c.0 < g.len()
        }
}

/// The node that `create` adds to a graph of `len` nodes.
pub open spec fn fresh_node(len: nat, ty: NodeType) -> NodeView {
    NodeView {
        id: NodeIdx(len as usize),
        ty,
        children: Seq::empty(),
        data: Map::empty(),
    }
}

/// One node of a diagram.
pub struct DiagramNode {
    id: NodeIdx,
    ty: NodeType,
    data: NodeData,
    children: Vec<NodeIdx>,
}

impl View for DiagramNode {
    type V = NodeView;

    closed spec fn view(&self) -> NodeView {
        NodeView { id: self.id, ty: self.ty, children: self.children@, data: self.data@ }
    }
}

impl DiagramNode {
    /// The node's storage is consistent.
    pub closed spec fn wf(&self) -> bool {
        self.data.wf()
    }

    /// In a well-formed node, what is stored for a kind is of that kind.
    pub proof fn lemma_kinds_match(&self, k: ComponentKind)
        requires
            self.wf(),
            self@.data.contains_key(k),
        ensures
            self@.data[k].spec_kind() == k,
    {
        self.data.lemma_kinds_match(k);
    }

    /// Checks that the node's storage is consistent.
    pub fn is_wf(&self) -> (b: bool)
        ensures
            b == self.wf(),
    {
        self.data.is_wf()
    }

    /// The node's identity.
    pub fn id(&self) -> (r: NodeIdx)
        ensures
            r == self@.id,
    {
        self.id
    }

    /// The node's type.
    pub fn ty(&self) -> (r: NodeType)
        ensures
            r == self@.ty,
    {
        self.ty
    }

    /// The identities of the node's children, in the order they were linked.
    pub fn children(&self) -> (r: &Vec<NodeIdx>)
        ensures
            r@ == self@.children,
    {
        &self.children
    }

    /// Adds a node of type `ty` to `diagram` and returns its identity, which
    /// is the number of nodes created before it.
    pub fn create(diagram: &mut Diagram, ty: NodeType) -> (idx: NodeIdx)
        requires
            old(diagram).wf(),
        ensures
            final(diagram).wf(),
            idx.0 == old(diagram)@.len(),
            final(diagram)@ == old(diagram)@.push(fresh_node(old(diagram)@.len(), ty)),
    {
        let idx = NodeIdx(diagram.next_idx);
        let node = DiagramNode { id: idx, ty, data: NodeData::new(), children: Vec::new() };
        diagram.nodes.push(node);
        diagram.next_idx = diagram.nodes.len();
        assert(diagram@ =~= old(diagram)@.push(fresh_node(old(diagram)@.len(), ty)));
        idx
    }

    /// Attaches `data` to the node. A value of the same kind that was there
    /// before is replaced and handed back.
    pub fn insert<T: Data>(&mut self, data: T) -> (prev: Option<T>)
        requires
            old(self).wf(),
        ensures
            final(self).wf(),
            final(self)@ == (NodeView {
                data: old(self)@.data.insert(T::kind(), data.wrap()),
                ..old(self)@
            }),
            final(self)@.keeps_identity(old(self)@),
            prev is Some <==> stored(old(self)@.data, T::kind()) is Some,
            prev is Some ==> stored(old(self)@.data, T::kind()) == Some(prev->0.wrap()),
    {
        proof {
            T::wrap_is_faithful(data, data);
            if self.data@.contains_key(T::kind()) {
                self.data.lemma_kinds_match(T::kind());
            }
        }
        let c = data.into_component();
        match self.data.insert(c) {
            Some(old_c) => T::from_component(old_c),
            None => None,
        }
    }

    /// The data of type `T` attached to the node, if there is any.
    pub fn get<T: Data>(&self) -> (r: Option<&T>)
        requires
            self.wf(),
        ensures
            r is Some <==> stored(self@.data, T::kind()) is Some,
            r is Some ==> stored(self@.data, T::kind()) == Some(r->0.wrap()),
    {
        match self.data.get(T::kind_of()) {
            Some(c) => T::as_data(c),
            None => None,
        }
    }

    /// Detaches the data of type `T` from the node and hands it back, if
    /// there was any.
    pub fn remove<T: Data>(&mut self) -> (prev: Option<T>)
        requires
            old(self).wf(),
        ensures
            final(self).wf(),
            final(self)@ == (NodeView {
                data: old(self)@.data.remove(T::kind()),
                ..old(self)@
            }),
            final(self)@.keeps_identity(old(self)@),
            prev is Some <==> stored(old(self)@.data, T::kind()) is Some,
            prev is Some ==> stored(old(self)@.data, T::kind()) == Some(prev->0.wrap()),
    {
        proof {
            if self.data@.contains_key(T::kind()) {
                self.data.lemma_kinds_match(T::kind());
            }
        }
        match self.data.remove(T::kind_of()) {
            Some(old_c) => T::from_component(old_c),
            None => None,
        }
    }

    /// Makes `child` a child of `parent`, after the children that `parent`
    /// already has. Nothing is linked, and `false` is returned, unless both
    /// nodes exist in `diagram`.
    pub fn link_child(diagram: &mut Diagram, parent: NodeIdx, child: NodeIdx) -> (linked: bool)
        requires
            old(diagram).wf(),
        ensures
            final(diagram).wf(),
            linked <==> parent.0 < old(diagram)@.len() && child.0 < old(diagram)@.len(),
            linked ==> final(diagram)@ == old(diagram)@.update(
                parent.0 as int,
                NodeView {
                    children: old(diagram)@[parent.0 as int].children.push(child),
                    ..old(diagram)@[parent.0 as int]
                },
            ),
            !linked ==> final(diagram)@ == old(diagram)@,
    {
        if parent.0 < diagram.nodes.len() && child.0 < diagram.nodes.len() {
            diagram.nodes[parent.0].children.push(child);
            proof {
                let before = old(diagram)@[parent.0 as int].children;
                assert forall|c: NodeIdx| #[trigger]
                    before.push(child).contains(c) implies c.0 < old(diagram)@.len() by {
                    let k = choose|k: int|
                        0 <= k < before.push(child).len() && before.push(child)[k] == c;
                    if k < before.len() {
                        assert(before[k] == c);
                        assert(before.contains(c));
                    }
                }
            }
            assert(diagram@ =~= old(diagram)@.update(
                parent.0 as int,
                NodeView {
                    children: old(diagram)@[parent.0 as int].children.push(child),
                    ..old(diagram)@[parent.0 as int]
                },
            ));
            true
        } else {
            false
        }
    }

    /// Removes the first occurrence of `child` among the node's children.
    /// Returns whether there was one.
    pub fn unlink_child(&mut self, child: NodeIdx) -> (unlinked: bool)
        requires
            old(self).wf(),
        ensures
            final(self).wf(),
            unlinked <==> old(self)@.children.contains(child),
            unlinked ==> exists|i: int|
                is_first_at(old(self)@.children, child, i) && final(self)@ == (NodeView {
                    children: old(self)@.children.remove(i),
                    ..old(self)@
                }),
            !unlinked ==> final(self)@ == old(self)@,
            final(self)@.keeps_identity(old(self)@),
    {
        let mut i: usize = 0;
        while i < self.children.len()
            invariant
                *self == *old(self),
                self.wf(),
                i <= self.children.len(),
                forall|j: int| 0 <= j < i ==> self.children@[j] != child,
            decreases self.children.len() - i,
        {
            if self.children[i] == child {
                self.children.remove(i);
                assert(is_first_at(old(self)@.children, child, i as int));
                assert forall|c: NodeIdx| self@.children.contains(c) implies old(
                    self,
                )@.children.contains(c) by {
                    let k = choose|k: int| 0 <= k < self@.children.len() && self@.children[k] == c;
                    if k < i {
                        assert(old(self)@.children[k] == c);
                    } else {
                        assert(old(self)@.children[k + 1] == c);
                    }
                }
                return true;
            }
            i = i + 1;
        }
        false
    }
}

/// A diagram: the store of all its nodes.
pub struct Diagram {
    next_idx: usize,
    nodes: Vec<DiagramNode>,
}

impl View for Diagram {
    type V = Seq<NodeView>;

    /// The nodes in the order of their identities.
    closed spec fn view(&self) -> Seq<NodeView> {
        Seq::new(self.nodes@.len(), |i: int| self.nodes@[i]@)
    }
}

impl Diagram {
    /// The store is consistent: the graph is well-formed and the counter
    /// stands at the number of nodes.
    pub closed spec fn wf(&self) -> bool {
        &&& self.next_idx == self.nodes@.len()
        &&& graph_wf(self@)
        &&& forall|i: int| 0 <= i < self.nodes@.len() ==> (#[trigger] self.nodes@[i]).wf()
    }

    /// A well-formed diagram holds a well-formed graph.
    pub proof fn lemma_wf_graph(&self)
        requires
            self.wf(),
        ensures
            graph_wf(self@),
    {
    }

    /// Checks that the store is consistent. A diagram that is only ever
    /// edited through its own functions and those of its nodes is; one whose
    /// nodes were exchanged with those of another diagram need not be.
    pub fn is_wf(&self) -> (b: bool)
        ensures
            b == self.wf(),
    {
        let n = self.nodes.len();
        if self.next_idx != n {
            return false;
        }
        let mut i: usize = 0;
        while i < n
            invariant
                n == self.nodes@.len(),
                self.next_idx == n,
                i <= n,
                forall|k: int|
                    0 <= k < i ==> {
                        &&& (#[trigger] self@[k]).id.0 == k
                        &&& forall|c: NodeIdx| #[trigger]
                            self@[k].children.contains(c) ==> c.0 < n
                    },
                forall|k: int| 0 <= k < i ==> (#[trigger] self.nodes@[k]).wf(),
            decreases n - i,
        {
            let node = &self.nodes[i];
            assert(self@[i as int] == node@);
            if node.id.0 != i {
                assert(self@[i as int].id.0 != i);
                return false;
            }
            if !node.is_wf() {
                return false;
            }
            let mut j: usize = 0;
            while j < node.children.len()
                invariant
                    n == self.nodes@.len(),
                    j <= node.children@.len(),
                    self@[i as int] == node@,
                    i < n,
                    forall|q: int| 0 <= q < j ==> (#[trigger] node.children@[q]).0 < n,
                decreases node.children.len() - j,
            {
                if node.children[j].0 >= n {
                    assert(self@[i as int].children.contains(node.children@[j as int]));
                    return false;
                }
                j = j + 1;
            }
            assert forall|c: NodeIdx| #[trigger] self@[i as int].children.contains(c) implies c.0
                < n by {
                let q = choose|q: int| 0 <= q < node.children@.len() && node.children@[q] == c;
                assert(node.children@[q].0 < n);
            }
            i = i + 1;
        }
        true
    }

    /// An empty diagram.
    pub fn new() -> (d: Diagram)
        ensures
            d.wf(),
            d@ == Seq::<NodeView>::empty(),
    {
        let d = Diagram { next_idx: 0, nodes: Vec::new() };
        assert(d@ =~= Seq::<NodeView>::empty());
        d
    }

    /// The number of nodes.
    pub fn len(&self) -> (n: usize)
        ensures
            n == self@.len(),
    {
        self.nodes.len()
    }

    /// The nodes in ascending order of identity.
    pub fn iter(&self) -> (r: Vec<&DiagramNode>)
        requires
            self.wf(),
        ensures
            r@.len() == self@.len(),
            forall|i: int| 0 <= i < r@.len() ==> (#[trigger] r@[i])@ == self@[i] && r@[i].wf(),
            forall|i: int| 0 <= i < r@.len() ==> (#[trigger] r@[i])@.id.0 == i,
    {
        let mut out: Vec<&DiagramNode> = Vec::new();
        let mut i: usize = 0;
        while i < self.nodes.len()
            invariant
                self.wf(),
                i <= self.nodes.len(),
                out@.len() == i,
                forall|k: int| 0 <= k < i ==> (#[trigger] out@[k])@ == self@[k] && out@[k].wf(),
            decreases self.nodes.len() - i,
        {
            out.push(&self.nodes[i]);
            i = i + 1;
        }
        out
    }

    /// Exclusive access to the node with identity `idx`, if it exists. The
    /// diagram is well-formed again once the node has been edited through
    /// its own methods.
    pub fn get_mut(&mut self, idx: NodeIdx) -> (r: Option<&mut DiagramNode>)
        requires
            old(self).wf(),
        ensures
            r is Some <==> idx.0 < old(self)@.len(),
            r is None ==> final(self)@ == old(self)@ && final(self).wf(),
            r matches Some(n) ==> {
                &&& n@ == old(self)@[idx.0 as int]
                &&& n.wf()
                &&& final(self)@ == old(self)@.update(idx.0 as int, final(n)@)
                &&& final(n).wf() && final(n)@.keeps_identity(n@) ==> final(self).wf()
            },
    {
        if idx.0 < self.nodes.len() {
            Some(&mut self.nodes[idx.0])
        } else {
            None
        }
    }

    /// The node with identity `idx`, if it exists.
    pub fn get(&self, idx: NodeIdx) -> (r: Option<&DiagramNode>)
        requires
            self.wf(),
        ensures
            r is Some <==> idx.0 < self@.len(),
            r is Some ==> r->0@ == self@[idx.0 as int] && r->0.wf(),
    {
        if idx.0 < self.nodes.len() {
            Some(&self.nodes[idx.0])
        } else {
            None
        }
    }
}

} // verus!
