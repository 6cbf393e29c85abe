//! What holds of every component bag and of every sequence of node
//! creations.

use vstd::prelude::*;
use super::bag::{stored, Component, ComponentKind};
use super::{fresh_node, graph_wf, NodeType, NodeView};

verus! {

/// Inserting a component of a kind that the bag does not hold yet hands
/// back nothing, and the bag then holds the component for its kind.
pub proof fn lemma_insert_fresh(data: Map<ComponentKind, Component>, c: Component)
    requires
        !data.contains_key(c.spec_kind()),
    ensures
        stored(data, c.spec_kind()) is None,
        stored(data.insert(c.spec_kind(), c), c.spec_kind()) == Some(c),
{
}

/// Inserting a component of a kind that the bag holds already hands back
/// what was held, and the bag then holds the new component for that kind.
pub proof fn lemma_insert_overwrites(data: Map<ComponentKind, Component>, c: Component)
    requires
        data.contains_key(c.spec_kind()),
    ensures
        stored(data, c.spec_kind()) == Some(data[c.spec_kind()]),
        stored(data.insert(c.spec_kind(), c), c.spec_kind()) == Some(c),
{
}

/// Inserting a component leaves what the bag holds for every other kind.
pub proof fn lemma_insert_keeps_others(
    data: Map<ComponentKind, Component>,
    c: Component,
    other: ComponentKind,
)
    requires
        other != c.spec_kind(),
    ensures
        stored(data.insert(c.spec_kind(), c), other) == stored(data, other),
{
}

/// In a well-formed graph the identities ascend with the position.
pub proof fn lemma_ids_ascend(g: Seq<NodeView>, i: int, j: int)
    requires
        graph_wf(g),
        0 <= i < j < g.len(),
    ensures
        g[i].id.0 < g[j].id.0,
{
}

/// Creating a node keeps the graph well-formed and gives the node an
/// identity above every identity given before; so do the identities of
/// two nodes created one after the other ascend.
pub proof fn lemma_create_ascends(g: Seq<NodeView>, first: NodeType, second: NodeType)
    requires
        graph_wf(g),
        g.len() + 1 <= usize::MAX,
    ensures
        graph_wf(g.push(fresh_node(g.len(), first))),
        forall|i: int| 0 <= i < g.len() ==> (#[trigger] g[i]).id.0 < fresh_node(g.len(), first).id.0,
        fresh_node(g.len(), first).id.0 < fresh_node(g.len() + 1, second).id.0,
{
    let g1 = g.push(fresh_node(g.len(), first));
    assert forall|i: int| 0 <= i < g1.len() implies (#[trigger] g1[i]).id.0 == i && (forall|
        c: super::NodeIdx,
    | #[trigger] g1[i].children.contains(c) ==> c.0 < g1.len()) by {
        if i < g.len() {
            assert(g1[i] == g[i]);
        }
    }
}

} // verus!
