//! What holds of every layout: solved nodes meet their constraints, solved
//! boxes hold their solved children, and a child that its box cannot hold
//! is never solved.

use vstd::prelude::*;
use vstd::set_lib::{lemma_int_range, lemma_len_subset, set_int_range};
use crate::model::visual::{DimensionConstraintData, SolvedDimensions};
use crate::model::{NodeIdx, NodeType, NodeView, graph_wf};
use super::layout::{
    any_cyclic, anchor_of, cap_of, child_conflict, constraint_of, first_conflict, first_rejection,
    fitted, floor_of, grow_h, grow_w, kid_conflict, layout, own_conflict, rejects, round, step,
    Resolution,
};

verus! {

/// `outer` holds `inner`: no edge of `inner` lies outside `outer`.
pub open spec fn holds(outer: SolvedDimensions, inner: SolvedDimensions) -> bool {
    &&& outer.x <= inner.x
    &&& outer.y <= inner.y
    &&& inner.x + inner.w <= outer.x + outer.w
    &&& inner.y + inner.h <= outer.y + outer.h
}

/// `d` lies within `c` on every axis, and its sizes are not negative.
pub open spec fn meets(c: DimensionConstraintData, d: SolvedDimensions) -> bool {
    &&& c.x.admits(d.x as int)
    &&& c.y.admits(d.y as int)
    &&& c.w.admits(d.w as int)
    &&& c.h.admits(d.h as int)
    &&& d.w >= 0
    &&& d.h >= 0
}

/// Two tables say the same of every node that `kids` names.
pub open spec fn agree_on(a: Seq<Resolution>, b: Seq<Resolution>, kids: Seq<NodeIdx>) -> bool {
    forall|j: int| 0 <= j < kids.len() ==> a[(#[trigger] kids[j]).0 as int] == b[kids[j].0 as int]
}

proof fn lemma_first_conflict_agrees(
    c: DimensionConstraintData,
    a: Seq<Resolution>,
    b: Seq<Resolution>,
    kids: Seq<NodeIdx>,
)
    requires
        agree_on(a, b, kids),
    ensures
        first_conflict(c, a, kids) == first_conflict(c, b, kids),
    decreases kids.len(),
{
    if kids.len() > 0 {
        assert(a[kids[0].0 as int] == b[kids[0].0 as int]);
        assert forall|j: int| 0 <= j < kids.drop_first().len() implies a[(
        #[trigger] kids.drop_first()[j]).0 as int] == b[kids.drop_first()[j].0 as int] by {
            assert(kids.drop_first()[j] == kids[j + 1]);
        }
        lemma_first_conflict_agrees(c, a, b, kids.drop_first());
    }
}

proof fn lemma_grow_agrees(
    x: int,
    a: Seq<Resolution>,
    b: Seq<Resolution>,
    kids: Seq<NodeIdx>,
    acc: int,
)
    requires
        agree_on(a, b, kids),
    ensures
        grow_w(x, a, kids, acc) == grow_w(x, b, kids, acc),
        grow_h(x, a, kids, acc) == grow_h(x, b, kids, acc),
    decreases kids.len(),
{
    if kids.len() > 0 {
        assert(a[kids[0].0 as int] == b[kids[0].0 as int]);
        assert forall|j: int| 0 <= j < kids.drop_first().len() implies a[(
        #[trigger] kids.drop_first()[j]).0 as int] == b[kids.drop_first()[j].0 as int] by {
            assert(kids.drop_first()[j] == kids[j + 1]);
        }
        let rw = match a[kids[0].0 as int] {
            Resolution::Solved(d) => d.x + d.w - x,
            _ => acc,
        };
        let rh = match a[kids[0].0 as int] {
            Resolution::Solved(d) => d.y + d.h - x,
            _ => acc,
        };
        lemma_grow_agrees(x, a, b, kids.drop_first(), if rw > acc { rw } else { acc });
        lemma_grow_agrees(x, a, b, kids.drop_first(), if rh > acc { rh } else { acc });
    }
}

/// How a node resolves depends on the table only through the entries of
/// its children.
pub proof fn lemma_step_reads_children(n: NodeView, a: Seq<Resolution>, b: Seq<Resolution>)
    requires
        agree_on(a, b, n.children),
    ensures
        step(n, a) == step(n, b),
{
    let c = constraint_of(n);
    lemma_first_conflict_agrees(c, a, b, n.children);
    lemma_grow_agrees(anchor_of(c.x), a, b, n.children, floor_of(c.w));
    lemma_grow_agrees(anchor_of(c.y), a, b, n.children, floor_of(c.h));
    if any_cyclic(a, n.children) {
        let j = choose|j: int| 0 <= j < n.children.len() && a[(#[trigger] n.children[j]).0 as int] is Cyclic;
        assert(b[n.children[j].0 as int] is Cyclic);
    }
    if any_cyclic(b, n.children) {
        let j = choose|j: int| 0 <= j < n.children.len() && b[(#[trigger] n.children[j]).0 as int] is Cyclic;
        assert(a[n.children[j].0 as int] is Cyclic);
    }
}

/// A node that is no longer taken for cyclic keeps its resolution in every
/// later round.
pub proof fn lemma_round_settles(g: Seq<NodeView>, k: nat, i: int)
    requires
        graph_wf(g),
        0 <= i < g.len(),
        !(round(g, k)[i] is Cyclic),
    ensures
        round(g, k + 1)[i] == round(g, k)[i],
    decreases k,
{
    if k > 0 {
        let prev = round(g, (k - 1) as nat);
        let cur = round(g, k);
        assert(cur[i] == step(g[i], prev));
        assert(!any_cyclic(prev, g[i].children));
        assert forall|j: int| 0 <= j < g[i].children.len() implies prev[(
        #[trigger] g[i].children[j]).0 as int] == cur[g[i].children[j].0 as int] by {
            let kid = g[i].children[j];
            assert(g[i].children.contains(kid));
            assert(!(prev[kid.0 as int] is Cyclic));
            lemma_round_settles(g, (k - 1) as nat, kid.0 as int);
        }
        lemma_step_reads_children(g[i], prev, cur);
    }
}

proof fn lemma_no_conflict_among(
    c: DimensionConstraintData,
    table: Seq<Resolution>,
    kids: Seq<NodeIdx>,
    j: int,
)
    requires
        0 <= j < kids.len(),
        first_conflict(c, table, kids) is None,
    ensures
        kid_conflict(c, table, kids[j]) is None,
    decreases kids.len(),
{
    if j > 0 {
        lemma_no_conflict_among(c, table, kids.drop_first(), j - 1);
    }
}

proof fn lemma_conflict_found(
    c: DimensionConstraintData,
    table: Seq<Resolution>,
    kids: Seq<NodeIdx>,
    j: int,
)
    requires
        0 <= j < kids.len(),
        kid_conflict(c, table, kids[j]) is Some,
    ensures
        first_conflict(c, table, kids) is Some,
    decreases kids.len(),
{
    if j > 0 && kid_conflict(c, table, kids[0]) is None {
        lemma_conflict_found(c, table, kids.drop_first(), j - 1);
    }
}

proof fn lemma_grow_w_reaches(x: int, table: Seq<Resolution>, kids: Seq<NodeIdx>, acc: int, j: int)
    requires
        0 <= j < kids.len(),
    ensures
        grow_w(x, table, kids, acc) >= acc,
        table[kids[j].0 as int] matches Resolution::Solved(d) ==> grow_w(x, table, kids, acc)
            >= d.x + d.w - x,
    decreases kids.len(),
{
    let reach = match table[kids[0].0 as int] {
        Resolution::Solved(d) => d.x + d.w - x,
        _ => acc,
    };
    let next = if reach > acc { reach } else { acc };
    lemma_grow_w_least(x, table, kids.drop_first(), next);
    if j > 0 {
        lemma_grow_w_reaches(x, table, kids.drop_first(), next, j - 1);
    }
}

proof fn lemma_grow_w_least(x: int, table: Seq<Resolution>, kids: Seq<NodeIdx>, acc: int)
    ensures
        grow_w(x, table, kids, acc) >= acc,
    decreases kids.len(),
{
    if kids.len() > 0 {
        let reach = match table[kids[0].0 as int] {
            Resolution::Solved(d) => d.x + d.w - x,
            _ => acc,
        };
        lemma_grow_w_least(x, table, kids.drop_first(), if reach > acc { reach } else { acc });
    }
}

proof fn lemma_grow_h_reaches(y: int, table: Seq<Resolution>, kids: Seq<NodeIdx>, acc: int, j: int)
    requires
        0 <= j < kids.len(),
    ensures
        grow_h(y, table, kids, acc) >= acc,
        table[kids[j].0 as int] matches Resolution::Solved(d) ==> grow_h(y, table, kids, acc)
            >= d.y + d.h - y,
    decreases kids.len(),
{
    let reach = match table[kids[0].0 as int] {
        Resolution::Solved(d) => d.y + d.h - y,
        _ => acc,
    };
    let next = if reach > acc { reach } else { acc };
    lemma_grow_h_least(y, table, kids.drop_first(), next);
    if j > 0 {
        lemma_grow_h_reaches(y, table, kids.drop_first(), next, j - 1);
    }
}

proof fn lemma_grow_h_least(y: int, table: Seq<Resolution>, kids: Seq<NodeIdx>, acc: int)
    ensures
        grow_h(y, table, kids, acc) >= acc,
    decreases kids.len(),
{
    if kids.len() > 0 {
        let reach = match table[kids[0].0 as int] {
            Resolution::Solved(d) => d.y + d.h - y,
            _ => acc,
        };
        lemma_grow_h_least(y, table, kids.drop_first(), if reach > acc { reach } else { acc });
    }
}

proof fn lemma_grow_capped(
    c: DimensionConstraintData,
    table: Seq<Resolution>,
    kids: Seq<NodeIdx>,
    acc_w: int,
    acc_h: int,
)
    requires
        first_conflict(c, table, kids) is None,
        acc_w <= cap_of(c.w),
        acc_h <= cap_of(c.h),
    ensures
        grow_w(anchor_of(c.x), table, kids, acc_w) <= cap_of(c.w),
        grow_h(anchor_of(c.y), table, kids, acc_h) <= cap_of(c.h),
    decreases kids.len(),
{
    if kids.len() > 0 {
        let x = anchor_of(c.x);
        let y = anchor_of(c.y);
        assert(kid_conflict(c, table, kids[0]) is None);
        let rw = match table[kids[0].0 as int] {
            Resolution::Solved(d) => d.x + d.w - x,
            _ => acc_w,
        };
        let rh = match table[kids[0].0 as int] {
            Resolution::Solved(d) => d.y + d.h - y,
            _ => acc_h,
        };
        lemma_grow_capped(
            c,
            table,
            kids.drop_first(),
            if rw > acc_w { rw } else { acc_w },
            if rh > acc_h { rh } else { acc_h },
        );
    }
}

/// A node that resolves to a place and size meets its own constraints, and
/// a box moreover holds each of its children that the table has solved.
pub proof fn lemma_step_sound(n: NodeView, table: Seq<Resolution>)
    requires
        step(n, table) is Solved,
    ensures
        meets(constraint_of(n), step(n, table)->Solved_0),
        n.ty == NodeType::Box ==> forall|j: int|
            0 <= j < n.children.len() && table[(#[trigger] n.children[j]).0 as int] is Solved
                ==> holds(step(n, table)->Solved_0, table[n.children[j].0 as int]->Solved_0),
{
    let c = constraint_of(n);
    let x = anchor_of(c.x);
    let y = anchor_of(c.y);
    lemma_grow_w_least(x, table, n.children, floor_of(c.w));
    lemma_grow_h_least(y, table, n.children, floor_of(c.h));
    if n.ty == NodeType::Box {
        lemma_grow_capped(c, table, n.children, floor_of(c.w), floor_of(c.h));
        assert forall|j: int|
            0 <= j < n.children.len() && table[(#[trigger] n.children[j]).0 as int] is Solved
            implies holds(step(n, table)->Solved_0, table[n.children[j].0 as int]->Solved_0) by {
            lemma_no_conflict_among(c, table, n.children, j);
            lemma_grow_w_reaches(x, table, n.children, floor_of(c.w), j);
            lemma_grow_h_reaches(y, table, n.children, floor_of(c.h), j);
        }
    }
}

/// A node without constraints that holds nothing is placed at the origin
/// with no extent.
pub proof fn lemma_default_sizing(n: NodeView, table: Seq<Resolution>)
    requires
        constraint_of(n) == DimensionConstraintData::unconstrained(),
        n.children.len() == 0 || n.ty != NodeType::Box,
        !any_cyclic(table, n.children),
    ensures
        step(n, table) == Resolution::Solved(SolvedDimensions { x: 0, y: 0, w: 0, h: 0 }),
{
}

/// The entry of a child in the round before the last is its final one,
/// where its parent did not end up cyclic.
proof fn lemma_children_final(g: Seq<NodeView>, p: int, j: int)
    requires
        graph_wf(g),
        0 <= p < g.len(),
        0 <= j < g[p].children.len(),
        !(fitted(g)[p] is Cyclic),
    ensures
        g[p].children[j].0 < g.len(),
        round(g, (g.len() - 1) as nat)[g[p].children[j].0 as int] == fitted(g)[g[p].children[j].0 as int],
{
    let kid = g[p].children[j];
    assert(g[p].children.contains(kid));
    let prev = round(g, (g.len() - 1) as nat);
    assert(fitted(g)[p] == step(g[p], prev));
    assert(!any_cyclic(prev, g[p].children));
    assert(!(prev[kid.0 as int] is Cyclic));
    lemma_round_settles(g, (g.len() - 1) as nat, kid.0 as int);
}

/// Every solved node of a layout meets its constraints.
pub proof fn lemma_layout_meets_constraints(g: Seq<NodeView>, i: int)
    requires
        graph_wf(g),
        0 <= i < g.len(),
        layout(g)[i] is Solved,
    ensures
        meets(constraint_of(g[i]), layout(g)[i]->Solved_0),
{
    let prev = round(g, (g.len() - 1) as nat);
    assert(fitted(g)[i] == step(g[i], prev));
    lemma_step_sound(g[i], prev);
}

/// Containment: a solved box holds each of its children that is solved.
pub proof fn lemma_layout_contains(g: Seq<NodeView>, p: int, j: int)
    requires
        graph_wf(g),
        0 <= p < g.len(),
        g[p].ty == NodeType::Box,
        0 <= j < g[p].children.len(),
        layout(g)[p] is Solved,
        g[p].children[j].0 < g.len() ==> layout(g)[g[p].children[j].0 as int] is Solved,
    ensures
        g[p].children[j].0 < g.len(),
        holds(layout(g)[p]->Solved_0, layout(g)[g[p].children[j].0 as int]->Solved_0),
{
    let prev = round(g, (g.len() - 1) as nat);
    assert(fitted(g)[p] == step(g[p], prev));
    lemma_children_final(g, p, j);
    lemma_step_sound(g[p], prev);
}

/// No silent shrinking: a box that is neither cyclic nor at odds with its
/// own constraints can hold every child that the layout has solved. A
/// child that it cannot hold is left without a result, as the box is.
pub proof fn lemma_solved_child_fits(g: Seq<NodeView>, p: int, j: int)
    requires
        graph_wf(g),
        0 <= p < g.len(),
        g[p].ty == NodeType::Box,
        0 <= j < g[p].children.len(),
        !(layout(g)[p] is Cyclic),
        own_conflict(constraint_of(g[p])) is None,
        g[p].children[j].0 < g.len() ==> layout(g)[g[p].children[j].0 as int] is Solved,
    ensures
        g[p].children[j].0 < g.len(),
        child_conflict(
            constraint_of(g[p]),
            layout(g)[g[p].children[j].0 as int]->Solved_0,
        ) is None,
{
    let kid = g[p].children[j];
    let c = constraint_of(g[p]);
    let table = fitted(g);
    let prev = round(g, (g.len() - 1) as nat);
    assert(g[p].children.contains(kid));
    assert(table[p] == step(g[p], prev));
    lemma_children_final(g, p, j);
    if kid_conflict(c, table, kid) is Some {
        assert(kid_conflict(c, prev, kid) is Some);
        lemma_conflict_found(c, prev, g[p].children, j);
        assert(rejects(g, table, p, kid) is Some);
        lemma_rejection_stays(g, table, kid, p + 1, g.len() as int);
    }
}

/// A rejection found among the first nodes is found among all of them.
proof fn lemma_rejection_stays(
    g: Seq<NodeView>,
    table: Seq<Resolution>,
    k: NodeIdx,
    upto: int,
    end: int,
)
    requires
        first_rejection(g, table, k, upto) is Some,
        upto <= end,
    ensures
        first_rejection(g, table, k, end) is Some,
    decreases end - upto,
{
    if upto < end {
        lemma_rejection_stays(g, table, k, upto + 1, end);
    }
}

/// A box that cannot hold one of its solved children has no result, and
/// names such a child as the reason.
pub proof fn lemma_unfit_box_fails(g: Seq<NodeView>, p: int, j: int)
    requires
        graph_wf(g),
        0 <= p < g.len(),
        g[p].ty == NodeType::Box,
        0 <= j < g[p].children.len(),
        !(fitted(g)[p] is Cyclic),
        own_conflict(constraint_of(g[p])) is None,
        kid_conflict(constraint_of(g[p]), fitted(g), g[p].children[j]) is Some,
    ensures
        layout(g)[p] matches Resolution::Unsatisfiable { against: Some(_), .. },
        layout(g)[g[p].children[j].0 as int] matches Resolution::Unsatisfiable {
            against: Some(_),
            ..
        },
{
    let kid = g[p].children[j];
    let c = constraint_of(g[p]);
    let table = fitted(g);
    let prev = round(g, (g.len() - 1) as nat);
    assert(g[p].children.contains(kid));
    assert(table[p] == step(g[p], prev));
    lemma_children_final(g, p, j);
    lemma_conflict_found(c, prev, g[p].children, j);
    assert(rejects(g, table, p, kid) is Some);
    lemma_rejection_stays(g, table, kid, p + 1, g.len() as int);
}

/// Default sizing: a node without constraints and without children
/// resolves to the origin with no extent; only a box that cannot hold it
/// there takes that away.
pub proof fn lemma_layout_default_sizing(g: Seq<NodeView>, i: int)
    requires
        graph_wf(g),
        0 <= i < g.len(),
        constraint_of(g[i]) == DimensionConstraintData::unconstrained(),
        g[i].children.len() == 0,
    ensures
        fitted(g)[i] == Resolution::Solved(SolvedDimensions { x: 0, y: 0, w: 0, h: 0 }),
        layout(g)[i] == fitted(g)[i] || (layout(g)[i] matches Resolution::Unsatisfiable {
            against: Some(_),
            ..
        }),
{
    let prev = round(g, (g.len() - 1) as nat);
    assert(fitted(g)[i] == step(g[i], prev));
    lemma_default_sizing(g[i], prev);
}

/// A node that is its own child is cyclic in every round, and so in the
/// layout.
pub proof fn lemma_self_link_is_cyclic(g: Seq<NodeView>, i: int, k: nat)
    requires
        0 <= i < g.len(),
        i <= usize::MAX,
        g[i].children.contains(NodeIdx(i as usize)),
    ensures
        round(g, k)[i] is Cyclic,
        k == g.len() ==> layout(g)[i] is Cyclic,
    decreases k,
{
    if k > 0 {
        lemma_self_link_is_cyclic(g, i, (k - 1) as nat);
        let prev = round(g, (k - 1) as nat);
        let j = choose|j: int| 0 <= j < g[i].children.len() && g[i].children[j] == NodeIdx(i as usize);
        assert(prev[g[i].children[j].0 as int] is Cyclic);
        assert(any_cyclic(prev, g[i].children));
    }
}

/// `path` starts at a node of the graph and follows one child link after
/// the other.
pub open spec fn is_chain(g: Seq<NodeView>, path: Seq<NodeIdx>) -> bool {
    &&& path.len() >= 1
    &&& path[0].0 < g.len()
    &&& forall|j: int|
        0 <= j < path.len() - 1 ==> g[(#[trigger] path[j]).0 as int].children.contains(path[j + 1])
}

/// Every node of a chain is a node of the graph.
proof fn lemma_chain_stays_inside(g: Seq<NodeView>, path: Seq<NodeIdx>, j: int)
    requires
        graph_wf(g),
        is_chain(g, path),
        0 <= j < path.len(),
    ensures
        path[j].0 < g.len(),
    decreases j,
{
    if j > 0 {
        lemma_chain_stays_inside(g, path, j - 1);
        assert(g[path[j - 1].0 as int].children.contains(path[j]));
    }
}

/// From a node that is still taken for cyclic after `k` rounds a chain of
/// `k` child links starts.
pub proof fn lemma_cyclic_has_chain(g: Seq<NodeView>, k: nat, i: int) -> (path: Seq<NodeIdx>)
    requires
        graph_wf(g),
        0 <= i < g.len(),
        round(g, k)[i] is Cyclic,
    ensures
        is_chain(g, path),
        path.len() == k + 1,
        path[0] == g[i].id,
    decreases k,
{
    if k == 0 {
        seq![g[i].id]
    } else {
        let prev = round(g, (k - 1) as nat);
        assert(round(g, k)[i] == step(g[i], prev));
        let j = choose|j: int|
            0 <= j < g[i].children.len() && prev[(#[trigger] g[i].children[j]).0 as int] is Cyclic;
        let kid = g[i].children[j];
        assert(g[i].children.contains(kid));
        let rest = lemma_cyclic_has_chain(g, (k - 1) as nat, kid.0 as int);
        let path = seq![g[i].id] + rest;
        assert(rest[0] == kid);
        assert forall|q: int| 0 <= q < path.len() - 1 implies g[(
        #[trigger] path[q]).0 as int].children.contains(path[q + 1]) by {
            if q == 0 {
                assert(path[1] == rest[0]);
            } else {
                assert(path[q] == rest[q - 1]);
                assert(path[q + 1] == rest[q]);
            }
        }
        path
    }
}

/// A node from which a chain of `k` child links starts is still taken for
/// cyclic after `k` rounds.
pub proof fn lemma_chain_is_cyclic(g: Seq<NodeView>, path: Seq<NodeIdx>)
    requires
        graph_wf(g),
        is_chain(g, path),
    ensures
        round(g, (path.len() - 1) as nat)[path[0].0 as int] is Cyclic,
    decreases path.len(),
{
    if path.len() > 1 {
        let rest = path.drop_first();
        lemma_chain_stays_inside(g, path, 1);
        assert(rest[0] == path[1]);
        assert forall|q: int| 0 <= q < rest.len() - 1 implies g[(
        #[trigger] rest[q]).0 as int].children.contains(rest[q + 1]) by {
            assert(rest[q] == path[q + 1]);
            assert(rest[q + 1] == path[q + 2]);
        }
        lemma_chain_is_cyclic(g, rest);
        let i = path[0].0 as int;
        let prev = round(g, (rest.len() - 1) as nat);
        assert(g[i].children.contains(path[1]));
        let j = choose|j: int| 0 <= j < g[i].children.len() && g[i].children[j] == path[1];
        assert(prev[g[i].children[j].0 as int] is Cyclic);
        assert(any_cyclic(prev, g[i].children));
        assert(round(g, (path.len() - 1) as nat)[i] == step(g[i], prev));
    }
}

/// The layout reports a node as cyclic exactly when a chain of as many
/// child links as the graph has nodes starts at it. Such a chain visits
/// more nodes than there are, so it runs through a cycle.
pub proof fn lemma_cyclic_means_long_chain(g: Seq<NodeView>, i: int)
    requires
        graph_wf(g),
        0 <= i < g.len(),
    ensures
        layout(g)[i] is Cyclic <==> exists|path: Seq<NodeIdx>|
            #[trigger] is_chain(g, path) && path.len() == g.len() + 1 && path[0] == g[i].id,
{
    if layout(g)[i] is Cyclic {
        let path = lemma_cyclic_has_chain(g, g.len(), i);
        assert(is_chain(g, path) && path.len() == g.len() + 1 && path[0] == g[i].id);
    }
    if exists|path: Seq<NodeIdx>|
        #[trigger] is_chain(g, path) && path.len() == g.len() + 1 && path[0] == g[i].id {
        let path = choose|path: Seq<NodeIdx>|
            #[trigger] is_chain(g, path) && path.len() == g.len() + 1 && path[0] == g[i].id;
        lemma_chain_is_cyclic(g, path);
    }
}

/// A chain through more nodes than the graph has comes by some node
/// twice: it runs through a cycle.
pub proof fn lemma_long_chain_revisits(g: Seq<NodeView>, path: Seq<NodeIdx>)
    requires
        graph_wf(g),
        is_chain(g, path),
        path.len() > g.len(),
    ensures
        exists|a: int, b: int| 0 <= a < b < path.len() && path[a] == path[b],
{
    let ids = Seq::new(path.len(), |j: int| path[j].0 as int);
    if ids.no_duplicates() {
        ids.unique_seq_to_set();
        lemma_int_range(0, g.len() as int);
        assert(ids.to_set().subset_of(set_int_range(0, g.len() as int))) by {
            assert forall|x: int| ids.to_set().contains(x) implies set_int_range(
                0,
                g.len() as int,
            ).contains(x) by {
                let j = choose|j: int| 0 <= j < ids.len() && ids[j] == x;
                lemma_chain_stays_inside(g, path, j);
            }
        }
        lemma_len_subset(ids.to_set(), set_int_range(0, g.len() as int));
    } else {
        let (a, b) = choose|a: int, b: int|
            0 <= a < ids.len() && 0 <= b < ids.len() && a != b && ids[a] == ids[b];
        if a < b {
            assert(path[a] == path[b]);
        } else {
            assert(path[b] == path[a]);
        }
    }
}

} // verus!
