//! The layout solver: from the constraints of each node to one concrete
//! position and size, or to a report of why there is none.
//!
//! Coordinates are absolute. A node is placed at the admissible position
//! nearest the origin and gets the smallest admissible size that is not
//! negative. A box must moreover hold each solved child; a child that a
//! box cannot hold leaves both without a result. Nodes from which a cycle
//! of child links can be reached are reported as such.

use vstd::prelude::*;
use crate::model::bag::{Component, ComponentKind};
use crate::model::visual::{ConstraintRange, DimensionConstraintData, SolvedDimensions};
use crate::model::{Diagram, DiagramNode, NodeIdx, NodeType, NodeView, graph_wf};

verus! {

/// One of the four dimensions of a node.
#[derive(Debug, Clone, Copy, PartialEq, Eq, Structural)]
pub enum Axis {
    X,
    Y,
    Width,
    Height,
}

/// What the solver found for one node.
#[derive(Debug, Clone, Copy, PartialEq, Eq, Structural)]
pub enum Resolution {
    /// The node has this place and size.
    Solved(SolvedDimensions),
    /// The constraints cannot be met on `axis`: on their own, or, where
    /// `against` names a node, together with that child or parent.
    Unsatisfiable { axis: Axis, against: Option<NodeIdx> },
    /// A cycle of child links can be reached from the node.
    Cyclic,
}

/// The constraints that a node carries; none on any axis where it carries
/// no constraint component.
pub open spec fn constraint_of(n: NodeView) -> DimensionConstraintData {
    if n.data.contains_key(ComponentKind::Constraint) {
        match n.data[ComponentKind::Constraint] {
            Component::Constraint(c) => c,
            _ => DimensionConstraintData::unconstrained(),
        }
    } else {
        DimensionConstraintData::unconstrained()
    }
}

/// The position within `r` that is nearest the origin.
pub open spec fn anchor_of(r: ConstraintRange) -> int {
    if r.min is Some && r.min->0 > 0 {
        r.min->0 as int
    } else if r.max is Some && r.max->0 < 0 {
        r.max->0 as int
    } else {
        0
    }
}

/// The smallest size that `r` admits from below and that is not negative.
pub open spec fn floor_of(r: ConstraintRange) -> int {
    if r.min is Some && r.min->0 > 0 {
        r.min->0 as int
    } else {
        0
    }
}

/// The largest size that `r` admits.
pub open spec fn cap_of(r: ConstraintRange) -> int {
    if r.max is Some {
        r.max->0 as int
    } else {
        i64::MAX as int
    }
}

/// The first axis on which `c` cannot be met whatever the node holds: a
/// position range with crossed bounds, or a size range that admits no size
/// from zero up.
pub open spec fn own_conflict(c: DimensionConstraintData) -> Option<Axis> {
    if !c.x.wf() {
        Some(Axis::X)
    } else if !c.y.wf() {
        Some(Axis::Y)
    } else if floor_of(c.w) > cap_of(c.w) {
        Some(Axis::Width)
    } else if floor_of(c.h) > cap_of(c.h) {
        Some(Axis::Height)
    } else {
        None
    }
}

/// The first axis on which a box with constraints `c` cannot hold a child
/// placed at `d`: the child starts before the box, or ends beyond the
/// largest extent that the box may have.
pub open spec fn child_conflict(c: DimensionConstraintData, d: SolvedDimensions) -> Option<Axis> {
    if d.x < anchor_of(c.x) {
        Some(Axis::X)
    } else if d.y < anchor_of(c.y) {
        Some(Axis::Y)
    } else if d.x + d.w - anchor_of(c.x) > cap_of(c.w) {
        Some(Axis::Width)
    } else if d.y + d.h - anchor_of(c.y) > cap_of(c.h) {
        Some(Axis::Height)
    } else {
        None
    }
}

/// `table` has an entry for every node that `kids` names.
pub open spec fn covers(table: Seq<Resolution>, kids: Seq<NodeIdx>) -> bool {
    forall|j: int| 0 <= j < kids.len() ==> (#[trigger] kids[j]).0 < table.len()
}

/// Some node among `kids` is cyclic in `table`.
pub open spec fn any_cyclic(table: Seq<Resolution>, kids: Seq<NodeIdx>) -> bool {
    exists|j: int| 0 <= j < kids.len() && table[(#[trigger] kids[j]).0 as int] is Cyclic
}

/// The conflict between a box with constraints `c` and the child `k`, as
/// far as `k` is solved in `table`.
pub open spec fn kid_conflict(c: DimensionConstraintData, table: Seq<Resolution>, k: NodeIdx)
    -> Option<Axis> {
    match table[k.0 as int] {
        Resolution::Solved(d) => child_conflict(c, d),
        _ => None,
    }
}

/// The first of `kids` that a box with constraints `c` cannot hold, and
/// the axis on which it cannot.
pub open spec fn first_conflict(
    c: DimensionConstraintData,
    table: Seq<Resolution>,
    kids: Seq<NodeIdx>,
) -> Option<(NodeIdx, Axis)>
    decreases kids.len(),
{
    if kids.len() == 0 {
        None
    } else {
        match kid_conflict(c, table, kids[0]) {
            Some(axis) => Some((kids[0], axis)),
            None => first_conflict(c, table, kids.drop_first()),
        }
    }
}

/// The width that a box at `x` needs to hold the solved ones of `kids`,
/// and at least `acc`.
pub open spec fn grow_w(x: int, table: Seq<Resolution>, kids: Seq<NodeIdx>, acc: int) -> int
    decreases kids.len(),
{
    if kids.len() == 0 {
        acc
    } else {
        let reach = match table[kids[0].0 as int] {
            Resolution::Solved(d) => d.x + d.w - x,
            _ => acc,
        };
        grow_w(x, table, kids.drop_first(), if reach > acc { reach } else { acc })
    }
}

/// The height that a box at `y` needs to hold the solved ones of `kids`,
/// and at least `acc`.
pub open spec fn grow_h(y: int, table: Seq<Resolution>, kids: Seq<NodeIdx>, acc: int) -> int
    decreases kids.len(),
{
    if kids.len() == 0 {
        acc
    } else {
        let reach = match table[kids[0].0 as int] {
            Resolution::Solved(d) => d.y + d.h - y,
            _ => acc,
        };
        grow_h(y, table, kids.drop_first(), if reach > acc { reach } else { acc })
    }
}

/// What a node resolves to when its children resolve as `table` says.
pub open spec fn step(n: NodeView, table: Seq<Resolution>) -> Resolution {
    let c = constraint_of(n);
    let holds = n.ty == NodeType::Box;
    if any_cyclic(table, n.children) {
        Resolution::Cyclic
    } else if own_conflict(c) is Some {
        Resolution::Unsatisfiable { axis: own_conflict(c)->0, against: None }
    } else if holds && first_conflict(c, table, n.children) is Some {
        let (k, axis) = first_conflict(c, table, n.children)->0;
        Resolution::Unsatisfiable { axis, against: Some(k) }
    } else {
        let x = anchor_of(c.x);
        let y = anchor_of(c.y);
        Resolution::Solved(
            SolvedDimensions {
                x: x as i64,
                y: y as i64,
                w: (if holds {
                    grow_w(x, table, n.children, floor_of(c.w))
                } else {
                    floor_of(c.w)
                }) as i64,
                h: (if holds {
                    grow_h(y, table, n.children, floor_of(c.h))
                } else {
                    floor_of(c.h)
                }) as i64,
            },
        )
    }
}

fn range_wf(r: &ConstraintRange) -> (ok: bool)
    ensures
        ok == r.wf(),
{
    match (r.min, r.max) {
        (Some(lo), Some(hi)) => lo <= hi,
        _ => true,
    }
}

fn anchor(r: &ConstraintRange) -> (a: i64)
    ensures
        a == anchor_of(*r),
{
    match (r.min, r.max) {
        (Some(lo), _) if lo > 0 => lo,
        (_, Some(hi)) if hi < 0 => hi,
        _ => 0,
    }
}

fn floor(r: &ConstraintRange) -> (a: i64)
    ensures
        a == floor_of(*r),
{
    match r.min {
        Some(lo) if lo > 0 => lo,
        _ => 0,
    }
}

fn cap(r: &ConstraintRange) -> (a: i64)
    ensures
        a == cap_of(*r),
{
    match r.max {
        Some(hi) => hi,
        None => i64::MAX,
    }
}

fn find_own_conflict(c: &DimensionConstraintData) -> (r: Option<Axis>)
    ensures
        r == own_conflict(*c),
{
    if !range_wf(&c.x) {
        Some(Axis::X)
    } else if !range_wf(&c.y) {
        Some(Axis::Y)
    } else if floor(&c.w) > cap(&c.w) {
        Some(Axis::Width)
    } else if floor(&c.h) > cap(&c.h) {
        Some(Axis::Height)
    } else {
        None
    }
}

fn find_child_conflict(c: &DimensionConstraintData, d: &SolvedDimensions) -> (r: Option<Axis>)
    ensures
        r == child_conflict(*c, *d),
{
    let x = anchor(&c.x);
    let y = anchor(&c.y);
    if d.x < x {
        Some(Axis::X)
    } else if d.y < y {
        Some(Axis::Y)
    } else if d.x as i128 + d.w as i128 - x as i128 > cap(&c.w) as i128 {
        Some(Axis::Width)
    } else if d.y as i128 + d.h as i128 - y as i128 > cap(&c.h) as i128 {
        Some(Axis::Height)
    } else {
        None
    }
}

/// The constraints that `node` carries.
pub fn constraints(node: &DiagramNode) -> (c: DimensionConstraintData)
    requires
        node.wf(),
    ensures
        c == constraint_of(node@),
{
    proof {
        if node@.data.contains_key(ComponentKind::Constraint) {
            node.lemma_kinds_match(ComponentKind::Constraint);
        }
    }
    match node.get::<DimensionConstraintData>() {
        Some(c) => *c,
        None => DimensionConstraintData::default(),
    }
}

/// Resolves one node from what `table` says of its children.
pub fn fit_node(node: &DiagramNode, table: &Vec<Resolution>) -> (r: Resolution)
    requires
        node.wf(),
        covers(table@, node@.children),
    ensures
        r == step(node@, table@),
{
    let c = constraints(node);
    let kids = node.children();
    let mut j: usize = 0;
    while j < kids.len()
        invariant
            j <= kids.len(),
            kids@ == node@.children,
            covers(table@, kids@),
            forall|i: int| 0 <= i < j ==> !(table@[(#[trigger] kids@[i]).0 as int] is Cyclic),
        decreases kids.len() - j,
    {
        match table[kids[j].0] {
            Resolution::Cyclic => {
                return Resolution::Cyclic;
            },
            _ => {},
        }
        j = j + 1;
    }
    assert(!any_cyclic(table@, kids@));
    if let Some(axis) = find_own_conflict(&c) {
        return Resolution::Unsatisfiable { axis, against: None };
    }
    let x = anchor(&c.x);
    let y = anchor(&c.y);
    let mut w = floor(&c.w);
    let mut h = floor(&c.h);
    match node.ty() {
        NodeType::Box => {},
        _ => {
            return Resolution::Solved(SolvedDimensions { x, y, w, h });
        },
    }
    let mut j: usize = 0;
    assert(kids@.skip(0) =~= kids@);
    while j < kids.len()
        invariant
            j <= kids.len(),
            kids@ == node@.children,
            covers(table@, kids@),
            c == constraint_of(node@),
            node@.ty == NodeType::Box,
            !any_cyclic(table@, kids@),
            own_conflict(c) is None,
            x == anchor_of(c.x),
            y == anchor_of(c.y),
            0 <= w <= cap_of(c.w),
            0 <= h <= cap_of(c.h),
            first_conflict(c, table@, kids@) == first_conflict(c, table@, kids@.skip(j as int)),
            grow_w(x as int, table@, kids@, floor_of(c.w)) == grow_w(
                x as int,
                table@,
                kids@.skip(j as int),
                w as int,
            ),
            grow_h(y as int, table@, kids@, floor_of(c.h)) == grow_h(
                y as int,
                table@,
                kids@.skip(j as int),
                h as int,
            ),
        decreases kids.len() - j,
    {
        let k = kids[j];
        proof {
            assert(kids@.skip(j as int)[0] == k);
            assert(kids@.skip(j as int).drop_first() =~= kids@.skip(j + 1));
        }
        match table[k.0] {
            Resolution::Solved(d) => {
                if let Some(axis) = find_child_conflict(&c, &d) {
                    assert(kid_conflict(c, table@, k) == Some(axis));
                    assert(first_conflict(c, table@, kids@.skip(j as int)) == Some((k, axis)));
                    return Resolution::Unsatisfiable { axis, against: Some(k) };
                }
                let reach_w = d.x as i128 + d.w as i128 - x as i128;
                if reach_w > w as i128 {
                    w = reach_w as i64;
                }
                let reach_h = d.y as i128 + d.h as i128 - y as i128;
                if reach_h > h as i128 {
                    h = reach_h as i64;
                }
            },
            _ => {},
        }
        j = j + 1;
    }
    Resolution::Solved(SolvedDimensions { x, y, w, h })
}

/// One round of resolution: every node resolved from what `table` says
/// of its children.
pub open spec fn advance(g: Seq<NodeView>, table: Seq<Resolution>) -> Seq<Resolution> {
    Seq::new(g.len(), |i: int| step(g[i], table))
}

/// The table after `k` rounds, starting from one that takes every node for
/// cyclic. After `k` rounds a node is cyclic exactly when `k` child links
/// can be followed from it.
pub open spec fn round(g: Seq<NodeView>, k: nat) -> Seq<Resolution>
    decreases k,
{
    if k == 0 {
        Seq::new(g.len(), |i: int| Resolution::Cyclic)
    } else {
        advance(g, round(g, (k - 1) as nat))
    }
}

/// What every node resolves to from its own constraints and its children:
/// the table after as many rounds as there are nodes.
pub open spec fn fitted(g: Seq<NodeView>) -> Seq<Resolution> {
    round(g, g.len())
}

/// The axis on which the box `p`, having failed over its children, cannot
/// hold its solved child `k`.
pub open spec fn rejects(g: Seq<NodeView>, table: Seq<Resolution>, p: int, k: NodeIdx) -> Option<
    Axis,
> {
    if g[p].children.contains(k) && (table[p] matches Resolution::Unsatisfiable {
        against: Some(_),
        ..
    }) {
        kid_conflict(constraint_of(g[p]), table, k)
    } else {
        None
    }
}

/// The first node before `upto`, in order of identity, that rejects `k`,
/// and the axis on which it does.
pub open spec fn first_rejection(g: Seq<NodeView>, table: Seq<Resolution>, k: NodeIdx, upto: int)
    -> Option<(NodeIdx, Axis)>
    decreases upto,
{
    if upto <= 0 {
        None
    } else {
        match first_rejection(g, table, k, upto - 1) {
            Some(r) => Some(r),
            None => match rejects(g, table, upto - 1, k) {
                Some(axis) => Some((NodeIdx((upto - 1) as usize), axis)),
                None => None,
            },
        }
    }
}

/// The final word on node `k`: what it resolved to, unless it is solved
/// and a box rejects it.
pub open spec fn settle(g: Seq<NodeView>, table: Seq<Resolution>, k: int) -> Resolution {
    match table[k] {
        Resolution::Solved(d) => match first_rejection(g, table, NodeIdx(k as usize), g.len() as int) {
            Some((p, axis)) => Resolution::Unsatisfiable { axis, against: Some(p) },
            None => Resolution::Solved(d),
        },
        other => other,
    }
}

/// The layout of a graph: for every node, in order of identity, its place
/// and size or the reason why it has none.
pub open spec fn layout(g: Seq<NodeView>) -> Seq<Resolution> {
    Seq::new(g.len(), |k: int| settle(g, fitted(g), k))
}

/// A node after the solver has recorded `r` in it: solved dimensions are
/// attached to a solved node and detached from any other.
pub open spec fn placed(n: NodeView, r: Resolution) -> NodeView {
    NodeView {
        data: match r {
            Resolution::Solved(d) => n.data.insert(ComponentKind::Solved, Component::Solved(d)),
            _ => n.data.remove(ComponentKind::Solved),
        },
        ..n
    }
}

/// A graph after the solver has recorded `report` in it.
pub open spec fn apply_layout(g: Seq<NodeView>, report: Seq<Resolution>) -> Seq<NodeView> {
    Seq::new(g.len(), |i: int| placed(g[i], report[i]))
}

/// In a well-formed graph a table with an entry for every node covers the
/// children of every node.
pub proof fn lemma_covers(g: Seq<NodeView>, table: Seq<Resolution>, i: int)
    requires
        graph_wf(g),
        table.len() == g.len(),
        0 <= i < g.len(),
    ensures
        covers(table, g[i].children),
{
    assert forall|j: int| 0 <= j < g[i].children.len() implies (#[trigger] g[i].children[j]).0
        < table.len() by {
        assert(g[i].children.contains(g[i].children[j]));
    }
}

/// Once a round changes nothing, no later round does.
pub proof fn lemma_fixpoint(g: Seq<NodeView>, k: nat, m: nat)
    requires
        round(g, k + 1) == round(g, k),
        k <= m,
    ensures
        round(g, m) == round(g, k),
    decreases m,
{
    if m > k {
        lemma_fixpoint(g, k, (m - 1) as nat);
    }
}

fn next_round(diagram: &Diagram, table: &Vec<Resolution>) -> (next: Vec<Resolution>)
    requires
        diagram.wf(),
        table@.len() == diagram@.len(),
    ensures
        next@ == advance(diagram@, table@),
{
    let nodes = diagram.iter();
    let mut next: Vec<Resolution> = Vec::new();
    let mut i: usize = 0;
    while i < nodes.len()
        invariant
            diagram.wf(),
            table@.len() == diagram@.len(),
            nodes@.len() == diagram@.len(),
            forall|k: int|
                0 <= k < nodes@.len() ==> (#[trigger] nodes@[k])@ == diagram@[k] && nodes@[k].wf(),
            i <= nodes@.len(),
            next@.len() == i,
            forall|k: int| 0 <= k < i ==> next@[k] == step(diagram@[k], table@),
        decreases nodes.len() - i,
    {
        proof {
            diagram.lemma_wf_graph();
            lemma_covers(diagram@, table@, i as int);
        }
        let r = fit_node(nodes[i], table);
        next.push(r);
        i = i + 1;
    }
    assert(next@ =~= advance(diagram@, table@));
    next
}

fn same_table(a: &Vec<Resolution>, b: &Vec<Resolution>) -> (same: bool)
    requires
        a@.len() == b@.len(),
    ensures
        same == (a@ == b@),
{
    let mut i: usize = 0;
    while i < a.len()
        invariant
            a@.len() == b@.len(),
            i <= a@.len(),
            forall|k: int| 0 <= k < i ==> a@[k] == b@[k],
        decreases a.len() - i,
    {
        if a[i] != b[i] {
            return false;
        }
        i = i + 1;
    }
    assert(a@ =~= b@);
    true
}

/// Resolves every node from its own constraints and its children. The
/// rounds end as soon as one changes nothing, and after as many rounds as
/// there are nodes at the latest.
pub fn fit(diagram: &Diagram) -> (table: Vec<Resolution>)
    requires
        diagram.wf(),
    ensures
        table@ == fitted(diagram@),
{
    let n = diagram.len();
    let mut table: Vec<Resolution> = Vec::new();
    let mut i: usize = 0;
    while i < n
        invariant
            i <= n,
            table@.len() == i,
            forall|k: int| 0 <= k < i ==> table@[k] == Resolution::Cyclic,
        decreases n - i,
    {
        table.push(Resolution::Cyclic);
        i = i + 1;
    }
    assert(table@ =~= round(diagram@, 0));
    let mut k: usize = 0;
    while k < n
        invariant
            diagram.wf(),
            n == diagram@.len(),
            k <= n,
            table@ == round(diagram@, k as nat),
        decreases n - k,
    {
        let next = next_round(diagram, &table);
        if same_table(&next, &table) {
            proof {
                lemma_fixpoint(diagram@, k as nat, n as nat);
            }
            return table;
        }
        table = next;
        k = k + 1;
    }
    table
}

/// What is known of the rejection of `k` once the parents before `p` are
/// done and the first `j` children of `p` have been looked at.
pub open spec fn rejection_so_far(
    g: Seq<NodeView>,
    table: Seq<Resolution>,
    k: NodeIdx,
    p: int,
    j: int,
) -> Option<(NodeIdx, Axis)> {
    match first_rejection(g, table, k, p) {
        Some(r) => Some(r),
        None => match rejects(g, table, p, k) {
            Some(axis) => if g[p].children.take(j).contains(k) {
                Some((NodeIdx(p as usize), axis))
            } else {
                None
            },
            None => None,
        },
    }
}

fn failed_over_child(r: &Resolution) -> (b: bool)
    ensures
        b == (*r matches Resolution::Unsatisfiable { against: Some(_), .. }),
{
    match r {
        Resolution::Unsatisfiable { against: Some(_), .. } => true,
        _ => false,
    }
}

/// For every node the first box that rejects it, if any does.
pub fn find_rejections(diagram: &Diagram, table: &Vec<Resolution>) -> (rej: Vec<
    Option<(NodeIdx, Axis)>,
>)
    requires
        diagram.wf(),
        table@.len() == diagram@.len(),
    ensures
        rej@.len() == diagram@.len(),
        forall|k: int|
            0 <= k < rej@.len() ==> #[trigger] rej@[k] == first_rejection(
                diagram@,
                table@,
                NodeIdx(k as usize),
                diagram@.len() as int,
            ),
{
    let nodes = diagram.iter();
    let n = nodes.len();
    let mut rej: Vec<Option<(NodeIdx, Axis)>> = Vec::new();
    let mut i: usize = 0;
    while i < n
        invariant
            i <= n,
            rej@.len() == i,
            forall|k: int| 0 <= k < i ==> #[trigger] rej@[k] == None::<(NodeIdx, Axis)>,
        decreases n - i,
    {
        rej.push(None);
        i = i + 1;
    }
    let mut p: usize = 0;
    while p < n
        invariant
            diagram.wf(),
            table@.len() == diagram@.len(),
            n == diagram@.len(),
            nodes@.len() == n,
            forall|k: int|
                0 <= k < nodes@.len() ==> (#[trigger] nodes@[k])@ == diagram@[k] && nodes@[k].wf(),
            p <= n,
            rej@.len() == n,
            forall|k: int|
                0 <= k < n ==> #[trigger] rej@[k] == first_rejection(
                    diagram@,
                    table@,
                    NodeIdx(k as usize),
                    p as int,
                ),
        decreases n - p,
    {
        let node = nodes[p];
        let kids = node.children();
        proof {
            diagram.lemma_wf_graph();
            lemma_covers(diagram@, table@, p as int);
            assert(kids@.take(0) =~= Seq::<NodeIdx>::empty());
        }
        if failed_over_child(&table[p]) {
            let c = constraints(node);
            let mut j: usize = 0;
            while j < kids.len()
                invariant
                    table@.len() == diagram@.len(),
                    n == diagram@.len(),
                    p < n,
                    rej@.len() == n,
                    j <= kids.len(),
                    kids@ == diagram@[p as int].children,
                    covers(table@, kids@),
                    c == constraint_of(diagram@[p as int]),
                    table@[p as int] matches Resolution::Unsatisfiable { against: Some(_), .. },
                    forall|k: int|
                        0 <= k < n ==> #[trigger] rej@[k] == rejection_so_far(
                            diagram@,
                            table@,
                            NodeIdx(k as usize),
                            p as int,
                            j as int,
                        ),
                decreases kids.len() - j,
            {
                let kid = kids[j];
                let ghost before = rej@;
                proof {
                    assert(kids@.take(j + 1) =~= kids@.take(j as int).push(kid));
                    assert(kids@.contains(kid));
                    assert(kids@.take(j + 1).contains(kid)) by {
                        assert(kids@.take(j + 1)[j as int] == kid);
                    }
                }
                if rej[kid.0].is_none() {
                    match table[kid.0] {
                        Resolution::Solved(d) => {
                            if let Some(axis) = find_child_conflict(&c, &d) {
                                rej.set(kid.0, Some((NodeIdx(p), axis)));
                            }
                        },
                        _ => {},
                    }
                }
                proof {
                    assert forall|k: int| 0 <= k < n implies #[trigger] rej@[k]
                        == rejection_so_far(
                        diagram@,
                        table@,
                        NodeIdx(k as usize),
                        p as int,
                        j + 1,
                    ) by {
                        let kk = NodeIdx(k as usize);
                        assert(before[k] == rejection_so_far(
                            diagram@,
                            table@,
                            kk,
                            p as int,
                            j as int,
                        ));
                        let s0 = kids@.take(j as int);
                        let s1 = kids@.take(j + 1);
                        if kk != kid {
                            assert(rej@[k] == before[k]);
                            if s1.contains(kk) {
                                let q = choose|q: int| 0 <= q < s1.len() && s1[q] == kk;
                                assert(q < j);
                                assert(s0[q] == kk);
                            }
                            if s0.contains(kk) {
                                let q = choose|q: int| 0 <= q < s0.len() && s0[q] == kk;
                                assert(s1[q] == kk);
                            }
                        }
                    }
                }
                j = j + 1;
            }
            proof {
                assert(kids@.take(kids@.len() as int) =~= kids@);
            }
        }
        p = p + 1;
    }
    rej
}

/// Lays the diagram out. Every node that has a place and size gets them
/// attached as solved dimensions; from every other node solved dimensions
/// are detached. The report says of every node, in order of identity,
/// which of the two happened and why.
pub fn solve(diagram: &mut Diagram) -> (report: Vec<Resolution>)
    requires
        old(diagram).wf(),
    ensures
        final(diagram).wf(),
        report@ == layout(old(diagram)@),
        final(diagram)@ == apply_layout(old(diagram)@, report@),
{
    let table = fit(diagram);
    let rej = find_rejections(diagram, &table);
    let n = diagram.len();
    let mut report: Vec<Resolution> = Vec::new();
    let mut i: usize = 0;
    while i < n
        invariant
            *diagram == *old(diagram),
            n == diagram@.len(),
            table@ == fitted(diagram@),
            rej@.len() == n,
            forall|k: int|
                0 <= k < n ==> #[trigger] rej@[k] == first_rejection(
                    diagram@,
                    table@,
                    NodeIdx(k as usize),
                    n as int,
                ),
            i <= n,
            report@.len() == i,
            forall|k: int| 0 <= k < i ==> report@[k] == settle(diagram@, table@, k),
        decreases n - i,
    {
        let r = match table[i] {
            Resolution::Solved(d) => match rej[i] {
                Some((p, axis)) => Resolution::Unsatisfiable { axis, against: Some(p) },
                None => Resolution::Solved(d),
            },
            other => other,
        };
        report.push(r);
        i = i + 1;
    }
    assert(report@ =~= layout(diagram@));
    let mut i: usize = 0;
    while i < n
        invariant
            diagram.wf(),
            n == diagram@.len(),
            n == old(diagram)@.len(),
            report@.len() == n,
            i <= n,
            forall|k: int| 0 <= k < i ==> diagram@[k] == placed(old(diagram)@[k], report@[k]),
            forall|k: int| i <= k < n ==> diagram@[k] == old(diagram)@[k],
        decreases n - i,
    {
        let r = report[i];
        match diagram.get_mut(NodeIdx(i)) {
            Some(node) => {
                match r {
                    Resolution::Solved(d) => {
                        node.insert(d);
                    },
                    _ => {
                        node.remove::<SolvedDimensions>();
                    },
                }
            },
            None => {},
        }
        i = i + 1;
    }
    assert(diagram@ =~= apply_layout(old(diagram)@, report@));
    report
}

} // verus!
