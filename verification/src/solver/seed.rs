//! Seeds the constraints of text nodes with the measured size of their
//! text.

use vstd::prelude::*;
use crate::errors::DiagError;
use crate::model::bag::{Component, ComponentKind};
use crate::model::visual::{ConstraintRange, DimensionConstraintData, TextData};
use crate::model::{Diagram, DiagramNode, NodeIdx, NodeType, NodeView};
use super::fontmetrics::MetricsCalculator;
use super::layout::{constraint_of, constraints};

verus! {

/// The range fixed to the measure `m`, unless the range that is there
/// already rules `m` out: then that range stands.
pub open spec fn fixed_to(r: ConstraintRange, m: i64) -> ConstraintRange {
    if r.admits(m as int) {
        ConstraintRange { min: Some(m), max: Some(m) }
    } else {
        r
    }
}

/// The constraints `c` with width and height fixed to the measured size.
pub open spec fn seeded(c: DimensionConstraintData, width: i64, height: i64)
    -> DimensionConstraintData {
    DimensionConstraintData { w: fixed_to(c.w, width), h: fixed_to(c.h, height), ..c }
}

/// The node is a text node that carries a text.
pub open spec fn wants_measure(n: NodeView) -> bool {
    n.ty == NodeType::Text && n.data.contains_key(ComponentKind::Text)
}

/// The text that a node carries; no text where it carries none.
pub open spec fn text_of(n: NodeView) -> Seq<char> {
    if n.data.contains_key(ComponentKind::Text) {
        match n.data[ComponentKind::Text] {
            Component::Text(t) => t.text@,
            _ => Seq::empty(),
        }
    } else {
        Seq::empty()
    }
}

/// The node `n` with its constraints seeded with the measured size.
pub open spec fn measured(n: NodeView, width: i64, height: i64) -> NodeView {
    NodeView {
        data: n.data.insert(
            ComponentKind::Constraint,
            Component::Constraint(seeded(constraint_of(n), width, height)),
        ),
        ..n
    }
}

fn fix_to(r: ConstraintRange, m: i64) -> (out: ConstraintRange)
    ensures
        out == fixed_to(r, m),
{
    let above = match r.min {
        Some(lo) => lo <= m,
        None => true,
    };
    let below = match r.max {
        Some(hi) => m <= hi,
        None => true,
    };
    if above && below {
        ConstraintRange { min: Some(m), max: Some(m) }
    } else {
        r
    }
}

/// Fixes width and height of `c` to a measured size, on each axis unless
/// `c` rules the measure out.
pub fn seed_constraint(c: DimensionConstraintData, width: i64, height: i64) -> (out:
    DimensionConstraintData)
    ensures
        out == seeded(c, width, height),
        c.wf() ==> out.wf(),
{
    DimensionConstraintData { x: c.x, y: c.y, w: fix_to(c.w, width), h: fix_to(c.h, height) }
}

/// The measured size, where both measurements succeeded and the height
/// fits.
pub open spec fn measured_size(width: Result<i64, DiagError>, height: Result<u64, DiagError>)
    -> Option<(i64, i64)> {
    if width is Ok && height is Ok && height->Ok_0 <= i64::MAX {
        Some((width->Ok_0, height->Ok_0 as i64))
    } else {
        None
    }
}

/// Records in `node` what measuring its text gave. Where a measurement
/// failed the node is left as it is and `false` is returned.
pub fn apply_measure(
    node: &mut DiagramNode,
    width: Result<i64, DiagError>,
    height: Result<u64, DiagError>,
) -> (ok: bool)
    requires
        old(node).wf(),
    ensures
        final(node).wf(),
        final(node)@.keeps_identity(old(node)@),
        ok <==> measured_size(width, height) is Some,
        ok ==> ({
            let size = measured_size(width, height)->0;
            final(node)@ == measured(old(node)@, size.0, size.1)
        }),
        !ok ==> final(node)@ == old(node)@,
{
    match (width, height) {
        (Ok(w), Ok(h)) => {
            if h > i64::MAX as u64 {
                return false;
            }
            let c = constraints(node);
            node.insert(seed_constraint(c, w, h as i64));
            true
        },
        _ => false,
    }
}

/// What `measure_texts` does to one node. A node that is no text node or
/// carries no text is left as it is. A text node with an empty text is
/// never reported: it is seeded with no extent. Any other text node is
/// either reported and left as it is, or its constraints are seeded with
/// the width and the height that were measured.
pub open spec fn measure_outcome(before: NodeView, after: NodeView, reported: bool) -> bool {
    if !wants_measure(before) {
        after == before && !reported
    } else if text_of(before).len() == 0 {
        after == measured(before, 0, 0) && !reported
    } else if reported {
        after == before
    } else {
        exists|w: i64, h: i64| 0 <= h && after == #[trigger] measured(before, w, h)
    }
}

/// Measures the text of every text node and seeds the node's constraints
/// with the result. A node whose text could not be measured is left as it
/// is and reported; the others are not held up by it. An empty text always
/// measures, as no extent.
pub fn measure_texts(diagram: &mut Diagram, mc: &MetricsCalculator) -> (failed: Vec<NodeIdx>)
    requires
        old(diagram).wf(),
    ensures
        final(diagram).wf(),
        final(diagram)@.len() == old(diagram)@.len(),
        forall|i: int|
            0 <= i < old(diagram)@.len() ==> measure_outcome(
                old(diagram)@[i],
                #[trigger] final(diagram)@[i],
                failed@.contains(NodeIdx(i as usize)),
            ),
        forall|a: int, b: int| 0 <= a < b < failed@.len() ==> failed@[a].0 < failed@[b].0,
{
    let n = diagram.len();
    let mut failed: Vec<NodeIdx> = Vec::new();
    let mut i: usize = 0;
    while i < n
        invariant
            diagram.wf(),
            n == diagram@.len(),
            n == old(diagram)@.len(),
            i <= n,
            forall|k: int|
                0 <= k < i ==> measure_outcome(
                    old(diagram)@[k],
                    #[trigger] diagram@[k],
                    failed@.contains(NodeIdx(k as usize)),
                ),
            forall|k: int| i <= k < n ==> diagram@[k] == old(diagram)@[k],
            forall|a: int| 0 <= a < failed@.len() ==> (#[trigger] failed@[a]).0 < i,
            forall|a: int, b: int| 0 <= a < b < failed@.len() ==> failed@[a].0 < failed@[b].0,
        decreases n - i,
    {
        let ghost before_failed = failed@;
        let ghost len = text_of(diagram@[i as int]).len();
        let mut sizes: Option<(Result<i64, DiagError>, Result<u64, DiagError>)> = None;
        match diagram.get(NodeIdx(i)) {
            Some(node) => {
                if node.ty() == NodeType::Text {
                    match node.get::<TextData>() {
                        Some(t) => {
                            proof {
                                node.lemma_kinds_match(ComponentKind::Text);
                            }
                            let width = mc.compute_width(t.text.as_str());
                            let height = mc.compute_height(t.text.as_str());
                            sizes = Some((width, height));
                        },
                        None => {},
                    }
                }
            },
            None => {},
        }
        assert(sizes is Some <==> wants_measure(diagram@[i as int]));
        assert(sizes matches Some((width, height)) ==> {
            &&& len == 0 ==> width is Ok && width->Ok_0 == 0 && height is Ok && height->Ok_0 == 0
            &&& height matches Ok(h) ==> h <= i64::MAX
        });
        match sizes {
            Some((width, height)) => {
                let ok = match diagram.get_mut(NodeIdx(i)) {
                    Some(node) => apply_measure(node, width, height),
                    None => false,
                };
                if !ok {
                    failed.push(NodeIdx(i));
                    assert(failed@.contains(NodeIdx(i))) by {
                        assert(failed@[failed@.len() - 1] == NodeIdx(i));
                    }
                } else {
                    proof {
                        let w = width->Ok_0;
                        let h = height->Ok_0 as i64;
                        assert(diagram@[i as int] == measured(old(diagram)@[i as int], w, h));
                    }
                }
            },
            None => {},
        }
        proof {
            assert forall|k: int| 0 <= k < i + 1 implies measure_outcome(
                old(diagram)@[k],
                #[trigger] diagram@[k],
                failed@.contains(NodeIdx(k as usize)),
            ) by {
                let id = NodeIdx(k as usize);
                if k < i {
                    assert(before_failed.contains(id) == failed@.contains(id)) by {
                        if failed@.contains(id) {
                            let q = choose|q: int| 0 <= q < failed@.len() && failed@[q] == id;
                            if q == before_failed.len() {
                                assert(failed@[q] == NodeIdx(i));
                            } else {
                                assert(before_failed[q] == id);
                            }
                        }
                        if before_failed.contains(id) {
                            let q = choose|q: int|
                                0 <= q < before_failed.len() && before_failed[q] == id;
                            assert(failed@[q] == id);
                        }
                    }
                } else {
                    if !failed@.contains(id) {
                    } else {
                        let q = choose|q: int| 0 <= q < failed@.len() && failed@[q] == id;
                        if q < before_failed.len() {
                            assert(before_failed[q].0 < i);
                        }
                    }
                }
            }
        }
        i = i + 1;
    }
    failed
}

} // verus!
