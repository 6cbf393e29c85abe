//! Data attached to nodes: how a box is drawn, what a text says, how a node
//! may be placed, and where it ended up.

use vstd::prelude::*;

verus! {

/// An RGBA colour, eight bits per channel.
#[derive(Debug, Clone, Copy, PartialEq, Eq, Structural)]
pub struct Color {
    pub r: u8,
    pub g: u8,
    pub b: u8,
    pub a: u8,
}

/// A solid line of a given width and colour.
#[derive(Debug, Clone, Copy, PartialEq, Eq, Structural)]
pub struct Stroke {
    pub width: u8,
    pub color: Color,
}

/// A solid fill.
#[derive(Debug, Clone, Copy, PartialEq, Eq, Structural)]
pub struct Fill {
    pub color: Color,
}

/// How a box is drawn.
#[derive(Debug, Clone, Copy, PartialEq, Eq, Structural)]
pub struct BoxData {
    pub stroke: Stroke,
    pub fill: Stroke,
}

/// The content of a text node.
#[derive(Debug)]
pub struct TextData {
    pub text: String,
}

impl Clone for TextData {
    fn clone(&self) -> (r: TextData)
        ensures
            r.text@ == self.text@,
    {
        TextData { text: self.text.clone() }
    }
}

/// An inclusive range on one axis; a missing bound leaves that side open.
#[derive(Debug, Clone, Copy, PartialEq, Eq, Structural)]
pub struct ConstraintRange {
    pub min: Option<i64>,
    pub max: Option<i64>,
}

impl ConstraintRange {
    /// The bounds do not cross: when both are present, `min <= max`.
    pub open spec fn wf(self) -> bool {
        self.min is Some && self.max is Some ==> self.min->0 <= self.max->0
    }

    /// `v` lies within the range.
    pub open spec fn admits(self, v: int) -> bool {
        &&& self.min is Some ==> self.min->0 <= v
        &&& self.max is Some ==> v <= self.max->0
    }

    /// A range from its bounds; `None` when they cross.
    pub fn new(min: Option<i64>, max: Option<i64>) -> (r: Option<ConstraintRange>)
        ensures
            r is Some <==> (ConstraintRange { min, max }).wf(),
            r is Some ==> r->0 == (ConstraintRange { min, max }),
    {
        match (min, max) {
            (Some(lo), Some(hi)) => {
                if lo <= hi {
                    Some(ConstraintRange { min, max })
                } else {
                    None
                }
            },
            _ => Some(ConstraintRange { min, max }),
        }
    }

    /// The range that admits `v` and nothing else.
    pub fn exactly(v: i64) -> (r: ConstraintRange)
        ensures
            r == (ConstraintRange { min: Some(v), max: Some(v) }),
            r.wf(),
    {
        ConstraintRange { min: Some(v), max: Some(v) }
    }
}

impl Default for ConstraintRange {
    fn default() -> (r: ConstraintRange)
        ensures
            r == (ConstraintRange { min: None, max: None }),
    {
        ConstraintRange { min: None, max: None }
    }
}

/// The ranges within which a node may be placed and sized.
#[derive(Debug, Clone, Copy, PartialEq, Eq, Structural)]
pub struct DimensionConstraintData {
    pub x: ConstraintRange,
    pub y: ConstraintRange,
    pub w: ConstraintRange,
    pub h: ConstraintRange,
}

impl DimensionConstraintData {
    /// No bound on any axis.
    pub open spec fn unconstrained() -> DimensionConstraintData {
        let open = ConstraintRange { min: None, max: None };
        DimensionConstraintData { x: open, y: open, w: open, h: open }
    }

    /// No range has crossed bounds.
    pub open spec fn wf(self) -> bool {
        self.x.wf() && self.y.wf() && self.w.wf() && self.h.wf()
    }
}

impl Default for DimensionConstraintData {
    fn default() -> (r: DimensionConstraintData)
        ensures
            r == DimensionConstraintData::unconstrained(),
    {
        let open = ConstraintRange { min: None, max: None };
        DimensionConstraintData { x: open, y: open, w: open, h: open }
    }
}

/// The place and size that the solver gave a node.
#[derive(Debug, Clone, Copy, PartialEq, Eq, Structural)]
pub struct SolvedDimensions {
    pub x: i64,
    pub y: i64,
    pub w: i64,
    pub h: i64,
}

impl Default for SolvedDimensions {
    fn default() -> (r: SolvedDimensions)
        ensures
            r == (SolvedDimensions { x: 0, y: 0, w: 0, h: 0 }),
    {
        SolvedDimensions { x: 0, y: 0, w: 0, h: 0 }
    }
}

} // verus!
