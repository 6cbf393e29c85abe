//! What can go wrong outside the graph itself.

use vstd::prelude::*;
use crate::model::NodeIdx;

verus! {

/// An error reported by the font engine.
#[verifier::external_type_specification]
#[verifier::external_body]
pub struct ExFtError(freetype::Error);

/// A failure of one of the diagram's stages.
#[derive(Debug)]
pub enum DiagError {
    /// A component could not be set up.
    InitError { component: String, reason: freetype::Error },
    /// The font engine failed while a text was measured.
    FtError(freetype::Error),
    /// Anything else.
    UnknownError(String),
}

/// Why a node was left out of the rendered output. Rendering goes on
/// without the node.
#[derive(Debug, Clone, Copy, PartialEq, Eq, Structural)]
pub enum RenderError {
    /// The box has no solved dimensions.
    Unsolved { node: NodeIdx },
}

} // verus!
