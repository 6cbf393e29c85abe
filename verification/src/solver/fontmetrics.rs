//! Tools to calculate the size of rendered text.
//!
//! This is used to generate constraints used by the solver to size boxes.

use vstd::prelude::*;
use crate::errors::DiagError;

verus! {

/// A handle to the font engine.
#[verifier::external_type_specification]
#[verifier::external_body]
pub struct ExFtLibrary(freetype::Library);

/// A font face loaded by the font engine.
#[verifier::external_type_specification]
#[verifier::external_body]
#[verifier::reject_recursive_types(BYTES)]
pub struct ExFtFace<BYTES>(freetype::Face<BYTES>);

/// What the font engine reports for one character of a text.
#[derive(Debug, Clone, Copy, PartialEq, Eq, Structural)]
pub struct GlyphMeasure {
    /// Adjustment between the previous character and this one; zero for
    /// the first character.
    pub kerning: i64,
    /// Horizontal distance that the glyph occupies.
    pub advance: i64,
    /// Height of the glyph.
    pub height: i64,
}

/// The width of a run of glyphs: every advance and every kerning
/// adjustment, added up.
pub open spec fn width_of(m: Seq<GlyphMeasure>) -> int
    decreases m.len(),
{
    if m.len() == 0 {
        0
    } else {
        width_of(m.drop_last()) + m.last().kerning + m.last().advance
    }
}

/// The width of every prefix of the run fits in an `i64`.
pub open spec fn widths_fit(m: Seq<GlyphMeasure>) -> bool {
    forall|k: int|
        0 <= k <= m.len() ==> i64::MIN <= #[trigger] width_of(m.take(k)) <= i64::MAX
}

/// The height of a run of glyphs: that of its tallest glyph, and zero for
/// an empty run or one without a glyph of positive height.
pub open spec fn height_of(m: Seq<GlyphMeasure>) -> int
    decreases m.len(),
{
    if m.len() == 0 {
        0
    } else if m.last().height > height_of(m.drop_last()) {
        m.last().height as int
    } else {
        height_of(m.drop_last())
    }
}

/// The name under which a failure to set up is reported.
pub open spec fn component_name() -> Seq<char> {
    "MetricsCalculator"@
}

/// Adds up the width of a measured run. It is an error when the width of
/// some prefix of the run does not fit in an `i64`.
pub fn total_width(m: &Vec<GlyphMeasure>) -> (r: Result<i64, DiagError>)
    ensures
        r is Ok <==> widths_fit(m@),
        r matches Ok(w) ==> w == width_of(m@),
        r matches Err(e) ==> e is UnknownError,
{
    let mut total: i64 = 0;
    let mut i: usize = 0;
    assert(m@.take(0) =~= Seq::<GlyphMeasure>::empty());
    while i < m.len()
        invariant
            i <= m.len(),
            total == width_of(m@.take(i as int)),
            forall|k: int| 0 <= k <= i ==> i64::MIN <= #[trigger] width_of(m@.take(k)) <= i64::MAX,
        decreases m.len() - i,
    {
        let g = m[i];
        let next: i128 = total as i128 + g.kerning as i128 + g.advance as i128;
        proof {
            assert(m@.take(i + 1).drop_last() =~= m@.take(i as int));
            assert(m@.take(i + 1).last() == g);
            assert(next == width_of(m@.take(i + 1)));
        }
        if next < i64::MIN as i128 || next > i64::MAX as i128 {
            return Err(DiagError::UnknownError("text width out of range".to_owned()));
        }
        total = next as i64;
        i = i + 1;
    }
    assert(m@.take(m@.len() as int) =~= m@);
    Ok(total)
}

/// The height of the tallest glyph of a measured run.
pub fn max_height(m: &Vec<GlyphMeasure>) -> (r: u64)
    ensures
        r == height_of(m@),
        r <= i64::MAX,
{
    let mut best: i64 = 0;
    let mut i: usize = 0;
    assert(m@.take(0) =~= Seq::<GlyphMeasure>::empty());
    while i < m.len()
        invariant
            i <= m.len(),
            0 <= best,
            best == height_of(m@.take(i as int)),
        decreases m.len() - i,
    {
        let g = m[i];
        proof {
            assert(m@.take(i + 1).drop_last() =~= m@.take(i as int));
            assert(m@.take(i + 1).last() == g);
        }
        if g.height > best {
            best = g.height;
        }
        i = i + 1;
    }
    assert(m@.take(m@.len() as int) =~= m@);
    best as u64
}

/// The size that texts are measured at, as the engine is asked for it:
/// character width and height in 1/64 of a point (a height of zero stands
/// for the width), and the horizontal and vertical resolution in dots per
/// inch (a vertical resolution of zero stands for the horizontal one).
pub fn measuring_size() -> (r: (isize, isize, u32, u32))
    ensures
        r == (12isize, 0isize, 50u32, 0u32),
{
    (12, 0, 50, 0)
}

/// What is looked up for a text: each of its characters in turn, together
/// with the character before it, if there is one.
pub fn lookups(text: &str) -> (r: Vec<(Option<char>, char)>)
    ensures
        r@.len() == text@.len(),
        forall|i: int|
            0 <= i < r@.len() ==> (#[trigger] r@[i]).1 == text@[i] && r@[i].0 == (if i == 0 {
                None::<char>
            } else {
                Some(text@[i - 1])
            }),
{
    let mut out: Vec<(Option<char>, char)> = Vec::new();
    let mut prev: Option<char> = None;
    for c in it: text.chars()
        invariant
            it.seq() == text@,
            out@.len() == it.index(),
            prev == (if out@.len() == 0 {
                None::<char>
            } else {
                Some(text@[out@.len() - 1])
            }),
            forall|i: int|
                0 <= i < out@.len() ==> (#[trigger] out@[i]).1 == text@[i] && out@[i].0 == (if i
                    == 0 {
                    None::<char>
                } else {
                    Some(text@[i - 1])
                }),
    {
        out.push((prev, c));
        prev = Some(c);
    }
    out
}

/// How a glyph load went, as a result of the library: a failure of the
/// engine is a failure to measure.
pub fn loaded_from(answer: Result<(), freetype::Error>) -> (r: Result<(), DiagError>)
    ensures
        answer is Ok ==> r == Ok::<(), DiagError>(()),
        answer matches Err(e) ==> r == Err::<(), DiagError>(DiagError::FtError(e)),
{
    match answer {
        Ok(()) => Ok(()),
        Err(e) => Err(DiagError::FtError(e)),
    }
}

/// The pair of glyphs whose kerning is to be looked up, given the glyph
/// indexes that the face has for two neighbouring characters. There is
/// none where the face lacks a glyph for either.
pub fn kerning_request(left: Option<u32>, right: Option<u32>) -> (r: Option<(u32, u32)>)
    ensures
        r == (if left is Some && right is Some {
            Some((left->0, right->0))
        } else {
            None::<(u32, u32)>
        }),
{
    match (left, right) {
        (Some(l), Some(r)) => Some((l, r)),
        _ => None,
    }
}

/// The kerning of a glyph, given what the engine answered: zero where
/// nothing was looked up, the adjustment that the engine gave, or a failure
/// to measure where the lookup failed.
pub fn kerning_from(answer: Option<Result<i64, freetype::Error>>) -> (r: Result<i64, DiagError>)
    ensures
        answer is None ==> r == Ok::<i64, DiagError>(0),
        answer matches Some(Ok(k)) ==> r == Ok::<i64, DiagError>(k),
        answer matches Some(Err(e)) ==> r == Err::<i64, DiagError>(DiagError::FtError(e)),
{
    match answer {
        None => Ok(0),
        Some(Ok(k)) => Ok(k),
        Some(Err(e)) => Err(DiagError::FtError(e)),
    }
}

/// Measures text in one font.
pub struct MetricsCalculator {
    ft: freetype::Library,
    face: freetype::Face,
}

/// The font that is measured with unless the caller picks another.
pub fn get_default_font() -> (path: &'static str)
    ensures
        path@ == "/System/Library/Fonts/Times.ttc"@,
{
    "/System/Library/Fonts/Times.ttc"
}

/// `freetype::Face::set_char_size`: asks the engine to scale the face.
/// Nothing is claimed of the outcome.
#[verifier::external_body]
fn ft_set_char_size(
    face: &freetype::Face,
    char_width: isize,
    char_height: isize,
    horz_resolution: u32,
    vert_resolution: u32,
) -> (r: Result<(), freetype::Error>) {
    face.set_char_size(char_width, char_height, horz_resolution, vert_resolution)
}

/// `freetype::Face::load_char` without hinting: loads the glyph of `c` into
/// the face's glyph slot. Nothing is claimed of the outcome.
#[verifier::external_body]
fn ft_load_char(face: &freetype::Face, c: char) -> (r: Result<(), freetype::Error>) {
    face.load_char(c as usize, freetype::face::LoadFlag::NO_HINTING)
}

/// `freetype::Face::get_char_index`: the index of the glyph that the face
/// has for `c`, if it has one. Nothing is claimed of the outcome.
#[verifier::external_body]
fn ft_char_index(face: &freetype::Face, c: char) -> (r: Option<u32>) {
    face.get_char_index(c as usize)
}

/// `freetype::Face::get_kerning` in the default mode: the horizontal
/// adjustment between the glyphs with the indexes `left` and `right`.
/// Nothing is claimed of the outcome.
#[verifier::external_body]
fn ft_kerning(face: &freetype::Face, left: u32, right: u32) -> (r: Result<i64, freetype::Error>) {
    face.get_kerning(left, right, freetype::face::KerningMode::KerningDefault).map(|v| v.x as i64)
}

/// `freetype::GlyphSlot::metrics` of the face's glyph slot: the horizontal
/// advance and the height of the glyph that was loaded last. Nothing is
/// claimed of the values.
#[verifier::external_body]
fn ft_glyph_metrics(face: &freetype::Face) -> (r: (i64, i64)) {
    let m = face.glyph().metrics();
    (m.horiAdvance as i64, m.height as i64)
}

impl MetricsCalculator {
    /// The engine that the calculator keeps alive.
    pub closed spec fn library(&self) -> freetype::Library {
        self.ft
    }

    /// The face that the calculator measures in.
    pub closed spec fn face(&self) -> freetype::Face {
        self.face
    }

    /// The error that reports why the calculator could not be set up.
    pub fn init_error(reason: freetype::Error) -> (e: DiagError)
        ensures
            e matches DiagError::InitError { component, reason: cause } && component@
                == component_name() && cause == reason,
    {
        DiagError::InitError { component: "MetricsCalculator".to_owned(), reason }
    }

    /// The calculator over `face`, given how scaling the face went.
    pub fn from_scaled(
        ft: freetype::Library,
        face: freetype::Face,
        scaled: Result<(), freetype::Error>,
    ) -> (r: Result<MetricsCalculator, DiagError>)
        ensures
            r is Ok <==> scaled is Ok,
            r matches Ok(mc) ==> mc.library() == ft && mc.face() == face,
            r matches Err(e) ==> e matches DiagError::InitError { component, reason }
                && component@ == component_name() && reason == scaled->Err_0,
    {
        match scaled {
            Ok(()) => Ok(MetricsCalculator { ft, face }),
            Err(e) => Err(Self::init_error(e)),
        }
    }

    /// A calculator over a face that the caller has opened with `ft`. The
    /// face is scaled to `measuring_size()`; when the engine refuses, that is
    /// a failure to set up, as `from_scaled` says.
    pub fn new(ft: freetype::Library, face: freetype::Face) -> (r: Result<
        MetricsCalculator,
        DiagError,
    >)
        ensures
            r matches Ok(mc) ==> mc.library() == ft && mc.face() == face,
            r matches Err(e) ==> e matches DiagError::InitError { component, .. } && component@
                == component_name(),
    {
        let (char_width, char_height, horz_resolution, vert_resolution) = measuring_size();
        let scaled = ft_set_char_size(
            &face,
            char_width,
            char_height,
            horz_resolution,
            vert_resolution,
        );
        Self::from_scaled(ft, face, scaled)
    }

    /// Measures every character of `text` in turn, as `lookups` lists them:
    /// the glyph is loaded, its kerning against the glyph of the character
    /// before it is looked up where `kerning_request` names a pair, and its
    /// metrics are read. The first lookup that fails ends the measurement
    /// with the failure that `loaded_from` or `kerning_from` makes of it.
    pub fn measure(&self, text: &str) -> (r: Result<Vec<GlyphMeasure>, DiagError>)
        ensures
            text@.len() == 0 ==> r is Ok,
            r matches Ok(m) ==> m@.len() == text@.len() && (m@.len() > 0 ==> m@[0].kerning == 0),
            r matches Err(e) ==> e is FtError,
    {
        let pairs = lookups(text);
        let mut out: Vec<GlyphMeasure> = Vec::new();
        let mut i: usize = 0;
        while i < pairs.len()
            invariant
                i <= pairs@.len(),
                pairs@.len() == text@.len(),
                pairs@.len() > 0 ==> pairs@[0].0 is None,
                out@.len() == i,
                out@.len() > 0 ==> out@[0].kerning == 0,
            decreases pairs.len() - i,
        {
            let (prev, c) = pairs[i];
            match loaded_from(ft_load_char(&self.face, c)) {
                Ok(()) => {},
                Err(e) => {
                    return Err(e);
                },
            }
            let answer = match prev {
                Some(p) => match kerning_request(
                    ft_char_index(&self.face, p),
                    ft_char_index(&self.face, c),
                ) {
                    Some((left, right)) => Some(ft_kerning(&self.face, left, right)),
                    None => None,
                },
                None => None,
            };
            let kerning = match kerning_from(answer) {
                Ok(k) => k,
                Err(e) => {
                    return Err(e);
                },
            };
            let (advance, height) = ft_glyph_metrics(&self.face);
            out.push(GlyphMeasure { kerning, advance, height });
            i = i + 1;
        }
        Ok(out)
    }

    /// Compute width (in pixels) of the given text, rendered in one line in
    /// the calculator's font: what `total_width` makes of the run of glyphs
    /// that `measure` gives for it.
    pub fn compute_width(&self, text: &str) -> (r: Result<i64, DiagError>)
        ensures
            text@.len() == 0 ==> r is Ok && r->Ok_0 == 0,
            r matches Err(e) ==> e is FtError || e is UnknownError,
    {
        match self.measure(text) {
            Err(e) => Err(e),
            Ok(m) => {
                proof {
                    if m@.len() == 0 {
                        assert forall|k: int| 0 <= k <= m@.len() implies i64::MIN
                            <= #[trigger] width_of(m@.take(k)) <= i64::MAX by {
                            assert(m@.take(k) =~= m@);
                        }
                    }
                }
                total_width(&m)
            },
        }
    }

    /// Compute height (in pixels) of the given text, rendered in one line in
    /// the calculator's font: what `max_height` makes of the run of glyphs
    /// that `measure` gives for it.
    pub fn compute_height(&self, text: &str) -> (r: Result<u64, DiagError>)
        ensures
            text@.len() == 0 ==> r is Ok && r->Ok_0 == 0,
            r matches Ok(h) ==> h <= i64::MAX,
            r matches Err(e) ==> e is FtError,
    {
        match self.measure(text) {
            Err(e) => Err(e),
            Ok(m) => Ok(max_height(&m)),
        }
    }
}

/// A run of one repeated glyph is at least as wide as its advances, less
/// the largest kerning adjustment between each two neighbours.
pub proof fn lemma_repeated_glyph_width(m: Seq<GlyphMeasure>, advance: int, max_kerning: int)
    requires
        m.len() >= 1,
        m[0].kerning == 0,
        forall|i: int| 0 <= i < m.len() ==> (#[trigger] m[i]).advance == advance,
        forall|i: int| 0 <= i < m.len() ==> -max_kerning <= (#[trigger] m[i]).kerning,
    ensures
        width_of(m) >= m.len() * advance - (m.len() - 1) * max_kerning,
    decreases m.len(),
{
    if m.len() == 1 {
        assert(m.drop_last().len() == 0);
        assert(width_of(m.drop_last()) == 0);
    } else {
        let head = m.drop_last();
        lemma_repeated_glyph_width(head, advance, max_kerning);
        assert(m.len() * advance == head.len() * advance + advance) by (nonlinear_arith)
            requires
                m.len() == head.len() + 1,
        ;
        assert((m.len() - 1) * max_kerning == (head.len() - 1) * max_kerning + max_kerning)
            by (nonlinear_arith)
            requires
                m.len() == head.len() + 1,
        ;
    }
}

} // verus!
