//! Turns the solved nodes of a diagram into drawing primitives, and those
//! into an SVG document.

use vstd::prelude::*;
use vstd::string::StringExecFns;
use crate::errors::{DiagError, RenderError};
use crate::model::bag::{Component, ComponentKind};
use crate::model::visual::{BoxData, Color, SolvedDimensions};
use crate::model::{Diagram, DiagramNode, NodeType, NodeView};

verus! {

/// An SVG document.
#[verifier::external_type_specification]
#[verifier::external_body]
pub struct ExSvgDocument(svg::node::element::SVG);

/// An SVG `rect` element.
#[verifier::external_type_specification]
#[verifier::external_body]
pub struct ExSvgRectangle(svg::node::element::Rectangle);

/// The attributes of a `rect` element that hold a whole number, by name.
pub uninterp spec fn rectangle_attributes(r: svg::node::element::Rectangle) -> Map<Seq<char>, int>;

/// The children of a document in the order they were added, each by its
/// whole-number attributes.
pub uninterp spec fn document_children(d: svg::node::element::SVG) -> Seq<Map<Seq<char>, int>>;

/// The attributes of a `rect` element that hold anything but a whole
/// number, by name, each with its text.
pub uninterp spec fn rectangle_texts(r: svg::node::element::Rectangle) -> Map<Seq<char>, Seq<char>>;

/// The children of a document in the order they were added, each by the
/// attributes that hold anything but a whole number.
pub uninterp spec fn document_texts(d: svg::node::element::SVG) -> Seq<Map<Seq<char>, Seq<char>>>;

/// No text attribute at all.
pub open spec fn no_texts() -> Map<Seq<char>, Seq<char>> {
    Map::empty()
}

/// No child at all, by its text attributes.
pub open spec fn no_child_texts() -> Seq<Map<Seq<char>, Seq<char>>> {
    Seq::empty()
}

/// No attribute at all.
pub open spec fn no_attributes() -> Map<Seq<char>, int> {
    Map::empty()
}

/// No child at all.
pub open spec fn no_children() -> Seq<Map<Seq<char>, int>> {
    Seq::empty()
}

/// `svg::Document::new`: a document without children.
#[verifier::external_body]
fn svg_document() -> (d: svg::node::element::SVG)
    ensures
        document_children(d) == no_children(),
        document_texts(d) == no_child_texts(),
{
    svg::node::element::SVG::new()
}

/// `svg::node::element::Rectangle::new`: a `rect` element without
/// attributes.
#[verifier::external_body]
fn svg_rectangle() -> (r: svg::node::element::Rectangle)
    ensures
        rectangle_attributes(r) == no_attributes(),
        rectangle_texts(r) == no_texts(),
{
    svg::node::element::Rectangle::new()
}

/// `svg::node::element::Rectangle::set` with a whole number: the element
/// with the attribute `name` set to `value`, in place of an earlier value
/// of that name, whatever that held.
#[verifier::external_body]
fn svg_set(r: svg::node::element::Rectangle, name: &str, value: i64) -> (out:
    svg::node::element::Rectangle)
    ensures
        rectangle_attributes(out) == rectangle_attributes(r).insert(name@, value as int),
        rectangle_texts(out) == rectangle_texts(r).remove(name@),
{
    r.set(name, value)
}

/// `svg::node::element::Rectangle::set` with a text that starts with `#`
/// and so is no number: the element with the attribute `name` set to
/// `value`, in place of an earlier value of that name, whatever that held.
#[verifier::external_body]
fn svg_set_text(r: svg::node::element::Rectangle, name: &str, value: &str) -> (out:
    svg::node::element::Rectangle)
    requires
        value@.len() > 0,
        value@[0] == '#',
    ensures
        rectangle_texts(out) == rectangle_texts(r).insert(name@, value@),
        rectangle_attributes(out) == rectangle_attributes(r).remove(name@),
{
    r.set(name, value)
}

/// `svg::Document::add`: the document with `r` as its last child.
#[verifier::external_body]
fn svg_add(d: svg::node::element::SVG, r: svg::node::element::Rectangle) -> (out:
    svg::node::element::SVG)
    ensures
        document_children(out) == document_children(d).push(rectangle_attributes(r)),
        document_texts(out) == document_texts(d).push(rectangle_texts(r)),
{
    d.add(r)
}

/// A shape to draw. Coordinates are absolute, with the origin at the top
/// left.
#[derive(Debug, Clone, Copy, PartialEq, Eq, Structural)]
pub enum Primitive {
    /// An axis-aligned rectangle, drawn in `style` where the box has one.
    Rect { x: i64, y: i64, w: i64, h: i64, style: Option<BoxData> },
}

/// The hexadecimal digit for `d`, which is below sixteen.
pub open spec fn hex_digit_of(d: int) -> Seq<char> {
    if d == 0 {
        "0"@
    } else if d == 1 {
        "1"@
    } else if d == 2 {
        "2"@
    } else if d == 3 {
        "3"@
    } else if d == 4 {
        "4"@
    } else if d == 5 {
        "5"@
    } else if d == 6 {
        "6"@
    } else if d == 7 {
        "7"@
    } else if d == 8 {
        "8"@
    } else if d == 9 {
        "9"@
    } else if d == 10 {
        "a"@
    } else if d == 11 {
        "b"@
    } else if d == 12 {
        "c"@
    } else if d == 13 {
        "d"@
    } else if d == 14 {
        "e"@
    } else {
        "f"@
    }
}

/// The two hexadecimal digits of one colour channel.
pub open spec fn channel_text_of(v: u8) -> Seq<char> {
    hex_digit_of(v as int / 16) + hex_digit_of(v as int % 16)
}

/// A colour as SVG takes it: `#`, then red, green, blue and alpha, two
/// hexadecimal digits each.
pub open spec fn color_text_of(c: Color) -> Seq<char> {
    "#"@ + channel_text_of(c.r) + channel_text_of(c.g) + channel_text_of(c.b) + channel_text_of(
        c.a,
    )
}

fn hex_digit(d: u8) -> (r: &'static str)
    requires
        d < 16,
    ensures
        r@ == hex_digit_of(d as int),
{
    match d {
        0 => "0",
        1 => "1",
        2 => "2",
        3 => "3",
        4 => "4",
        5 => "5",
        6 => "6",
        7 => "7",
        8 => "8",
        9 => "9",
        10 => "a",
        11 => "b",
        12 => "c",
        13 => "d",
        14 => "e",
        _ => "f",
    }
}

/// Writes a colour as SVG takes it.
pub fn color_text(c: &Color) -> (s: String)
    ensures
        s@ == color_text_of(*c),
        s@.len() > 0,
        s@[0] == '#',
{
    proof {
        reveal_strlit("#");
    }
    let mut s = "#".to_owned();
    s.append(hex_digit(c.r / 16));
    s.append(hex_digit(c.r % 16));
    assert(s@ =~= "#"@ + channel_text_of(c.r));
    s.append(hex_digit(c.g / 16));
    s.append(hex_digit(c.g % 16));
    assert(s@ =~= "#"@ + channel_text_of(c.r) + channel_text_of(c.g));
    s.append(hex_digit(c.b / 16));
    s.append(hex_digit(c.b % 16));
    assert(s@ =~= "#"@ + channel_text_of(c.r) + channel_text_of(c.g) + channel_text_of(c.b));
    s.append(hex_digit(c.a / 16));
    s.append(hex_digit(c.a % 16));
    assert(s@ =~= color_text_of(*c));
    s
}

impl Primitive {
    /// The whole-number attributes under which the primitive is written to
    /// SVG: its place and size, and the width of its stroke where it has a
    /// style.
    pub open spec fn attributes(self) -> Map<Seq<char>, int> {
        match self {
            Primitive::Rect { x, y, w, h, style } => {
                let geometry = no_attributes().insert("x"@, x as int).insert("y"@, y as int).insert(
                    "width"@,
                    w as int,
                ).insert("height"@, h as int);
                match style {
                    Some(s) => geometry.insert("stroke-width"@, s.stroke.width as int),
                    None => geometry,
                }
            },
        }
    }

    /// The text attributes under which the primitive is written to SVG: the
    /// colours of its stroke and of its fill where it has a style.
    pub open spec fn texts(self) -> Map<Seq<char>, Seq<char>> {
        match self {
            Primitive::Rect { style, .. } => match style {
                Some(s) => no_texts().insert("stroke"@, color_text_of(s.stroke.color)).insert(
                    "fill"@,
                    color_text_of(s.fill.color),
                ),
                None => no_texts(),
            },
        }
    }
}

/// The names of the attributes that are written differ from each other.
proof fn lemma_names_differ()
    ensures
        "stroke"@ != "x"@,
        "stroke"@ != "y"@,
        "stroke"@ != "width"@,
        "stroke"@ != "height"@,
        "stroke"@ != "stroke-width"@,
        "fill"@ != "x"@,
        "fill"@ != "y"@,
        "fill"@ != "width"@,
        "fill"@ != "height"@,
        "fill"@ != "stroke-width"@,
{
    reveal_strlit("x");
    reveal_strlit("y");
    reveal_strlit("width");
    reveal_strlit("height");
    reveal_strlit("stroke");
    reveal_strlit("stroke-width");
    reveal_strlit("fill");
    assert("x"@.len() == 1 && "y"@.len() == 1);
    assert("fill"@.len() == 4);
    assert("width"@.len() == 5);
    assert("stroke"@.len() == 6 && "height"@.len() == 6);
    assert("stroke-width"@.len() == 12);
    assert("stroke"@[0] != "height"@[0]);
}

/// One primitive as an SVG element.
fn write_rect(p: &Primitive) -> (rect: svg::node::element::Rectangle)
    ensures
        rectangle_attributes(rect) == p.attributes(),
        rectangle_texts(rect) == p.texts(),
{
    proof {
        lemma_names_differ();
    }
    match p {
        Primitive::Rect { x, y, w, h, style } => {
            let rect = svg_rectangle();
            let rect = match style {
                Some(s) => {
                    let stroke = color_text(&s.stroke.color);
                    let fill = color_text(&s.fill.color);
                    let rect = svg_set_text(rect, "stroke", stroke.as_str());
                    let rect = svg_set_text(rect, "fill", fill.as_str());
                    assert(rectangle_attributes(rect) =~= no_attributes());
                    rect
                },
                None => rect,
            };
            let ghost texts = rectangle_texts(rect);
            assert(texts == p.texts());
            let rect = svg_set(rect, "x", *x);
            let rect = svg_set(rect, "y", *y);
            let rect = svg_set(rect, "width", *w);
            let rect = svg_set(rect, "height", *h);
            assert(rectangle_texts(rect) =~= texts);
            let rect = match style {
                Some(s) => {
                    let rect = svg_set(rect, "stroke-width", s.stroke.width as i64);
                    assert(rectangle_texts(rect) =~= texts);
                    rect
                },
                None => rect,
            };
            rect
        },
    }
}

/// What rendering a diagram yields: the shapes, and a record of each node
/// that was left out.
#[derive(Debug)]
pub struct Rendering {
    pub primitives: Vec<Primitive>,
    pub warnings: Vec<RenderError>,
}

/// What rendering to SVG yields: the shapes with the style they are drawn
/// in, the document that holds their geometry, and a record of each node
/// that was left out.
#[derive(Debug)]
pub struct Rendered {
    pub primitives: Vec<Primitive>,
    pub document: svg::node::element::SVG,
    pub warnings: Vec<RenderError>,
}

/// The solved dimensions that a node carries.
pub open spec fn solved_of(n: NodeView) -> Option<SolvedDimensions> {
    if n.data.contains_key(ComponentKind::Solved) {
        match n.data[ComponentKind::Solved] {
            Component::Solved(d) => Some(d),
            _ => None,
        }
    } else {
        None
    }
}

/// The style that a node carries.
pub open spec fn style_of(n: NodeView) -> Option<BoxData> {
    if n.data.contains_key(ComponentKind::BoxStyle) {
        match n.data[ComponentKind::BoxStyle] {
            Component::BoxStyle(s) => Some(s),
            _ => None,
        }
    } else {
        None
    }
}

/// The primitives of one node: a rectangle for a box that has solved
/// dimensions, nothing otherwise.
pub open spec fn node_primitives(n: NodeView) -> Seq<Primitive> {
    if n.ty == NodeType::Box && solved_of(n) is Some {
        let d = solved_of(n)->0;
        seq![Primitive::Rect { x: d.x, y: d.y, w: d.w, h: d.h, style: style_of(n) }]
    } else {
        Seq::empty()
    }
}

/// The warnings of one node: one for a box without solved dimensions.
pub open spec fn node_warnings(n: NodeView) -> Seq<RenderError> {
    if n.ty == NodeType::Box && solved_of(n) is None {
        seq![RenderError::Unsolved { node: n.id }]
    } else {
        Seq::empty()
    }
}

/// The primitives of a run of nodes, node after node.
pub open spec fn primitives_of(g: Seq<NodeView>) -> Seq<Primitive>
    decreases g.len(),
{
    if g.len() == 0 {
        Seq::empty()
    } else {
        primitives_of(g.drop_last()) + node_primitives(g.last())
    }
}

/// The warnings of a run of nodes, node after node.
pub open spec fn warnings_of(g: Seq<NodeView>) -> Seq<RenderError>
    decreases g.len(),
{
    if g.len() == 0 {
        Seq::empty()
    } else {
        warnings_of(g.drop_last()) + node_warnings(g.last())
    }
}

/// Rendering is composable: what two runs of nodes yield one after the
/// other is what the joined run yields.
pub proof fn lemma_render_concat(a: Seq<NodeView>, b: Seq<NodeView>)
    ensures
        primitives_of(a + b) == primitives_of(a) + primitives_of(b),
        warnings_of(a + b) == warnings_of(a) + warnings_of(b),
    decreases b.len(),
{
    if b.len() == 0 {
        assert(a + b =~= a);
        assert(primitives_of(a) + primitives_of(b) =~= primitives_of(a));
        assert(warnings_of(a) + warnings_of(b) =~= warnings_of(a));
    } else {
        lemma_render_concat(a, b.drop_last());
        assert((a + b).drop_last() =~= a + b.drop_last());
        assert((a + b).last() == b.last());
        assert(primitives_of(a + b) =~= primitives_of(a) + primitives_of(b));
        assert(warnings_of(a + b) =~= warnings_of(a) + warnings_of(b));
    }
}

/// What one node contributes: its rectangle if it is a solved box, a
/// warning if it is a box that is not solved.
pub fn emit_node(node: &DiagramNode, out: &mut Rendering)
    requires
        node.wf(),
    ensures
        final(out).primitives@ == old(out).primitives@ + node_primitives(node@),
        final(out).warnings@ == old(out).warnings@ + node_warnings(node@),
{
    proof {
        if node@.data.contains_key(ComponentKind::Solved) {
            node.lemma_kinds_match(ComponentKind::Solved);
        }
        if node@.data.contains_key(ComponentKind::BoxStyle) {
            node.lemma_kinds_match(ComponentKind::BoxStyle);
        }
    }
    if node.ty() == NodeType::Box {
        match node.get::<SolvedDimensions>() {
            Some(dims) => {
                let style = match node.get::<BoxData>() {
                    Some(s) => Some(*s),
                    None => None,
                };
                out.primitives.push(
                    Primitive::Rect { x: dims.x, y: dims.y, w: dims.w, h: dims.h, style },
                );
                assert(out.primitives@ =~= old(out).primitives@ + node_primitives(node@));
                assert(out.warnings@ =~= old(out).warnings@ + node_warnings(node@));
            },
            None => {
                out.warnings.push(RenderError::Unsolved { node: node.id() });
                assert(out.primitives@ =~= old(out).primitives@ + node_primitives(node@));
                assert(out.warnings@ =~= old(out).warnings@ + node_warnings(node@));
            },
        }
    } else {
        assert(out.primitives@ =~= old(out).primitives@ + node_primitives(node@));
        assert(out.warnings@ =~= old(out).warnings@ + node_warnings(node@));
    }
}

/// The drawing primitives of a diagram, in ascending order of node
/// identity, and a warning for each box that has no solved dimensions.
pub fn emit(model: &Diagram) -> (out: Rendering)
    requires
        model.wf(),
    ensures
        out.primitives@ == primitives_of(model@),
        out.warnings@ == warnings_of(model@),
{
    let mut out = Rendering { primitives: Vec::new(), warnings: Vec::new() };
    let nodes = model.iter();
    let mut i: usize = 0;
    assert(model@.take(0) =~= Seq::<NodeView>::empty());
    while i < nodes.len()
        invariant
            i <= nodes@.len(),
            nodes@.len() == model@.len(),
            forall|k: int|
                0 <= k < nodes@.len() ==> (#[trigger] nodes@[k])@ == model@[k] && nodes@[k].wf(),
            out.primitives@ == primitives_of(model@.take(i as int)),
            out.warnings@ == warnings_of(model@.take(i as int)),
        decreases nodes.len() - i,
    {
        emit_node(nodes[i], &mut out);
        proof {
            assert(model@.take(i + 1).drop_last() =~= model@.take(i as int));
            assert(model@.take(i + 1).last() == model@[i as int]);
        }
        i = i + 1;
    }
    assert(model@.take(model@.len() as int) =~= model@);
    out
}

/// Writes primitives to an SVG document, one element each, in order: a
/// `rect` with the place and size of each rectangle and, where it has a
/// style, with the colour and width of its stroke and the colour of its
/// fill.
pub fn write_svg(primitives: &Vec<Primitive>) -> (doc: svg::node::element::SVG)
    ensures
        document_children(doc) == primitives@.map_values(|p: Primitive| p.attributes()),
        document_texts(doc) == primitives@.map_values(|p: Primitive| p.texts()),
{
    let mut doc = svg_document();
    let mut i: usize = 0;
    assert(primitives@.take(0).map_values(|p: Primitive| p.attributes()) =~= no_children());
    assert(primitives@.take(0).map_values(|p: Primitive| p.texts()) =~= no_child_texts());
    while i < primitives.len()
        invariant
            i <= primitives.len(),
            document_children(doc) == primitives@.take(i as int).map_values(
                |p: Primitive| p.attributes(),
            ),
            document_texts(doc) == primitives@.take(i as int).map_values(
                |p: Primitive| p.texts(),
            ),
        decreases primitives.len() - i,
    {
        let rect = write_rect(&primitives[i]);
        doc = svg_add(doc, rect);
        assert(primitives@.take(i + 1).map_values(|p: Primitive| p.attributes())
            =~= primitives@.take(i as int).map_values(|p: Primitive| p.attributes()).push(
            primitives@[i as int].attributes(),
        ));
        assert(primitives@.take(i + 1).map_values(|p: Primitive| p.texts()) =~= primitives@.take(
            i as int,
        ).map_values(|p: Primitive| p.texts()).push(primitives@[i as int].texts()));
        i = i + 1;
    }
    assert(primitives@.take(primitives@.len() as int) =~= primitives@);
    doc
}

/// The rectangle of a solved box carries the box's own place, size, stroke
/// and fill.
pub proof fn lemma_rectangle_carries_style(n: NodeView, d: SolvedDimensions, style: BoxData)
    requires
        n.ty == NodeType::Box,
        solved_of(n) == Some(d),
        style_of(n) == Some(style),
    ensures
        node_primitives(n) == seq![
            Primitive::Rect { x: d.x, y: d.y, w: d.w, h: d.h, style: Some(style) },
        ],
        node_warnings(n) == Seq::<RenderError>::empty(),
{
}

/// Renders a diagram: a rectangle for each box that has solved dimensions,
/// in ascending order of node identity, in the stroke and fill of the box
/// where it has a style. The document holds a `rect` for each rectangle,
/// as `write_svg` writes it. A box without solved dimensions is left out
/// and named in the warnings; rendering succeeds all the same.
pub fn render(model: &Diagram) -> (r: Result<Rendered, DiagError>)
    requires
        model.wf(),
    ensures
        r is Ok,
        r->Ok_0.primitives@ == primitives_of(model@),
        document_children(r->Ok_0.document) == primitives_of(model@).map_values(
            |p: Primitive| p.attributes(),
        ),
        document_texts(r->Ok_0.document) == primitives_of(model@).map_values(
            |p: Primitive| p.texts(),
        ),
        r->Ok_0.warnings@ == warnings_of(model@),
{
    let out = emit(model);
    let document = write_svg(&out.primitives);
    Ok(Rendered { primitives: out.primitives, document, warnings: out.warnings })
}

} // verus!
