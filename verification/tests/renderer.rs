use diagtool::errors::RenderError;
use diagtool::model::visual::{BoxData, Color, SolvedDimensions, Stroke};
use diagtool::model::{Diagram, DiagramNode, NodeIdx, NodeType};
use diagtool::renderer::{color_text, emit, render, write_svg, Primitive};

fn build_sample_diagram() -> Diagram {
    let mut diagram = Diagram::new();
    {
        let b1 = DiagramNode::create(&mut diagram, NodeType::Box);
        let b1 = diagram.get_mut(b1).unwrap();
        b1.insert(SolvedDimensions { x: 5, y: 10, w: 100, h: 50 });
    }

    diagram
}

#[test]
fn test_simple_box() {
    let diagram = build_sample_diagram();
    let result = render(&diagram).unwrap();
    let output = result.document.to_string();
    println!("{}", output);
}

#[test]
fn solved_box_renders_as_one_rectangle() {
    let diagram = build_sample_diagram();
    let out = emit(&diagram);
    assert_eq!(out.primitives, vec![Primitive::Rect { x: 5, y: 10, w: 100, h: 50, style: None }]);
    assert!(out.warnings.is_empty());
    let rendered = render(&diagram).unwrap();
    assert!(rendered.warnings.is_empty());
    assert_eq!(
        rendered.document.to_string(),
        "<svg xmlns=\"http://www.w3.org/2000/svg\">\n<rect height=\"50\" width=\"100\" x=\"5\" y=\"10\"/>\n</svg>"
    );
}

#[test]
fn unsolved_box_is_skipped_with_one_warning() {
    let mut diagram = Diagram::new();
    let b = DiagramNode::create(&mut diagram, NodeType::Box);
    let out = emit(&diagram);
    assert!(out.primitives.is_empty());
    assert_eq!(out.warnings, vec![RenderError::Unsolved { node: b }]);
    let rendered = render(&diagram).unwrap();
    assert_eq!(rendered.warnings, vec![RenderError::Unsolved { node: NodeIdx(0) }]);
    assert_eq!(rendered.document.to_string(), "<svg xmlns=\"http://www.w3.org/2000/svg\"/>");
}

#[test]
fn empty_diagram_renders_an_empty_document() {
    let diagram = Diagram::new();
    let out = emit(&diagram);
    assert!(out.primitives.is_empty());
    assert!(out.warnings.is_empty());
    assert_eq!(
        render(&diagram).unwrap().document.to_string(),
        "<svg xmlns=\"http://www.w3.org/2000/svg\"/>"
    );
}

#[test]
fn only_boxes_are_rendered() {
    let mut diagram = Diagram::new();
    for ty in [NodeType::Root, NodeType::Text, NodeType::Connector, NodeType::Line] {
        let id = DiagramNode::create(&mut diagram, ty);
        diagram.get_mut(id).unwrap().insert(SolvedDimensions { x: 1, y: 2, w: 3, h: 4 });
    }
    DiagramNode::create(&mut diagram, NodeType::Text);
    let out = emit(&diagram);
    assert!(out.primitives.is_empty());
    assert!(out.warnings.is_empty());
}

#[test]
fn rendering_follows_ascending_identity() {
    let mut diagram = Diagram::new();
    let a = DiagramNode::create(&mut diagram, NodeType::Box);
    let b = DiagramNode::create(&mut diagram, NodeType::Box);
    let c = DiagramNode::create(&mut diagram, NodeType::Box);
    let d = DiagramNode::create(&mut diagram, NodeType::Box);
    diagram.get_mut(c).unwrap().insert(SolvedDimensions { x: 30, y: 31, w: 32, h: 33 });
    diagram.get_mut(a).unwrap().insert(SolvedDimensions { x: -1, y: -2, w: 3, h: 4 });
    let out = emit(&diagram);
    assert_eq!(
        out.primitives,
        vec![
            Primitive::Rect { x: -1, y: -2, w: 3, h: 4, style: None },
            Primitive::Rect { x: 30, y: 31, w: 32, h: 33, style: None },
        ]
    );
    assert_eq!(
        out.warnings,
        vec![RenderError::Unsolved { node: b }, RenderError::Unsolved { node: d }]
    );
    assert_eq!(
        render(&diagram).unwrap().document.to_string(),
        "<svg xmlns=\"http://www.w3.org/2000/svg\">\n<rect height=\"4\" width=\"3\" x=\"-1\" y=\"-2\"/>\n<rect height=\"33\" width=\"32\" x=\"30\" y=\"31\"/>\n</svg>"
    );
}

#[test]
fn rendering_is_the_concatenation_of_its_parts() {
    let mut whole = Diagram::new();
    let mut first = Diagram::new();
    let a = DiagramNode::create(&mut whole, NodeType::Box);
    whole.get_mut(a).unwrap().insert(SolvedDimensions { x: 1, y: 1, w: 1, h: 1 });
    let a1 = DiagramNode::create(&mut first, NodeType::Box);
    first.get_mut(a1).unwrap().insert(SolvedDimensions { x: 1, y: 1, w: 1, h: 1 });
    let b = DiagramNode::create(&mut whole, NodeType::Box);
    whole.get_mut(b).unwrap().insert(SolvedDimensions { x: 2, y: 2, w: 2, h: 2 });
    let mut joined = emit(&first).primitives;
    joined.push(Primitive::Rect { x: 2, y: 2, w: 2, h: 2, style: None });
    assert_eq!(emit(&whole).primitives, joined);
}

#[test]
fn rectangle_carries_the_style_of_its_box() {
    let style = BoxData {
        stroke: Stroke { width: 2, color: Color { r: 255, g: 0, b: 0, a: 255 } },
        fill: Stroke { width: 0, color: Color { r: 0, g: 0, b: 255, a: 128 } },
    };
    let mut diagram = build_sample_diagram();
    diagram.get_mut(NodeIdx(0)).unwrap().insert(style);
    let out = emit(&diagram);
    assert_eq!(
        out.primitives,
        vec![Primitive::Rect { x: 5, y: 10, w: 100, h: 50, style: Some(style) }]
    );
}

#[test]
fn write_svg_writes_each_primitive_in_order() {
    assert_eq!(write_svg(&vec![]).to_string(), "<svg xmlns=\"http://www.w3.org/2000/svg\"/>");
    let doc = write_svg(&vec![
        Primitive::Rect { x: 0, y: 0, w: i64::MAX, h: 0, style: None },
        Primitive::Rect { x: i64::MIN, y: 7, w: 8, h: 9, style: None },
    ]);
    assert_eq!(
        doc.to_string(),
        "<svg xmlns=\"http://www.w3.org/2000/svg\">\n<rect height=\"0\" width=\"9223372036854775807\" x=\"0\" y=\"0\"/>\n<rect height=\"9\" width=\"8\" x=\"-9223372036854775808\" y=\"7\"/>\n</svg>"
    );
}

#[test]
fn render_hands_back_each_rectangle_with_its_stroke_and_fill() {
    let style = BoxData {
        stroke: Stroke { width: 3, color: Color { r: 10, g: 20, b: 30, a: 255 } },
        fill: Stroke { width: 0, color: Color { r: 200, g: 100, b: 0, a: 64 } },
    };
    let mut diagram = build_sample_diagram();
    diagram.get_mut(NodeIdx(0)).unwrap().insert(style);
    let plain = DiagramNode::create(&mut diagram, NodeType::Box);
    diagram.get_mut(plain).unwrap().insert(SolvedDimensions { x: 1, y: 2, w: 3, h: 4 });
    let unsolved = DiagramNode::create(&mut diagram, NodeType::Box);
    diagram.get_mut(unsolved).unwrap().insert(style);
    let rendered = render(&diagram).unwrap();
    assert_eq!(
        rendered.primitives,
        vec![
            Primitive::Rect { x: 5, y: 10, w: 100, h: 50, style: Some(style) },
            Primitive::Rect { x: 1, y: 2, w: 3, h: 4, style: None },
        ]
    );
    assert_eq!(rendered.warnings, vec![RenderError::Unsolved { node: unsolved }]);
    assert_eq!(
        rendered.document.to_string(),
        "<svg xmlns=\"http://www.w3.org/2000/svg\">\n<rect fill=\"#c8640040\" height=\"50\" stroke=\"#0a141eff\" stroke-width=\"3\" width=\"100\" x=\"5\" y=\"10\"/>\n<rect height=\"4\" width=\"3\" x=\"1\" y=\"2\"/>\n</svg>"
    );
}

#[test]
fn colour_is_written_as_eight_hexadecimal_digits() {
    assert_eq!(color_text(&Color { r: 0, g: 0, b: 0, a: 0 }), "#00000000");
    assert_eq!(color_text(&Color { r: 255, g: 255, b: 255, a: 255 }), "#ffffffff");
    assert_eq!(color_text(&Color { r: 1, g: 35, b: 69, a: 103 }), "#01234567");
    assert_eq!(color_text(&Color { r: 137, g: 171, b: 205, a: 239 }), "#89abcdef");
    assert_eq!(color_text(&Color { r: 16, g: 9, b: 10, a: 160 }), "#10090aa0");
}

#[test]
fn write_svg_writes_stroke_and_fill_of_a_styled_rectangle() {
    let style = BoxData {
        stroke: Stroke { width: 0, color: Color { r: 255, g: 0, b: 0, a: 255 } },
        fill: Stroke { width: 9, color: Color { r: 0, g: 0, b: 255, a: 128 } },
    };
    let doc = write_svg(&vec![
        Primitive::Rect { x: 1, y: 2, w: 3, h: 4, style: Some(style) },
        Primitive::Rect { x: 5, y: 6, w: 7, h: 8, style: None },
        Primitive::Rect { x: 9, y: 9, w: 9, h: 9, style: Some(style) },
    ]);
    assert_eq!(
        doc.to_string(),
        "<svg xmlns=\"http://www.w3.org/2000/svg\">\n<rect fill=\"#0000ff80\" height=\"4\" stroke=\"#ff0000ff\" stroke-width=\"0\" width=\"3\" x=\"1\" y=\"2\"/>\n<rect height=\"8\" width=\"7\" x=\"5\" y=\"6\"/>\n<rect fill=\"#0000ff80\" height=\"9\" stroke=\"#ff0000ff\" stroke-width=\"0\" width=\"9\" x=\"9\" y=\"9\"/>\n</svg>"
    );
}
