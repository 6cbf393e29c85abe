use diagtool::model::bag::{Component, ComponentKind, NodeData};
use diagtool::model::visual::{
    BoxData, Color, ConstraintRange, DimensionConstraintData, Fill, SolvedDimensions, Stroke,
    TextData,
};
use diagtool::model::{Diagram, DiagramNode, NodeIdx, NodeType};

fn black() -> Stroke {
    Stroke { width: 1, color: Color { r: 0, g: 0, b: 0, a: 255 } }
}

#[test]
fn can_insert_and_get_data() {
    let mut diagram = Diagram::new();

    let node = DiagramNode::create(&mut diagram, NodeType::Box);
    let mut constraints = DimensionConstraintData::default();
    constraints.x.min = Some(32);
    constraints.x.max = Some(44);
    let node = diagram.get_mut(node).unwrap();
    node.insert(constraints);

    let constraints = node.get::<DimensionConstraintData>().unwrap();
    assert_eq!(constraints.x.min, Some(32));
    assert_eq!(constraints.x.max, Some(44));
    assert_eq!(constraints.y.max, None);

    let mut new_constraints = constraints.clone();
    new_constraints.w.min = Some(66);
    let old_constraints = node
        .insert(new_constraints)
        .expect("should be an existing value for `ConstraintData`");
    assert_eq!(old_constraints.w.min, None);
    let constraints = node.get::<DimensionConstraintData>().unwrap();
    assert_eq!(constraints.w.min, Some(66));
}

#[test]
fn insert_of_new_kind_returns_nothing_and_is_read_back() {
    let mut diagram = Diagram::new();
    let id = DiagramNode::create(&mut diagram, NodeType::Text);
    let node = diagram.get_mut(id).unwrap();
    assert!(node.get::<TextData>().is_none());
    let prev = node.insert(TextData { text: String::from("hello") });
    assert!(prev.is_none());
    assert_eq!(node.get::<TextData>().unwrap().text, "hello");
}

#[test]
fn insert_of_held_kind_returns_previous_and_reads_new() {
    let mut diagram = Diagram::new();
    let id = DiagramNode::create(&mut diagram, NodeType::Box);
    let node = diagram.get_mut(id).unwrap();
    node.insert(SolvedDimensions { x: 1, y: 2, w: 3, h: 4 });
    let prev = node.insert(SolvedDimensions { x: 5, y: 6, w: 7, h: 8 });
    assert_eq!(prev, Some(SolvedDimensions { x: 1, y: 2, w: 3, h: 4 }));
    assert_eq!(
        node.get::<SolvedDimensions>(),
        Some(&SolvedDimensions { x: 5, y: 6, w: 7, h: 8 })
    );
}

#[test]
fn insert_leaves_other_kinds_alone() {
    let mut diagram = Diagram::new();
    let id = DiagramNode::create(&mut diagram, NodeType::Box);
    let node = diagram.get_mut(id).unwrap();
    let style = BoxData { stroke: black(), fill: black() };
    node.insert(style);
    node.insert(TextData { text: String::from("t") });
    node.insert(SolvedDimensions { x: 1, y: 1, w: 1, h: 1 });
    assert_eq!(node.get::<BoxData>(), Some(&style));
    assert_eq!(node.get::<TextData>().unwrap().text, "t");
    assert!(node.get::<DimensionConstraintData>().is_none());
}

#[test]
fn remove_detaches_one_kind() {
    let mut diagram = Diagram::new();
    let id = DiagramNode::create(&mut diagram, NodeType::Box);
    let node = diagram.get_mut(id).unwrap();
    node.insert(SolvedDimensions { x: 1, y: 2, w: 3, h: 4 });
    node.insert(TextData { text: String::from("kept") });
    assert_eq!(
        node.remove::<SolvedDimensions>(),
        Some(SolvedDimensions { x: 1, y: 2, w: 3, h: 4 })
    );
    assert!(node.get::<SolvedDimensions>().is_none());
    assert!(node.remove::<SolvedDimensions>().is_none());
    assert_eq!(node.get::<TextData>().unwrap().text, "kept");
}

#[test]
fn bag_keeps_one_component_per_kind() {
    let mut bag = NodeData::new();
    assert!(bag.get(ComponentKind::Solved).is_none());
    assert!(bag.insert(Component::Solved(SolvedDimensions { x: 1, y: 2, w: 3, h: 4 })).is_none());
    let prev = bag.insert(Component::Solved(SolvedDimensions { x: 9, y: 9, w: 9, h: 9 }));
    match prev {
        Some(Component::Solved(d)) => assert_eq!(d, SolvedDimensions { x: 1, y: 2, w: 3, h: 4 }),
        _ => panic!("the first value should come back"),
    }
    match bag.get(ComponentKind::Solved) {
        Some(Component::Solved(d)) => assert_eq!(*d, SolvedDimensions { x: 9, y: 9, w: 9, h: 9 }),
        _ => panic!("the second value should be held"),
    }
    assert!(bag.get(ComponentKind::Text).is_none());
    assert!(bag.remove(ComponentKind::Text).is_none());
    assert!(bag.remove(ComponentKind::Solved).is_some());
    assert!(bag.get(ComponentKind::Solved).is_none());
}

#[test]
fn component_knows_its_kind() {
    assert_eq!(
        Component::BoxStyle(BoxData { stroke: black(), fill: black() }).kind(),
        ComponentKind::BoxStyle
    );
    assert_eq!(Component::Text(TextData { text: String::new() }).kind(), ComponentKind::Text);
    assert_eq!(
        Component::Constraint(DimensionConstraintData::default()).kind(),
        ComponentKind::Constraint
    );
    assert_eq!(Component::Solved(SolvedDimensions::default()).kind(), ComponentKind::Solved);
    assert_eq!(ComponentKind::BoxStyle.tag(), 0);
    assert_eq!(ComponentKind::Text.tag(), 1);
    assert_eq!(ComponentKind::Constraint.tag(), 2);
    assert_eq!(ComponentKind::Solved.tag(), 3);
}

#[test]
fn link_child_appends_an_existing_child() {
    let mut diagram = Diagram::new();
    let p = DiagramNode::create(&mut diagram, NodeType::Root);
    let a = DiagramNode::create(&mut diagram, NodeType::Box);
    let b = DiagramNode::create(&mut diagram, NodeType::Box);
    assert!(DiagramNode::link_child(&mut diagram, p, a));
    assert!(DiagramNode::link_child(&mut diagram, p, b));
    assert!(DiagramNode::link_child(&mut diagram, p, a));
    assert_eq!(diagram.get(p).unwrap().children(), &vec![a, b, a]);
    assert!(diagram.get(a).unwrap().children().is_empty());
}

#[test]
fn link_child_refuses_a_missing_child() {
    let mut diagram = Diagram::new();
    let p = DiagramNode::create(&mut diagram, NodeType::Root);
    let a = DiagramNode::create(&mut diagram, NodeType::Box);
    assert!(DiagramNode::link_child(&mut diagram, p, a));
    assert!(!DiagramNode::link_child(&mut diagram, p, NodeIdx(2)));
    assert!(!DiagramNode::link_child(&mut diagram, p, NodeIdx(usize::MAX)));
    assert_eq!(diagram.get(p).unwrap().children(), &vec![a]);
}

#[test]
fn link_child_refuses_a_missing_parent() {
    let mut diagram = Diagram::new();
    let a = DiagramNode::create(&mut diagram, NodeType::Box);
    assert!(!DiagramNode::link_child(&mut diagram, NodeIdx(5), a));
    assert!(diagram.get(a).unwrap().children().is_empty());
    assert_eq!(diagram.len(), 1);
}

#[test]
fn link_child_does_not_check_for_cycles() {
    let mut diagram = Diagram::new();
    let a = DiagramNode::create(&mut diagram, NodeType::Box);
    assert!(DiagramNode::link_child(&mut diagram, a, a));
    assert_eq!(diagram.get(a).unwrap().children(), &vec![a]);
}

#[test]
fn unlink_child_removes_the_first_occurrence_only() {
    let mut diagram = Diagram::new();
    let p = DiagramNode::create(&mut diagram, NodeType::Root);
    let a = DiagramNode::create(&mut diagram, NodeType::Box);
    let b = DiagramNode::create(&mut diagram, NodeType::Box);
    DiagramNode::link_child(&mut diagram, p, a);
    DiagramNode::link_child(&mut diagram, p, b);
    DiagramNode::link_child(&mut diagram, p, a);
    let node = diagram.get_mut(p).unwrap();
    assert!(node.unlink_child(a));
    assert_eq!(node.children(), &vec![b, a]);
    assert!(node.unlink_child(a));
    assert_eq!(node.children(), &vec![b]);
    assert!(!node.unlink_child(a));
    assert_eq!(node.children(), &vec![b]);
}

#[test]
fn unlink_child_of_an_absent_child_changes_nothing() {
    let mut diagram = Diagram::new();
    let p = DiagramNode::create(&mut diagram, NodeType::Root);
    let a = DiagramNode::create(&mut diagram, NodeType::Box);
    DiagramNode::link_child(&mut diagram, p, a);
    let node = diagram.get_mut(p).unwrap();
    assert!(!node.unlink_child(NodeIdx(9)));
    assert!(!node.unlink_child(p));
    assert_eq!(node.children(), &vec![a]);
    assert_eq!(node.id(), p);
    assert!(node.ty() == NodeType::Root);
}

#[test]
fn identities_ascend_and_iteration_follows_them() {
    let mut diagram = Diagram::new();
    assert_eq!(diagram.len(), 0);
    assert!(diagram.iter().is_empty());
    let kinds =
        [NodeType::Root, NodeType::Box, NodeType::Text, NodeType::Connector, NodeType::Line];
    let mut last: Option<NodeIdx> = None;
    for (i, ty) in kinds.iter().enumerate() {
        let id = DiagramNode::create(&mut diagram, *ty);
        assert_eq!(id, NodeIdx(i));
        if let Some(prev) = last {
            assert!(prev < id);
        }
        last = Some(id);
    }
    assert_eq!(diagram.len(), 5);
    let nodes = diagram.iter();
    assert_eq!(nodes.len(), 5);
    for (i, node) in nodes.iter().enumerate() {
        assert_eq!(node.id(), NodeIdx(i));
        assert!(node.ty() == kinds[i]);
        assert!(node.children().is_empty());
    }
    let again = diagram.iter();
    assert_eq!(again.len(), 5);
    assert_eq!(again[4].id(), NodeIdx(4));
}

#[test]
fn get_of_a_missing_node_is_none() {
    let mut diagram = Diagram::new();
    assert!(diagram.get(NodeIdx(0)).is_none());
    assert!(diagram.get_mut(NodeIdx(0)).is_none());
    let id = DiagramNode::create(&mut diagram, NodeType::Line);
    assert!(diagram.get(id).is_some());
    assert!(diagram.get(NodeIdx(1)).is_none());
    assert!(diagram.get_mut(NodeIdx(1)).is_none());
    assert!(diagram.get(id).unwrap().ty() == NodeType::Line);
}

#[test]
fn node_idx_converts_to_and_from_usize() {
    let id: NodeIdx = 7usize.into();
    assert_eq!(id, NodeIdx(7));
    assert_eq!(NodeIdx::from(3usize), NodeIdx(3));
    let raw: usize = NodeIdx(11).into();
    assert_eq!(raw, 11);
    assert_eq!(usize::from(NodeIdx(0)), 0);
}

#[test]
fn constraint_range_new_refuses_crossed_bounds() {
    assert_eq!(
        ConstraintRange::new(Some(1), Some(2)),
        Some(ConstraintRange { min: Some(1), max: Some(2) })
    );
    assert_eq!(
        ConstraintRange::new(Some(2), Some(2)),
        Some(ConstraintRange { min: Some(2), max: Some(2) })
    );
    assert_eq!(ConstraintRange::new(Some(3), Some(2)), None);
    assert_eq!(
        ConstraintRange::new(None, Some(-4)),
        Some(ConstraintRange { min: None, max: Some(-4) })
    );
    assert_eq!(
        ConstraintRange::new(Some(i64::MAX), None),
        Some(ConstraintRange { min: Some(i64::MAX), max: None })
    );
    assert_eq!(ConstraintRange::new(None, None), Some(ConstraintRange::default()));
    assert_eq!(ConstraintRange::exactly(5), ConstraintRange { min: Some(5), max: Some(5) });
}

#[test]
fn defaults_are_unconstrained_and_zero() {
    let c = DimensionConstraintData::default();
    let open = ConstraintRange { min: None, max: None };
    assert_eq!(c, DimensionConstraintData { x: open, y: open, w: open, h: open });
    assert_eq!(SolvedDimensions::default(), SolvedDimensions { x: 0, y: 0, w: 0, h: 0 });
}

#[test]
fn text_data_clone_keeps_the_text() {
    let t = TextData { text: String::from("héllo") };
    assert_eq!(t.clone().text, "héllo");
}

#[test]
fn fill_and_stroke_hold_their_colour() {
    let c = Color { r: 1, g: 2, b: 3, a: 4 };
    assert_eq!(Fill { color: c }.color, c);
    assert_eq!(Stroke { width: 2, color: c }, Stroke { width: 2, color: c });
    assert_ne!(Stroke { width: 2, color: c }, black());
}

#[test]
fn identities_are_ordered_as_their_numbers() {
    let samples = [0usize, 1, 2, 7, usize::MAX - 1, usize::MAX];
    for a in samples {
        for b in samples {
            let x = NodeIdx::from(a);
            let y = NodeIdx::from(b);
            assert_eq!(x < y, a < b);
            assert_eq!(x <= y, a <= b);
            assert_eq!(x > y, a > b);
            assert_eq!(x >= y, a >= b);
            assert_eq!(x == y, a == b);
            assert_eq!(x.partial_cmp(&y), a.partial_cmp(&b));
            assert_eq!(x.cmp(&y), a.cmp(&b));
        }
    }
}

#[test]
fn diagrams_built_through_their_own_functions_are_well_formed() {
    let mut d = Diagram::new();
    assert!(d.is_wf());
    let p = DiagramNode::create(&mut d, NodeType::Box);
    let k = DiagramNode::create(&mut d, NodeType::Text);
    assert!(d.is_wf());
    DiagramNode::link_child(&mut d, p, k);
    DiagramNode::link_child(&mut d, k, k);
    d.get_mut(k).unwrap().insert(TextData { text: String::from("t") });
    d.get_mut(p).unwrap().insert(SolvedDimensions::default());
    d.get_mut(p).unwrap().unlink_child(k);
    d.get_mut(p).unwrap().remove::<SolvedDimensions>();
    assert!(d.is_wf());
    assert!(d.get(p).unwrap().is_wf());
    let mut bag = NodeData::new();
    bag.insert(Component::Text(TextData { text: String::new() }));
    assert!(bag.is_wf());
}

#[test]
fn nodes_exchanged_between_diagrams_break_well_formedness() {
    let mut a = Diagram::new();
    let mut b = Diagram::new();
    DiagramNode::create(&mut a, NodeType::Box);
    DiagramNode::create(&mut b, NodeType::Box);
    let second = DiagramNode::create(&mut b, NodeType::Box);
    std::mem::swap(a.get_mut(NodeIdx(0)).unwrap(), b.get_mut(second).unwrap());
    assert!(!a.is_wf());
    assert!(!b.is_wf());
    std::mem::swap(a.get_mut(NodeIdx(0)).unwrap(), b.get_mut(second).unwrap());
    assert!(a.is_wf());
    assert!(b.is_wf());
    DiagramNode::link_child(&mut b, NodeIdx(0), second);
    std::mem::swap(a.get_mut(NodeIdx(0)).unwrap(), b.get_mut(NodeIdx(0)).unwrap());
    assert!(!a.is_wf());
    assert!(b.is_wf());
}
