use rust_sadt::elements::{ArrowType, ConnectionPoint, Side};
use rust_sadt::geometry::{Point, Rect, Vector, WORLD_LIMIT};
use rust_sadt::ids::{contains_id, fresh_id};
use rust_sadt::model::{Arrow, SadtDiagram, NODE_HEIGHT, NODE_WIDTH};
use rust_sadt::signature::{activity_signature, type_placeholder};

fn cp(node_id: u128, side: Side) -> ConnectionPoint {
    ConnectionPoint { node_id, side }
}

#[test]
fn add_node_uses_default_size_and_fresh_ids() {
    let mut d = SadtDiagram::new();
    let a = d.add_node("A".to_string(), Point::new(100, 100));
    let b = d.add_node("B".to_string(), Point::new(300, 100));
    assert_ne!(a, b);
    let na = d.get_node(a).unwrap();
    assert_eq!(na.name, "A");
    assert_eq!(na.algorithm, "add");
    assert_eq!(na.rect.min, Point::new(100, 100));
    assert_eq!(na.rect.max, Point::new(100 + NODE_WIDTH, 100 + NODE_HEIGHT));
    assert_eq!(d.nodes.len(), 2);
}

#[test]
fn add_node_is_held_inside_the_world() {
    let mut d = SadtDiagram::new();
    let a = d.add_node("far".to_string(), Point::new(i64::MAX, i64::MIN));
    let r = d.get_node(a).unwrap().rect;
    assert_eq!(r.min, Point::new(WORLD_LIMIT - NODE_WIDTH, -WORLD_LIMIT));
    assert_eq!(r.max, Point::new(WORLD_LIMIT, -WORLD_LIMIT + NODE_HEIGHT));
}

#[test]
fn add_arrow_between_distinct_nodes_resolves_to_them() {
    let mut d = SadtDiagram::new();
    let a = d.add_node("A".to_string(), Point::new(0, 0));
    let b = d.add_node("B".to_string(), Point::new(300, 0));
    for s1 in [Side::Left, Side::Right, Side::Top, Side::Bottom] {
        for s2 in [Side::Left, Side::Right, Side::Top, Side::Bottom] {
            let id = d.add_arrow(cp(a, s1), cp(b, s2), ArrowType::Input, None).unwrap();
            let arrow = d.get_arrow(id).unwrap();
            assert_eq!(arrow.source.node_id, a);
            assert_eq!(arrow.target.node_id, b);
            assert_eq!(arrow.source.side, s1);
            assert_eq!(arrow.target.side, s2);
        }
    }
    assert_eq!(d.arrows.len(), 16);
}

#[test]
fn add_arrow_to_the_same_node_fails() {
    let mut d = SadtDiagram::new();
    let a = d.add_node("A".to_string(), Point::new(0, 0));
    assert!(d.add_arrow(cp(a, Side::Right), cp(a, Side::Left), ArrowType::Output, None).is_none());
    assert!(d.arrows.is_empty());
}

#[test]
fn add_arrow_to_a_missing_node_fails() {
    let mut d = SadtDiagram::new();
    let a = d.add_node("A".to_string(), Point::new(0, 0));
    let missing = (0u128..).find(|k| *k != a).unwrap();
    assert!(d.add_arrow(cp(a, Side::Right), cp(missing, Side::Left), ArrowType::Output, None).is_none());
    assert!(d.add_arrow(cp(missing, Side::Right), cp(a, Side::Left), ArrowType::Output, None).is_none());
    assert!(d.arrows.is_empty());
}

#[test]
fn remove_node_removes_its_arrows_and_keeps_the_other_node() {
    let mut d = SadtDiagram::new();
    let a = d.add_node("A".to_string(), Point::new(100, 100));
    let b = d.add_node("B".to_string(), Point::new(300, 100));
    d.add_arrow(cp(a, Side::Right), cp(b, Side::Left), ArrowType::Output, None).unwrap();
    let b_rect = d.get_node(b).unwrap().rect;
    let removed = d.remove_node(a).unwrap();
    assert_eq!(removed.id, a);
    assert!(d.arrows.is_empty());
    assert!(d.get_node(a).is_none());
    assert_eq!(d.get_node(b).unwrap().rect, b_rect);
}

#[test]
fn remove_node_keeps_arrows_between_other_nodes() {
    let mut d = SadtDiagram::new();
    let a = d.add_node("A".to_string(), Point::new(0, 0));
    let b = d.add_node("B".to_string(), Point::new(300, 0));
    let c = d.add_node("C".to_string(), Point::new(600, 0));
    d.add_arrow(cp(a, Side::Right), cp(b, Side::Left), ArrowType::Output, None).unwrap();
    let kept = d.add_arrow(cp(b, Side::Right), cp(c, Side::Left), ArrowType::Output, None).unwrap();
    d.add_arrow(cp(c, Side::Bottom), cp(a, Side::Top), ArrowType::Control, None).unwrap();
    d.remove_node(a);
    assert_eq!(d.arrows.len(), 1);
    assert_eq!(d.arrows[0].id, kept);
    for arrow in &d.arrows {
        assert_ne!(arrow.source.node_id, a);
        assert_ne!(arrow.target.node_id, a);
    }
}

#[test]
fn removing_an_absent_node_or_arrow_changes_nothing() {
    let mut d = SadtDiagram::new();
    let a = d.add_node("A".to_string(), Point::new(0, 0));
    let b = d.add_node("B".to_string(), Point::new(300, 0));
    let arrow = d.add_arrow(cp(a, Side::Right), cp(b, Side::Left), ArrowType::Output, None).unwrap();
    assert!(d.remove_node(a).is_some());
    assert!(d.remove_node(a).is_none());
    assert!(d.remove_arrow(arrow).is_none());
    assert_eq!(d.nodes.len(), 1);
}

#[test]
fn remove_arrow_returns_it() {
    let mut d = SadtDiagram::new();
    let a = d.add_node("A".to_string(), Point::new(0, 0));
    let b = d.add_node("B".to_string(), Point::new(300, 0));
    let id = d
        .add_arrow(cp(a, Side::Right), cp(b, Side::Left), ArrowType::Output, Some("x".to_string()))
        .unwrap();
    let removed = d.remove_arrow(id).unwrap();
    assert_eq!(removed.label.as_deref(), Some("x"));
    assert!(d.arrows.is_empty());
    assert_eq!(d.nodes.len(), 2);
}

#[test]
fn rename_relabel_and_move() {
    let mut d = SadtDiagram::new();
    let a = d.add_node("A".to_string(), Point::new(0, 0));
    let b = d.add_node("B".to_string(), Point::new(300, 0));
    let id = d.add_arrow(cp(a, Side::Right), cp(b, Side::Left), ArrowType::Output, None).unwrap();
    assert!(d.rename_node(a, "Alpha".to_string()));
    assert_eq!(d.get_node(a).unwrap().name, "Alpha");
    assert!(d.set_arrow_label(id, Some("flow".to_string())));
    assert_eq!(d.get_arrow(id).unwrap().label.as_deref(), Some("flow"));
    assert!(d.move_node(b, Vector::new(20, -10)));
    assert_eq!(d.get_node(b).unwrap().rect.min, Point::new(320, -10));
    let missing = (0u128..).find(|k| *k != a && *k != b).unwrap();
    assert!(!d.rename_node(missing, "none".to_string()));
    assert!(!d.move_node(missing, Vector::new(1, 1)));
    assert!(!d.set_arrow_label(missing, None));
}

#[test]
fn get_node_mut_changes_in_place() {
    let mut d = SadtDiagram::new();
    let a = d.add_node("A".to_string(), Point::new(0, 0));
    d.get_node_mut(a).unwrap().algorithm = "multiply".to_string();
    assert_eq!(d.get_node(a).unwrap().algorithm, "multiply");
}

#[test]
fn signature_groups_arrows_by_role() {
    let mut d = SadtDiagram::new();
    let a = d.add_node("A".to_string(), Point::new(0, 0));
    let b = d.add_node("B".to_string(), Point::new(300, 0));
    let c = d.add_node("C".to_string(), Point::new(600, 0));
    d.add_arrow(cp(a, Side::Right), cp(b, Side::Left), ArrowType::Input, Some("raw".to_string()))
        .unwrap();
    d.add_arrow(cp(c, Side::Bottom), cp(b, Side::Top), ArrowType::Control, None).unwrap();
    d.add_arrow(cp(c, Side::Top), cp(b, Side::Bottom), ArrowType::Mechanism, Some("cpu".to_string()))
        .unwrap();
    d.add_arrow(cp(b, Side::Right), cp(c, Side::Left), ArrowType::Output, Some("done".to_string()))
        .unwrap();
    d.add_arrow(cp(b, Side::Right), cp(a, Side::Left), ArrowType::Input, None).unwrap();
    let sig = activity_signature(&d, b);
    assert_eq!(sig.inputs.len(), 1);
    assert_eq!(sig.inputs[0].label, "raw");
    assert_eq!(sig.controls.len(), 1);
    assert_eq!(sig.controls[0].label, "data");
    assert_eq!(sig.mechanisms.len(), 1);
    assert_eq!(sig.mechanisms[0].label, "cpu");
    assert_eq!(sig.outputs.len(), 1);
    assert_eq!(sig.outputs[0].label, "done");
    assert_eq!(sig.outputs[0].arrow_type, ArrowType::Output);
    let sig_a = activity_signature(&d, a);
    assert_eq!(sig_a.inputs.len(), 1);
    assert_eq!(sig_a.outputs.len(), 0);
}

#[test]
fn type_placeholders() {
    assert_eq!(type_placeholder(ArrowType::Input), "InputData");
    assert_eq!(type_placeholder(ArrowType::Output), "OutputData");
    assert_eq!(type_placeholder(ArrowType::Control), "ControlParam");
    assert_eq!(type_placeholder(ArrowType::Mechanism), "MechanismResource");
}

#[test]
fn fresh_ids_avoid_taken_ones() {
    let taken: Vec<u128> = (0u128..50).collect();
    for _ in 0..20 {
        let id = fresh_id(&taken);
        assert!(!contains_id(&taken, id));
    }
    assert!(contains_id(&taken, 49));
    assert!(!contains_id(&taken, 50));
}

#[test]
fn rebuilding_by_insertion_keeps_identities() {
    let mut d = SadtDiagram::new();
    let a = d.add_node("A".to_string(), Point::new(0, 0));
    let b = d.add_node("B".to_string(), Point::new(300, 0));
    let id = d
        .add_arrow(cp(a, Side::Right), cp(b, Side::Left), ArrowType::Output, Some("x".to_string()))
        .unwrap();
    let mut copy = SadtDiagram::new();
    for n in &d.nodes {
        assert!(copy.insert_node(n.clone()));
    }
    for arrow in &d.arrows {
        assert!(copy.insert_arrow(arrow.clone()));
    }
    assert_eq!(copy.get_node(a).unwrap().name, "A");
    assert_eq!(copy.get_node(b).unwrap().rect, d.get_node(b).unwrap().rect);
    assert_eq!(copy.get_arrow(id).unwrap().label.as_deref(), Some("x"));
    // Inserting again is refused: the identities are taken.
    assert!(!copy.insert_node(d.nodes[0].clone()));
    assert!(!copy.insert_arrow(d.arrows[0].clone()));
    assert_eq!(copy.nodes.len(), 2);
    assert_eq!(copy.arrows.len(), 1);
}

#[test]
fn insertion_refuses_what_breaks_the_invariants() {
    let mut d = SadtDiagram::new();
    let a = d.add_node("A".to_string(), Point::new(0, 0));
    let mut bad = d.nodes[0].clone();
    bad.id = (0u128..).find(|k| *k != a).unwrap();
    bad.rect = Rect { min: Point::new(10, 10), max: Point::new(0, 0) };
    assert!(!d.insert_node(bad));
    let mut looped = Arrow {
        id: 7,
        label: None,
        arrow_type: ArrowType::Input,
        source: cp(a, Side::Left),
        target: cp(a, Side::Right),
    };
    assert!(!d.insert_arrow(looped.clone()));
    looped.target.node_id = (0u128..).find(|k| *k != a).unwrap();
    assert!(!d.insert_arrow(looped));
    assert_eq!(d.nodes.len(), 1);
    assert!(d.arrows.is_empty());
}
