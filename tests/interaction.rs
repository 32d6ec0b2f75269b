use rust_sadt::elements::{ArrowType, ConnectionPoint, Side};
use rust_sadt::geometry::{Point, Vector};
use rust_sadt::interaction::{arrow_type_for, Key, Mode, UiState};
use rust_sadt::model::SadtDiagram;
use rust_sadt::transform::Transform;

fn two_nodes() -> (SadtDiagram, u128, u128) {
    let mut d = SadtDiagram::new();
    let a = d.add_node("A".to_string(), Point::new(100, 100));
    let b = d.add_node("B".to_string(), Point::new(300, 100));
    (d, a, b)
}

fn identity() -> Transform {
    Transform::new(Point::new(0, 0), 1000)
}

#[test]
fn connecting_right_to_left_makes_an_output_arrow() {
    let (mut d, a, b) = two_nodes();
    let t = identity();
    let mut ui = UiState::new();
    // A's right side is at (220, 130), B's left side at (300, 130).
    ui.pointer_pressed(&d, &t, Point::new(221, 131));
    assert_eq!(ui.mode, Mode::CreatingArrow(ConnectionPoint { node_id: a, side: Side::Right }));
    ui.pointer_dragged(&mut d, &t, Point::new(290, 131), Vector::new(69, 0));
    assert_eq!(ui.mouse_pos, Point::new(290, 131));
    let id = ui.pointer_released(&mut d, &t, Point::new(298, 128)).unwrap();
    assert_eq!(ui.mode, Mode::Idle);
    let arrow = d.get_arrow(id).unwrap();
    assert_eq!(arrow.arrow_type, ArrowType::Output);
    assert_eq!(arrow.source, ConnectionPoint { node_id: a, side: Side::Right });
    assert_eq!(arrow.target, ConnectionPoint { node_id: b, side: Side::Left });
    assert!(arrow.label.is_none());
    assert_eq!(d.arrows.len(), 1);
}

#[test]
fn releasing_over_empty_canvas_cancels_the_arrow() {
    let (mut d, _a, b) = two_nodes();
    let t = identity();
    let mut ui = UiState::new();
    ui.pointer_pressed(&d, &t, Point::new(220, 130));
    assert!(ui.arrow_creation_start().is_some());
    assert_eq!(ui.pointer_released(&mut d, &t, Point::new(2000, 2000)), None);
    assert!(d.arrows.is_empty());
    assert_eq!(ui.mode, Mode::Idle);
    assert!(ui.arrow_creation_start().is_none());
    // The next press starts afresh: here it lands inside B and arms a drag.
    ui.pointer_pressed(&d, &t, Point::new(350, 140));
    assert_eq!(ui.mode, Mode::DraggingNode(b));
    ui.pointer_released(&mut d, &t, Point::new(350, 140));
    assert_eq!(ui.mode, Mode::NodeSelected(b));
    assert!(d.arrows.is_empty());
}

#[test]
fn releasing_on_the_same_node_cancels_the_arrow() {
    let (mut d, _a, _b) = two_nodes();
    let t = identity();
    let mut ui = UiState::new();
    ui.pointer_pressed(&d, &t, Point::new(220, 130));
    assert_eq!(ui.pointer_released(&mut d, &t, Point::new(100, 130)), None);
    assert!(d.arrows.is_empty());
    assert_eq!(ui.mode, Mode::Idle);
}

#[test]
fn dragging_at_zoom_two_moves_by_half_the_screen_delta() {
    let (mut d, a, _b) = two_nodes();
    let t = Transform::new(Point::new(0, 0), 2000);
    let mut ui = UiState::new();
    // A spans (100, 100)-(220, 160) in the world, (200, 200)-(440, 320) on screen.
    ui.pointer_pressed(&d, &t, Point::new(300, 300));
    assert_eq!(ui.mode, Mode::DraggingNode(a));
    assert_eq!(ui.selected_node(), Some(a));
    ui.pointer_dragged(&mut d, &t, Point::new(340, 280), Vector::new(40, -20));
    let r = d.get_node(a).unwrap().rect;
    assert_eq!(r.min, Point::new(120, 90));
    assert_eq!(r.max, Point::new(240, 150));
    ui.pointer_released(&mut d, &t, Point::new(340, 280));
    assert_eq!(ui.mode, Mode::NodeSelected(a));
}

#[test]
fn connection_point_wins_over_node_body() {
    let (d, a, _b) = two_nodes();
    let t = identity();
    let mut ui = UiState::new();
    // Inside A, 5 units from its left side's middle.
    ui.pointer_pressed(&d, &t, Point::new(105, 130));
    assert_eq!(ui.mode, Mode::CreatingArrow(ConnectionPoint { node_id: a, side: Side::Left }));
    assert_eq!(ui.selected_node(), None);
}

#[test]
fn pressing_near_an_arrow_selects_it_and_empty_space_clears() {
    let (mut d, a, b) = two_nodes();
    let id = d
        .add_arrow(
            ConnectionPoint { node_id: a, side: Side::Right },
            ConnectionPoint { node_id: b, side: Side::Left },
            ArrowType::Output,
            None,
        )
        .unwrap();
    let t = identity();
    let mut ui = UiState::new();
    ui.pointer_pressed(&d, &t, Point::new(260, 133));
    assert_eq!(ui.mode, Mode::ArrowSelected(id));
    assert_eq!(ui.selected_arrow(), Some(id));
    ui.pointer_pressed(&d, &t, Point::new(260, 400));
    assert_eq!(ui.mode, Mode::Idle);
}

#[test]
fn delete_key_removes_the_selected_node_and_its_arrows() {
    let (mut d, a, b) = two_nodes();
    d.add_arrow(
        ConnectionPoint { node_id: a, side: Side::Right },
        ConnectionPoint { node_id: b, side: Side::Left },
        ArrowType::Output,
        None,
    )
    .unwrap();
    let t = identity();
    let mut ui = UiState::new();
    ui.pointer_pressed(&d, &t, Point::new(160, 140));
    ui.pointer_released(&mut d, &t, Point::new(160, 140));
    assert_eq!(ui.mode, Mode::NodeSelected(a));
    ui.key_pressed(&mut d, Key::Delete);
    assert_eq!(ui.mode, Mode::Idle);
    assert!(d.get_node(a).is_none());
    assert!(d.arrows.is_empty());
    assert!(d.get_node(b).is_some());
}

#[test]
fn backspace_removes_the_selected_arrow() {
    let (mut d, a, b) = two_nodes();
    let id = d
        .add_arrow(
            ConnectionPoint { node_id: a, side: Side::Right },
            ConnectionPoint { node_id: b, side: Side::Left },
            ArrowType::Output,
            None,
        )
        .unwrap();
    let t = identity();
    let mut ui = UiState::new();
    ui.pointer_pressed(&d, &t, Point::new(260, 130));
    assert_eq!(ui.mode, Mode::ArrowSelected(id));
    ui.key_pressed(&mut d, Key::Backspace);
    assert!(d.arrows.is_empty());
    assert_eq!(d.nodes.len(), 2);
    assert_eq!(ui.mode, Mode::Idle);
}

#[test]
fn delete_during_a_drag_does_nothing() {
    let (mut d, a, _b) = two_nodes();
    let t = identity();
    let mut ui = UiState::new();
    ui.pointer_pressed(&d, &t, Point::new(160, 140));
    ui.key_pressed(&mut d, Key::Delete);
    assert_eq!(ui.mode, Mode::DraggingNode(a));
    assert_eq!(d.nodes.len(), 2);
}

#[test]
fn rename_node_confirmed_with_enter() {
    let (mut d, a, _b) = two_nodes();
    let mut ui = UiState::new();
    ui.mode = Mode::NodeSelected(a);
    ui.begin_rename(&d);
    assert_eq!(ui.mode, Mode::RenamingNode(a));
    assert_eq!(ui.renaming_label_text, "A");
    ui.renaming_label_text.push_str("lpha");
    ui.key_pressed(&mut d, Key::Enter);
    assert_eq!(d.get_node(a).unwrap().name, "Alpha");
    assert_eq!(ui.mode, Mode::NodeSelected(a));
    assert!(ui.renaming_label_text.is_empty());
}

#[test]
fn rename_cancelled_with_escape_or_focus_loss() {
    let (mut d, a, _b) = two_nodes();
    let mut ui = UiState::new();
    ui.mode = Mode::NodeSelected(a);
    ui.begin_rename(&d);
    ui.renaming_label_text = "Other".to_string();
    ui.key_pressed(&mut d, Key::Escape);
    assert_eq!(d.get_node(a).unwrap().name, "A");
    assert_eq!(ui.mode, Mode::NodeSelected(a));
    assert!(ui.renaming_label_text.is_empty());
    ui.begin_rename(&d);
    ui.renaming_label_text = "Other".to_string();
    ui.rename_focus_lost(&d);
    assert_eq!(d.get_node(a).unwrap().name, "A");
    assert_eq!(ui.mode, Mode::NodeSelected(a));
    assert!(ui.renaming_label_text.is_empty());
}

#[test]
fn arrow_label_edit_empty_text_clears_it() {
    let (mut d, a, b) = two_nodes();
    let id = d
        .add_arrow(
            ConnectionPoint { node_id: a, side: Side::Right },
            ConnectionPoint { node_id: b, side: Side::Left },
            ArrowType::Output,
            Some("old".to_string()),
        )
        .unwrap();
    let mut ui = UiState::new();
    ui.mode = Mode::ArrowSelected(id);
    ui.begin_rename(&d);
    assert_eq!(ui.renaming_arrow(), Some(id));
    assert_eq!(ui.renaming_label_text, "old");
    ui.renaming_label_text = "new".to_string();
    ui.key_pressed(&mut d, Key::Enter);
    assert_eq!(d.get_arrow(id).unwrap().label.as_deref(), Some("new"));
    ui.begin_rename(&d);
    ui.renaming_label_text.clear();
    ui.key_pressed(&mut d, Key::Enter);
    assert!(d.get_arrow(id).unwrap().label.is_none());
    assert_eq!(ui.mode, Mode::ArrowSelected(id));
}

#[test]
fn stale_selection_is_dropped_silently() {
    let (mut d, a, _b) = two_nodes();
    let t = identity();
    let mut ui = UiState::new();
    ui.mode = Mode::RenamingNode(a);
    ui.renaming_label_text = "x".to_string();
    d.remove_node(a);
    ui.key_pressed(&mut d, Key::Enter);
    assert_eq!(ui.mode, Mode::Idle);
    assert!(ui.renaming_label_text.is_empty());
    ui.mode = Mode::DraggingNode(a);
    ui.pointer_dragged(&mut d, &t, Point::new(0, 0), Vector::new(10, 10));
    assert_eq!(ui.mode, Mode::Idle);
    assert_eq!(d.nodes.len(), 1);
}

#[test]
fn arrow_type_precedence_table() {
    assert_eq!(arrow_type_for(Side::Right, Side::Left), ArrowType::Output);
    assert_eq!(arrow_type_for(Side::Left, Side::Right), ArrowType::Input);
    assert_eq!(arrow_type_for(Side::Right, Side::Top), ArrowType::Control);
    assert_eq!(arrow_type_for(Side::Left, Side::Top), ArrowType::Control);
    assert_eq!(arrow_type_for(Side::Right, Side::Bottom), ArrowType::Mechanism);
    assert_eq!(arrow_type_for(Side::Top, Side::Bottom), ArrowType::Mechanism);
    assert_eq!(arrow_type_for(Side::Right, Side::Right), ArrowType::Output);
    assert_eq!(arrow_type_for(Side::Top, Side::Left), ArrowType::Input);
    assert_eq!(arrow_type_for(Side::Bottom, Side::Right), ArrowType::Input);
    assert_eq!(arrow_type_for(Side::Left, Side::Left), ArrowType::Input);
}

#[test]
fn hovering_tracks_the_world_position() {
    let t = Transform::new(Point::new(10, 10), 2000);
    let mut ui = UiState::new();
    ui.pointer_hovered(&t, Point::new(20, 40));
    assert_eq!(ui.mouse_pos, Point::new(20, 30));
    assert_eq!(ui.mode, Mode::Idle);
}

#[test]
fn a_press_during_a_gesture_is_ignored() {
    let (mut d, a, b) = two_nodes();
    let t = identity();
    let mut ui = UiState::new();
    ui.pointer_pressed(&d, &t, Point::new(220, 130));
    let start = ui.mode;
    ui.pointer_pressed(&d, &t, Point::new(350, 140));
    assert_eq!(ui.mode, start);
    assert_eq!(ui.mouse_pos, Point::new(350, 140));
    let id = ui.pointer_released(&mut d, &t, Point::new(300, 130)).unwrap();
    let arrow = d.get_arrow(id).unwrap();
    assert_eq!((arrow.source.node_id, arrow.target.node_id), (a, b));
}

#[test]
fn connecting_into_a_top_side_makes_a_control_arrow() {
    let (mut d, a, b) = two_nodes();
    let t = identity();
    let mut ui = UiState::new();
    // A's bottom side is at (160, 160), B's top side at (360, 100).
    ui.pointer_pressed(&d, &t, Point::new(160, 160));
    let id = ui.pointer_released(&mut d, &t, Point::new(365, 95)).unwrap();
    let arrow = d.get_arrow(id).unwrap();
    assert_eq!(arrow.arrow_type, ArrowType::Control);
    assert_eq!(arrow.source, ConnectionPoint { node_id: a, side: Side::Bottom });
    assert_eq!(arrow.target, ConnectionPoint { node_id: b, side: Side::Top });
}
