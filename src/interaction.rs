//! The interaction state machine of the canvas.
//!
//! One `Mode` holds everything transient: what is selected, and which gesture
//! (dragging a node, drawing an arrow, renaming) is under way, so that no two
//! gestures can be active together. Each event handler first drops a mode that
//! refers to an element no longer in the diagram, then applies the event.
use vstd::prelude::*;
use crate::elements::{ArrowId, ArrowType, ConnectionPoint, NodeId, Side};
use crate::geometry::{Point, Vector};
use crate::model::SadtDiagram;
use crate::spatial::{
    arrow_at, find_arrow_at, find_closest_connection_point, find_node_at, nearest_connection,
    node_at,
};
use crate::transform::Transform;

verus! {

/// Radius of the drawn connection points, in world units.
pub const CONNECTION_POINT_RADIUS: i64 = 4;

/// How close, in world units, a press must come to a connection point to
/// start an arrow there.
pub const START_PROBE_RADIUS: i64 = 12;

/// How close, in world units, a release must come to a connection point to
/// end an arrow there; wider than the start, as the pointer is then moving.
pub const RELEASE_PROBE_RADIUS: i64 = 16;

/// The keys the canvas reacts to.
#[derive(Clone, Copy, Debug, PartialEq, Eq, Structural)]
pub enum Key {
    Enter,
    Escape,
    Delete,
    Backspace,
}

/// The current interaction mode.
#[derive(Clone, Copy, Debug, PartialEq, Eq, Structural)]
pub enum Mode {
    /// Nothing selected, no gesture.
    Idle,
    NodeSelected(NodeId),
    ArrowSelected(ArrowId),
    /// The node is selected and follows the pointer while the button is held.
    DraggingNode(NodeId),
    /// An arrow is being drawn from this connection point.
    CreatingArrow(ConnectionPoint),
    /// The node is selected and its name is being edited.
    RenamingNode(NodeId),
    /// The arrow is selected and its label is being edited.
    RenamingArrow(ArrowId),
}

/// The transient state of the editing session.
#[derive(Clone, Debug)]
pub struct UiState {
    pub mode: Mode,
    /// World position of the pointer, the loose end of an arrow being drawn.
    pub mouse_pos: Point,
    /// The text being edited while renaming; empty otherwise.
    pub renaming_label_text: String,
}

/// Arrow type for an arrow drawn from side `source` to side `target`, by a
/// fixed precedence: Right to Left is an Output, Left to Right an Input, any
/// arrow entering a Top side a Control and a Bottom side a Mechanism, any
/// other arrow leaving a Right side an Output, and every remaining one an
/// Input.
pub open spec fn arrow_type_of(source: Side, target: Side) -> ArrowType {
    if source == Side::Right && target == Side::Left {
        ArrowType::Output
    } else if source == Side::Left && target == Side::Right {
        ArrowType::Input
    } else if target == Side::Top {
        ArrowType::Control
    } else if target == Side::Bottom {
        ArrowType::Mechanism
    } else if source == Side::Right {
        ArrowType::Output
    } else {
        ArrowType::Input
    }
}

/// Arrow type for an arrow drawn from side `source` to side `target` (see
/// `arrow_type_of`).
pub fn arrow_type_for(source: Side, target: Side) -> (t: ArrowType)
    ensures
        t == arrow_type_of(source, target),
{
    match (source, target) {
        (Side::Right, Side::Left) => ArrowType::Output,
        (Side::Left, Side::Right) => ArrowType::Input,
        (_, Side::Top) => ArrowType::Control,
        (_, Side::Bottom) => ArrowType::Mechanism,
        (Side::Right, _) => ArrowType::Output,
        _ => ArrowType::Input,
    }
}

impl Mode {
    /// Every element the mode refers to is in the diagram.
    pub open spec fn is_live(self, d: SadtDiagram) -> bool {
        match self {
            Mode::Idle => true,
            Mode::NodeSelected(id) => d.has_node(id),
            Mode::ArrowSelected(id) => d.has_arrow(id),
            Mode::DraggingNode(id) => d.has_node(id),
            Mode::CreatingArrow(cp) => d.has_node(cp.node_id),
            Mode::RenamingNode(id) => d.has_node(id),
            Mode::RenamingArrow(id) => d.has_arrow(id),
        }
    }

    /// The mode, or `Idle` when it refers to an element that is gone.
    pub open spec fn live(self, d: SadtDiagram) -> Mode {
        if self.is_live(d) {
            self
        } else {
            Mode::Idle
        }
    }

    pub open spec fn is_renaming(self) -> bool {
        self is RenamingNode || self is RenamingArrow
    }

    /// A gesture of the pointer (dragging a node or drawing an arrow) is
    /// under way.
    pub open spec fn is_gesture(self) -> bool {
        self is DraggingNode || self is CreatingArrow
    }
}

/// Where a press at world position `w` leads, by priority: a connection
/// point within reach starts an arrow; otherwise the first node under the
/// pointer is selected and armed for a drag; otherwise the nearest arrow
/// within tolerance is selected; otherwise everything is deselected.
pub open spec fn press_outcome(d: SadtDiagram, w: Point, zoom: int) -> Mode {
    match nearest_connection(d.nodes@, w, START_PROBE_RADIUS as int) {
        Some(cp) => Mode::CreatingArrow(cp),
        None => match node_at(d.nodes@, w) {
            Some(id) => Mode::DraggingNode(id),
            None => match arrow_at(d, w, zoom) {
                Some(id) => Mode::ArrowSelected(id),
                None => Mode::Idle,
            },
        },
    }
}

/// The label an edited text gives an arrow: none for an empty text.
pub open spec fn label_of(text: String) -> Option<String> {
    if text@.len() == 0 {
        None
    } else {
        Some(text)
    }
}

/// The mode left behind when a rename ends, confirmed or not: the renamed
/// element stays selected.
pub open spec fn after_rename(m: Mode) -> Mode {
    match m {
        Mode::RenamingNode(id) => Mode::NodeSelected(id),
        Mode::RenamingArrow(id) => Mode::ArrowSelected(id),
        _ => m,
    }
}

impl UiState {
    /// The edit buffer is empty unless a rename is under way.
    pub open spec fn wf(self) -> bool {
        !self.mode.is_renaming() ==> self.renaming_label_text@.len() == 0
    }

    /// A fresh session: nothing selected, no gesture.
    pub fn new() -> (s: UiState)
        ensures
            s.mode == Mode::Idle,
            s.mouse_pos == (Point { x: 0, y: 0 }),
            s.wf(),
    {
        UiState { mode: Mode::Idle, mouse_pos: Point { x: 0, y: 0 }, renaming_label_text: String::new() }
    }

    /// The selected node, if any (also while it is dragged or renamed).
    pub fn selected_node(&self) -> (r: Option<NodeId>)
        ensures
            r == match self.mode {
                Mode::NodeSelected(id) => Some(id),
                Mode::DraggingNode(id) => Some(id),
                Mode::RenamingNode(id) => Some(id),
                _ => None::<NodeId>,
            },
    {
        match self.mode {
            Mode::NodeSelected(id) => Some(id),
            Mode::DraggingNode(id) => Some(id),
            Mode::RenamingNode(id) => Some(id),
            _ => None,
        }
    }

    /// The selected arrow, if any (also while it is renamed).
    pub fn selected_arrow(&self) -> (r: Option<ArrowId>)
        ensures
            r == match self.mode {
                Mode::ArrowSelected(id) => Some(id),
                Mode::RenamingArrow(id) => Some(id),
                _ => None::<ArrowId>,
            },
    {
        match self.mode {
            Mode::ArrowSelected(id) => Some(id),
            Mode::RenamingArrow(id) => Some(id),
            _ => None,
        }
    }

    /// The connection point an arrow is being drawn from, if any.
    pub fn arrow_creation_start(&self) -> (r: Option<ConnectionPoint>)
        ensures
            r == match self.mode {
                Mode::CreatingArrow(cp) => Some(cp),
                _ => None::<ConnectionPoint>,
            },
    {
        match self.mode {
            Mode::CreatingArrow(cp) => Some(cp),
            _ => None,
        }
    }

    /// The node being renamed, if any.
    pub fn renaming_node(&self) -> (r: Option<NodeId>)
        ensures
            r == match self.mode {
                Mode::RenamingNode(id) => Some(id),
                _ => None::<NodeId>,
            },
    {
        match self.mode {
            Mode::RenamingNode(id) => Some(id),
            _ => None,
        }
    }

    /// The arrow being renamed, if any.
    pub fn renaming_arrow(&self) -> (r: Option<ArrowId>)
        ensures
            r == match self.mode {
                Mode::RenamingArrow(id) => Some(id),
                _ => None::<ArrowId>,
            },
    {
        match self.mode {
            Mode::RenamingArrow(id) => Some(id),
            _ => None,
        }
    }

    /// Whether the mode refers only to elements of the diagram.
    fn mode_is_live(&self, d: &SadtDiagram) -> (r: bool)
        requires
            d.wf(),
        ensures
            r == self.mode.is_live(*d),
    {
        match self.mode {
            Mode::Idle => true,
            Mode::NodeSelected(id) => d.find_node(id).is_some(),
            Mode::ArrowSelected(id) => d.find_arrow(id).is_some(),
            Mode::DraggingNode(id) => d.find_node(id).is_some(),
            Mode::CreatingArrow(cp) => d.find_node(cp.node_id).is_some(),
            Mode::RenamingNode(id) => d.find_node(id).is_some(),
            Mode::RenamingArrow(id) => d.find_arrow(id).is_some(),
        }
    }

    /// Drops a mode that refers to an element no longer in the diagram.
    fn refresh(&mut self, d: &SadtDiagram)
        requires
            d.wf(),
        ensures
            final(self).mode == old(self).mode.live(*d),
            final(self).mouse_pos == old(self).mouse_pos,
            final(self).renaming_label_text == old(self).renaming_label_text,
    {
        if !self.mode_is_live(d) {
            self.mode = Mode::Idle;
        }
    }

    /// Empties the edit buffer unless a rename is under way.
    fn settle(&mut self)
        ensures
            final(self).mode == old(self).mode,
            final(self).mouse_pos == old(self).mouse_pos,
            final(self).wf(),
            old(self).mode.is_renaming() ==> final(self).renaming_label_text
                == old(self).renaming_label_text,
    {
        match self.mode {
            Mode::RenamingNode(_) => {},
            Mode::RenamingArrow(_) => {},
            _ => {
                self.renaming_label_text = String::new();
            },
        }
    }

    /// The pointer moved with no button held.
    pub fn pointer_hovered(&mut self, t: &Transform, screen_pos: Point)
        requires
            t.wf(),
        ensures
            final(self).mouse_pos == t.spec_screen_to_world(screen_pos),
            final(self).mode == old(self).mode,
            final(self).renaming_label_text == old(self).renaming_label_text,
    {
        self.mouse_pos = t.screen_to_world(screen_pos);
    }

    /// The primary button went down at `screen_pos`. While a pointer gesture
    /// is under way the press is ignored; a rename under way is abandoned.
    /// Otherwise the press is resolved by `press_outcome`.
    pub fn pointer_pressed(&mut self, d: &SadtDiagram, t: &Transform, screen_pos: Point)
        requires
            d.wf(),
            t.wf(),
        ensures
            final(self).wf(),
            final(self).mouse_pos == t.spec_screen_to_world(screen_pos),
            ({
                let m = old(self).mode.live(*d);
                if m.is_gesture() {
                    final(self).mode == m
                } else {
                    final(self).mode == press_outcome(
                        *d,
                        t.spec_screen_to_world(screen_pos),
                        t.zoom as int,
                    )
                }
            }),
            final(self).mode.is_live(*d),
    {
        let w = t.screen_to_world(screen_pos);
        self.mouse_pos = w;
        self.refresh(d);
        match self.mode {
            Mode::DraggingNode(_) => {},
            Mode::CreatingArrow(_) => {},
            _ => {
                self.mode = match find_closest_connection_point(d, w, START_PROBE_RADIUS) {
                    Some(cp) => Mode::CreatingArrow(cp),
                    None => match find_node_at(d, w) {
                        Some(id) => Mode::DraggingNode(id),
                        None => match find_arrow_at(d, w, t.zoom) {
                            Some(id) => Mode::ArrowSelected(id),
                            None => Mode::Idle,
                        },
                    },
                };
                proof {
                    lemma_press_outcome_live(*d, w, t.zoom as int);
                }
            },
        }
        self.settle();
    }

    /// The pointer moved by `screen_delta` to `screen_pos` with the primary
    /// button held: a dragged node moves by the delta's world length.
    pub fn pointer_dragged(
        &mut self,
        d: &mut SadtDiagram,
        t: &Transform,
        screen_pos: Point,
        screen_delta: Vector,
    )
        requires
            old(d).wf(),
            t.wf(),
        ensures
            final(d).wf(),
            final(self).wf(),
            final(self).mouse_pos == t.spec_screen_to_world(screen_pos),
            final(self).mode == old(self).mode.live(*old(d)),
            final(self).mode.is_renaming() ==> final(self).renaming_label_text
                == old(self).renaming_label_text,
            final(d).arrows@ == old(d).arrows@,
            match old(self).mode.live(*old(d)) {
                Mode::DraggingNode(id) => final(d).nodes@ == old(d).moved(
                    id,
                    t.spec_screen_vec_to_world(screen_delta),
                ),
                _ => final(d).nodes@ == old(d).nodes@,
            },
    {
        self.mouse_pos = t.screen_to_world(screen_pos);
        self.refresh(d);
        if let Mode::DraggingNode(id) = self.mode {
            let delta = t.screen_vec_to_world(screen_delta);
            d.move_node(id, delta);
        }
        self.settle();
    }

    /// The primary button came up at `screen_pos`. A drag ends with the node
    /// still selected. An arrow being drawn is finished when a connection
    /// point of another node lies within `RELEASE_PROBE_RADIUS` of the
    /// release, with the type `arrow_type_of` gives, and dropped otherwise;
    /// either way the drawing ends. Returns the identity of the new arrow.
    pub fn pointer_released(&mut self, d: &mut SadtDiagram, t: &Transform, screen_pos: Point) -> (r:
        Option<ArrowId>)
        requires
            old(d).wf(),
            t.wf(),
        ensures
            final(d).wf(),
            final(self).wf(),
            final(self).mouse_pos == t.spec_screen_to_world(screen_pos),
            final(self).mode.is_live(*final(d)),
            final(self).mode.is_renaming() ==> final(self).renaming_label_text
                == old(self).renaming_label_text,
            ({
                let w = t.spec_screen_to_world(screen_pos);
                match old(self).mode.live(*old(d)) {
                    Mode::DraggingNode(id) => {
                        &&& final(self).mode == Mode::NodeSelected(id)
                        &&& r is None
                        &&& final(d).nodes@ == old(d).nodes@
                        &&& final(d).arrows@ == old(d).arrows@
                    },
                    Mode::CreatingArrow(src) => {
                        &&& final(self).mode == Mode::Idle
                        &&& match nearest_connection(
                            old(d).nodes@,
                            w,
                            RELEASE_PROBE_RADIUS as int,
                        ) {
                            Some(tgt) if tgt.node_id != src.node_id => {
                                &&& r is Some
                                &&& SadtDiagram::arrow_added(
                                    *old(d),
                                    *final(d),
                                    src,
                                    tgt,
                                    arrow_type_of(src.side, tgt.side),
                                    None,
                                    r,
                                )
                            },
                            _ => {
                                &&& r is None
                                &&& final(d).nodes@ == old(d).nodes@
                                &&& final(d).arrows@ == old(d).arrows@
                            },
                        }
                    },
                    m => {
                        &&& final(self).mode == m
                        &&& r is None
                        &&& final(d).nodes@ == old(d).nodes@
                        &&& final(d).arrows@ == old(d).arrows@
                    },
                }
            }),
    {
        let w = t.screen_to_world(screen_pos);
        self.mouse_pos = w;
        self.refresh(d);
        let mut r: Option<ArrowId> = None;
        match self.mode {
            Mode::DraggingNode(id) => {
                self.mode = Mode::NodeSelected(id);
            },
            Mode::CreatingArrow(src) => {
                if let Some(tgt) = find_closest_connection_point(d, w, RELEASE_PROBE_RADIUS) {
                    if tgt.node_id != src.node_id {
                        proof {
                            lemma_nearest_is_node(d.nodes@, w, RELEASE_PROBE_RADIUS as int);
                        }
                        r = d.add_arrow(src, tgt, arrow_type_for(src.side, tgt.side), None);
                    }
                }
                self.mode = Mode::Idle;
            },
            _ => {},
        }
        self.settle();
        r
    }

    /// A key went down. Enter confirms a rename and Escape abandons it; Delete
    /// or Backspace deletes the selected element when no gesture or rename is
    /// under way.
    pub fn key_pressed(&mut self, d: &mut SadtDiagram, key: Key)
        requires
            old(d).wf(),
        ensures
            final(d).wf(),
            final(self).wf(),
            final(self).mouse_pos == old(self).mouse_pos,
            final(self).mode.is_live(*final(d)),
            ({
                let m = old(self).mode.live(*old(d));
                let text = old(self).renaming_label_text;
                match (m, key) {
                    (Mode::RenamingNode(id), Key::Enter) => {
                        &&& final(self).mode == Mode::NodeSelected(id)
                        &&& final(d).nodes@ == old(d).renamed(id, text)
                        &&& final(d).arrows@ == old(d).arrows@
                    },
                    (Mode::RenamingArrow(id), Key::Enter) => {
                        &&& final(self).mode == Mode::ArrowSelected(id)
                        &&& final(d).nodes@ == old(d).nodes@
                        &&& final(d).arrows@ == old(d).relabelled(id, label_of(text))
                    },
                    (Mode::RenamingNode(_), Key::Escape) | (Mode::RenamingArrow(_), Key::Escape) => {
                        &&& final(self).mode == after_rename(m)
                        &&& final(d).nodes@ == old(d).nodes@
                        &&& final(d).arrows@ == old(d).arrows@
                    },
                    (Mode::NodeSelected(id), Key::Delete) | (Mode::NodeSelected(id), Key::Backspace) => {
                        &&& final(self).mode == Mode::Idle
                        &&& final(d).nodes@ == old(d).nodes@.remove(old(d).node_index(id))
                        &&& final(d).arrows@ == old(d).arrows@.filter(crate::model::keeps_arrow(id))
                    },
                    (Mode::ArrowSelected(id), Key::Delete) | (Mode::ArrowSelected(id), Key::Backspace) => {
                        &&& final(self).mode == Mode::Idle
                        &&& final(d).nodes@ == old(d).nodes@
                        &&& final(d).arrows@ == old(d).arrows@.remove(old(d).arrow_index(id))
                    },
                    _ => {
                        &&& final(self).mode == m
                        &&& final(d).nodes@ == old(d).nodes@
                        &&& final(d).arrows@ == old(d).arrows@
                        &&& m.is_renaming() ==> final(self).renaming_label_text == text
                    },
                }
            }),
    {
        self.refresh(d);
        match (self.mode, key) {
            (Mode::RenamingNode(id), Key::Enter) => {
                let mut text = String::new();
                core::mem::swap(&mut text, &mut self.renaming_label_text);
                let ghost before = *d;
                d.rename_node(id, text);
                proof {
                    before.lemma_node_index(id);
                    assert(d.nodes@[before.node_index(id)].id == id);
                }
                self.mode = Mode::NodeSelected(id);
            },
            (Mode::RenamingArrow(id), Key::Enter) => {
                let mut text = String::new();
                core::mem::swap(&mut text, &mut self.renaming_label_text);
                let label = if text.as_str().is_empty() {
                    None
                } else {
                    Some(text)
                };
                let ghost before = *d;
                d.set_arrow_label(id, label);
                proof {
                    before.lemma_arrow_index(id);
                    assert(d.arrows@[before.arrow_index(id)].id == id);
                }
                self.mode = Mode::ArrowSelected(id);
            },
            (Mode::RenamingNode(id), Key::Escape) => {
                self.mode = Mode::NodeSelected(id);
            },
            (Mode::RenamingArrow(id), Key::Escape) => {
                self.mode = Mode::ArrowSelected(id);
            },
            (Mode::NodeSelected(_), Key::Delete) | (Mode::NodeSelected(_), Key::Backspace)
            | (Mode::ArrowSelected(_), Key::Delete) | (Mode::ArrowSelected(_), Key::Backspace) => {
                self.delete_selection(d);
            },
            _ => {},
        }
        self.settle();
    }

    /// The rename editor lost focus without Enter: the rename is abandoned.
    pub fn rename_focus_lost(&mut self, d: &SadtDiagram)
        requires
            d.wf(),
        ensures
            final(self).wf(),
            final(self).mouse_pos == old(self).mouse_pos,
            final(self).mode == after_rename(old(self).mode.live(*d)),
    {
        self.refresh(d);
        match self.mode {
            Mode::RenamingNode(id) => {
                self.mode = Mode::NodeSelected(id);
            },
            Mode::RenamingArrow(id) => {
                self.mode = Mode::ArrowSelected(id);
            },
            _ => {},
        }
        self.settle();
    }

    /// Starts renaming the selected node or arrow, seeding the edit buffer
    /// with its current name or label (empty for an arrow without one).
    /// Does nothing when nothing is selected or a gesture is under way.
    pub fn begin_rename(&mut self, d: &SadtDiagram)
        requires
            d.wf(),
        ensures
            final(self).wf(),
            final(self).mouse_pos == old(self).mouse_pos,
            final(self).mode.is_live(*d),
            match old(self).mode.live(*d) {
                Mode::NodeSelected(id) => {
                    &&& final(self).mode == Mode::RenamingNode(id)
                    &&& final(self).renaming_label_text == d.node(id)->0.name
                },
                Mode::ArrowSelected(id) => {
                    &&& final(self).mode == Mode::RenamingArrow(id)
                    &&& match d.arrow(id)->0.label {
                        Some(l) => final(self).renaming_label_text == l,
                        None => final(self).renaming_label_text@.len() == 0,
                    }
                },
                m => {
                    &&& final(self).mode == m
                    &&& m.is_renaming() ==> final(self).renaming_label_text
                        == old(self).renaming_label_text
                },
            },
    {
        self.refresh(d);
        match self.mode {
            Mode::NodeSelected(id) => {
                if let Some(node) = d.get_node(id) {
                    self.renaming_label_text = node.name.clone();
                    self.mode = Mode::RenamingNode(id);
                }
            },
            Mode::ArrowSelected(id) => {
                if let Some(arrow) = d.get_arrow(id) {
                    self.renaming_label_text = match &arrow.label {
                        Some(l) => l.clone(),
                        None => String::new(),
                    };
                    self.mode = Mode::RenamingArrow(id);
                }
            },
            _ => {},
        }
        self.settle();
    }

    /// Deletes the selected node (with its arrows) or arrow, when no gesture
    /// or rename is under way, and deselects it.
    pub fn delete_selection(&mut self, d: &mut SadtDiagram)
        requires
            old(d).wf(),
        ensures
            final(d).wf(),
            final(self).wf(),
            final(self).mouse_pos == old(self).mouse_pos,
            final(self).mode.is_live(*final(d)),
            match old(self).mode.live(*old(d)) {
                Mode::NodeSelected(id) => {
                    &&& final(self).mode == Mode::Idle
                    &&& final(d).nodes@ == old(d).nodes@.remove(old(d).node_index(id))
                    &&& final(d).arrows@ == old(d).arrows@.filter(crate::model::keeps_arrow(id))
                },
                Mode::ArrowSelected(id) => {
                    &&& final(self).mode == Mode::Idle
                    &&& final(d).nodes@ == old(d).nodes@
                    &&& final(d).arrows@ == old(d).arrows@.remove(old(d).arrow_index(id))
                },
                m => {
                    &&& final(self).mode == m
                    &&& final(d).nodes@ == old(d).nodes@
                    &&& final(d).arrows@ == old(d).arrows@
                    &&& m.is_renaming() ==> final(self).renaming_label_text
                        == old(self).renaming_label_text
                },
            },
    {
        self.refresh(d);
        match self.mode {
            Mode::NodeSelected(id) => {
                d.remove_node(id);
                self.mode = Mode::Idle;
            },
            Mode::ArrowSelected(id) => {
                d.remove_arrow(id);
                self.mode = Mode::Idle;
            },
            _ => {},
        }
        self.settle();
    }
}

/// A connection point found near a position belongs to a node of the
/// diagram.
proof fn lemma_nearest_is_node(nodes: Seq<crate::model::ProcessNode>, p: Point, max_dist: int)
    ensures
        nearest_connection(nodes, p, max_dist) matches Some(cp) ==> exists|i: int|
            0 <= i < nodes.len() && (#[trigger] nodes[i]).id == cp.node_id,
{
    if let Some(cp) = nearest_connection(nodes, p, max_dist) {
        let (i, s) = choose|i: int, s: int| crate::spatial::is_nearest(nodes, p, max_dist, i, s);
        assert(nodes[i].id == cp.node_id);
    }
}

/// Every outcome of a press refers to elements of the diagram.
proof fn lemma_press_outcome_live(d: SadtDiagram, w: Point, zoom: int)
    ensures
        press_outcome(d, w, zoom).is_live(d),
{
    lemma_nearest_is_node(d.nodes@, w, START_PROBE_RADIUS as int);
    if let Some(id) = node_at(d.nodes@, w) {
        let i = choose|i: int| crate::spatial::is_node_hit(d.nodes@, w, i);
        assert(d.nodes@[i].id == id);
    }
    if let Some(id) = arrow_at(d, w, zoom) {
        let j = choose|j: int| crate::spatial::is_arrow_hit(d, w, zoom, j);
        assert(d.arrows@[j].id == id);
    }
}

} // verus!
