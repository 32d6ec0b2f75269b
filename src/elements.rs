//! The vocabulary of a diagram: arrow kinds, box sides and connection points.
use vstd::prelude::*;

verus! {

/// Identity of a node.
pub type NodeId = u128;

/// Identity of an arrow.
pub type ArrowId = u128;

/// Role of an arrow with respect to the activity it enters or leaves.
#[derive(Clone, Copy, Debug, PartialEq, Eq, Structural)]
pub enum ArrowType {
    /// Data entering the activity.
    Input,
    /// Data leaving the activity.
    Output,
    /// Constraint or rule guiding the activity.
    Control,
    /// Resource used by the activity.
    Mechanism,
}

/// One of the four sides of a node's rectangle.
#[derive(Clone, Copy, Debug, PartialEq, Eq, Structural)]
pub enum Side {
    Top,
    Bottom,
    Left,
    Right,
}

/// The middle of one side of a node. It refers to the node and owns nothing:
/// its position is recomputed from the node's rectangle whenever it is needed.
#[derive(Clone, Copy, Debug, PartialEq, Eq, Structural)]
pub struct ConnectionPoint {
    pub node_id: NodeId,
    pub side: Side,
}

} // verus!
