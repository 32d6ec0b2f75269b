//! The diagram: nodes and the arrows between them, with their invariants.
//!
//! Nodes and arrows are kept in insertion order, which is the order in which
//! every search walks them. Identities are unique, every arrow joins two
//! distinct nodes of the diagram, and deleting a node deletes its arrows in the
//! same step.
use vstd::prelude::*;
use crate::elements::{ArrowId, ArrowType, ConnectionPoint, NodeId};
use crate::geometry::{clamp, clamp_i128, Point, Rect, Vector, WORLD_LIMIT};
use crate::ids::fresh_id;

verus! {

broadcast use vstd::seq_lib::group_seq_properties, vstd::seq::group_seq_axioms;

/// Width of a new node, in world units.
pub const NODE_WIDTH: i64 = 120;

/// Height of a new node, in world units.
pub const NODE_HEIGHT: i64 = 60;

/// An activity box.
#[derive(Clone, Debug)]
pub struct ProcessNode {
    pub id: NodeId,
    pub name: String,
    /// Position and size in world coordinates.
    pub rect: Rect,
    /// Name of the algorithm attached to the activity, used when code is
    /// generated from the diagram.
    pub algorithm: String,
}

/// A typed, directed connection between sides of two nodes.
#[derive(Clone, Debug)]
pub struct Arrow {
    pub id: ArrowId,
    pub label: Option<String>,
    pub arrow_type: ArrowType,
    pub source: ConnectionPoint,
    pub target: ConnectionPoint,
}

impl Arrow {
    /// The arrow leaves or enters node `id`.
    pub open spec fn touches(self, id: NodeId) -> bool {
        self.source.node_id == id || self.target.node_id == id
    }
}

/// The arrows that survive the deletion of node `id`.
pub open spec fn keeps_arrow(id: NodeId) -> spec_fn(Arrow) -> bool {
    |a: Arrow| !a.touches(id)
}

/// The rectangle of a node created at `pos`: the default size, anchored at
/// `pos` and held inside the world.
pub open spec fn default_rect(pos: Point) -> Rect {
    let x = clamp(pos.x as int, -WORLD_LIMIT as int, WORLD_LIMIT - NODE_WIDTH);
    let y = clamp(pos.y as int, -WORLD_LIMIT as int, WORLD_LIMIT - NODE_HEIGHT);
    Rect {
        min: Point { x: x as i64, y: y as i64 },
        max: Point { x: (x + NODE_WIDTH) as i64, y: (y + NODE_HEIGHT) as i64 },
    }
}

/// A filter that every element passes changes nothing.
proof fn lemma_filter_keeps_all<A>(s: Seq<A>, f: spec_fn(A) -> bool)
    requires
        forall|i: int| 0 <= i < s.len() ==> f(#[trigger] s[i]),
    ensures
        s.filter(f) == s,
    decreases s.len(),
{
    reveal(Seq::filter);
    if s.len() > 0 {
        lemma_filter_keeps_all(s.drop_last(), f);
        assert(s.drop_last().push(s.last()) =~= s);
    }
}

/// A diagram of activities and arrows.
#[derive(Clone, Debug)]
pub struct SadtDiagram {
    pub nodes: Vec<ProcessNode>,
    pub arrows: Vec<Arrow>,
}

impl SadtDiagram {
    pub open spec fn has_node(self, id: NodeId) -> bool {
        exists|i: int| 0 <= i < self.nodes@.len() && (#[trigger] self.nodes@[i]).id == id
    }

    pub open spec fn has_arrow(self, id: ArrowId) -> bool {
        exists|i: int| 0 <= i < self.arrows@.len() && (#[trigger] self.arrows@[i]).id == id
    }

    /// Position of node `id` in the node list (meaningful when it is there).
    pub open spec fn node_index(self, id: NodeId) -> int {
        choose|i: int| 0 <= i < self.nodes@.len() && (#[trigger] self.nodes@[i]).id == id
    }

    /// Position of arrow `id` in the arrow list (meaningful when it is there).
    pub open spec fn arrow_index(self, id: ArrowId) -> int {
        choose|i: int| 0 <= i < self.arrows@.len() && (#[trigger] self.arrows@[i]).id == id
    }

    /// Node `id`, if the diagram holds it.
    pub open spec fn node(self, id: NodeId) -> Option<ProcessNode> {
        if self.has_node(id) {
            Some(self.nodes@[self.node_index(id)])
        } else {
            None
        }
    }

    /// Arrow `id`, if the diagram holds it.
    pub open spec fn arrow(self, id: ArrowId) -> Option<Arrow> {
        if self.has_arrow(id) {
            Some(self.arrows@[self.arrow_index(id)])
        } else {
            None
        }
    }

    /// Both ends of the arrow are nodes of the diagram, and they differ.
    pub open spec fn arrow_ok(self, a: Arrow) -> bool {
        &&& self.has_node(a.source.node_id)
        &&& self.has_node(a.target.node_id)
        &&& a.source.node_id != a.target.node_id
    }

    pub open spec fn nodes_unique(self) -> bool {
        forall|i: int, j: int|
            0 <= i < self.nodes@.len() && 0 <= j < self.nodes@.len() && i != j ==> (#[trigger] self.nodes@[i]).id
                != (#[trigger] self.nodes@[j]).id
    }

    pub open spec fn arrows_unique(self) -> bool {
        forall|i: int, j: int|
            0 <= i < self.arrows@.len() && 0 <= j < self.arrows@.len() && i != j ==> (#[trigger] self.arrows@[i]).id
                != (#[trigger] self.arrows@[j]).id
    }

    /// The structural invariants: identities are unique, every rectangle is
    /// well formed, and every arrow joins two distinct nodes of the diagram.
    pub open spec fn wf(self) -> bool {
        &&& self.nodes_unique()
        &&& self.arrows_unique()
        &&& forall|i: int| 0 <= i < self.nodes@.len() ==> (#[trigger] self.nodes@[i]).rect.wf()
        &&& forall|i: int| 0 <= i < self.arrows@.len() ==> self.arrow_ok(#[trigger] self.arrows@[i])
    }

    /// In a well-formed diagram, the node found for an identity carries it,
    /// and it is the only one that does.
    pub proof fn lemma_node_index(self, id: NodeId)
        requires
            self.nodes_unique(),
            self.has_node(id),
        ensures
            0 <= self.node_index(id) < self.nodes@.len(),
            self.nodes@[self.node_index(id)].id == id,
            forall|i: int|
                0 <= i < self.nodes@.len() && (#[trigger] self.nodes@[i]).id == id ==> i
                    == self.node_index(id),
    {
    }

    /// In a well-formed diagram, the arrow found for an identity carries it,
    /// and it is the only one that does.
    pub proof fn lemma_arrow_index(self, id: ArrowId)
        requires
            self.arrows_unique(),
            self.has_arrow(id),
        ensures
            0 <= self.arrow_index(id) < self.arrows@.len(),
            self.arrows@[self.arrow_index(id)].id == id,
            forall|i: int|
                0 <= i < self.arrows@.len() && (#[trigger] self.arrows@[i]).id == id ==> i
                    == self.arrow_index(id),
    {
    }

    /// An empty diagram.
    pub fn new() -> (d: SadtDiagram)
        ensures
            d.wf(),
            d.nodes@.len() == 0,
            d.arrows@.len() == 0,
    {
        SadtDiagram { nodes: Vec::new(), arrows: Vec::new() }
    }

    /// Position of node `id` in the node list, if it is there.
    pub fn find_node(&self, id: NodeId) -> (r: Option<usize>)
        requires
            self.nodes_unique(),
        ensures
            match r {
                Some(i) => self.has_node(id) && i == self.node_index(id),
                None => !self.has_node(id),
            },
    {
        let mut i: usize = 0;
        while i < self.nodes.len()
            invariant
                self.nodes_unique(),
                0 <= i <= self.nodes@.len(),
                forall|k: int| 0 <= k < i ==> (#[trigger] self.nodes@[k]).id != id,
            decreases self.nodes@.len() - i,
        {
            if self.nodes[i].id == id {
                proof {
                    self.lemma_node_index(id);
                }
                return Some(i);
            }
            i += 1;
        }
        None
    }

    /// Position of arrow `id` in the arrow list, if it is there.
    pub fn find_arrow(&self, id: ArrowId) -> (r: Option<usize>)
        requires
            self.arrows_unique(),
        ensures
            match r {
                Some(i) => self.has_arrow(id) && i == self.arrow_index(id),
                None => !self.has_arrow(id),
            },
    {
        let mut i: usize = 0;
        while i < self.arrows.len()
            invariant
                self.arrows_unique(),
                0 <= i <= self.arrows@.len(),
                forall|k: int| 0 <= k < i ==> (#[trigger] self.arrows@[k]).id != id,
            decreases self.arrows@.len() - i,
        {
            if self.arrows[i].id == id {
                proof {
                    self.lemma_arrow_index(id);
                }
                return Some(i);
            }
            i += 1;
        }
        None
    }

    fn node_ids(&self) -> (ids: Vec<u128>)
        ensures
            ids@.len() == self.nodes@.len(),
            forall|i: int| 0 <= i < ids@.len() ==> ids@[i] == (#[trigger] self.nodes@[i]).id,
    {
        let mut ids: Vec<u128> = Vec::new();
        let mut i: usize = 0;
        while i < self.nodes.len()
            invariant
                0 <= i <= self.nodes@.len(),
                ids@.len() == i,
                forall|k: int| 0 <= k < i ==> ids@[k] == (#[trigger] self.nodes@[k]).id,
            decreases self.nodes@.len() - i,
        {
            ids.push(self.nodes[i].id);
            i += 1;
        }
        ids
    }

    fn arrow_ids(&self) -> (ids: Vec<u128>)
        ensures
            ids@.len() == self.arrows@.len(),
            forall|i: int| 0 <= i < ids@.len() ==> ids@[i] == (#[trigger] self.arrows@[i]).id,
    {
        let mut ids: Vec<u128> = Vec::new();
        let mut i: usize = 0;
        while i < self.arrows.len()
            invariant
                0 <= i <= self.arrows@.len(),
                ids@.len() == i,
                forall|k: int| 0 <= k < i ==> ids@[k] == (#[trigger] self.arrows@[k]).id,
            decreases self.arrows@.len() - i,
        {
            ids.push(self.arrows[i].id);
            i += 1;
        }
        ids
    }

    /// Adds a node named `name` with the default size at `pos` (held inside
    /// the world) and returns its fresh identity. Never fails.
    pub fn add_node(&mut self, name: String, pos: Point) -> (id: NodeId)
        requires
            old(self).wf(),
        ensures
            final(self).wf(),
            !old(self).has_node(id),
            final(self).arrows@ == old(self).arrows@,
            final(self).nodes@.len() == old(self).nodes@.len() + 1,
            final(self).nodes@.drop_last() == old(self).nodes@,
            final(self).nodes@.last().id == id,
            final(self).nodes@.last().name == name,
            final(self).nodes@.last().rect == default_rect(pos),
            final(self).nodes@.last().algorithm@ == "add"@,
    {
        let ids = self.node_ids();
        let id = fresh_id(&ids);
        let x = clamp_i128(pos.x as i128, -WORLD_LIMIT, WORLD_LIMIT - NODE_WIDTH);
        let y = clamp_i128(pos.y as i128, -WORLD_LIMIT, WORLD_LIMIT - NODE_HEIGHT);
        let rect = Rect {
            min: Point { x, y },
            max: Point { x: x + NODE_WIDTH, y: y + NODE_HEIGHT },
        };
        let node = ProcessNode { id, name, rect, algorithm: String::from_str("add") };
        proof {
            assert forall|i: int| 0 <= i < old(self).nodes@.len() implies (#[trigger] old(
                self,
            ).nodes@[i]).id != id by {
                assert(ids@[i] == old(self).nodes@[i].id);
            }
        }
        let ghost before = *self;
        self.nodes.push(node);
        proof {
            assert(self.nodes@.drop_last() =~= before.nodes@);
            assert forall|a: Arrow| before.arrow_ok(a) implies self.arrow_ok(a) by {
                let i = choose|i: int|
                    0 <= i < before.nodes@.len() && (#[trigger] before.nodes@[i]).id
                        == a.source.node_id;
                let j = choose|j: int|
                    0 <= j < before.nodes@.len() && (#[trigger] before.nodes@[j]).id
                        == a.target.node_id;
                assert(self.nodes@[i] == before.nodes@[i]);
                assert(self.nodes@[j] == before.nodes@[j]);
            }
            assert forall|i: int| 0 <= i < self.arrows@.len() implies self.arrow_ok(
                #[trigger] self.arrows@[i],
            ) by {
                assert(before.arrow_ok(before.arrows@[i]));
            }
        }
        id
    }

    /// An arrow from `source` to `target` may be added: both nodes are in
    /// the diagram and they differ.
    pub open spec fn arrow_allowed(self, source: ConnectionPoint, target: ConnectionPoint) -> bool {
        &&& self.has_node(source.node_id)
        &&& self.has_node(target.node_id)
        &&& source.node_id != target.node_id
    }

    /// What `add_arrow` does: it succeeds exactly when the arrow is allowed,
    /// then appends the arrow under a fresh identity; otherwise nothing
    /// changes. The nodes are untouched either way.
    pub open spec fn arrow_added(
        before: SadtDiagram,
        after: SadtDiagram,
        source: ConnectionPoint,
        target: ConnectionPoint,
        arrow_type: ArrowType,
        label: Option<String>,
        r: Option<ArrowId>,
    ) -> bool {
        &&& r.is_some() == before.arrow_allowed(source, target)
        &&& after.nodes@ == before.nodes@
        &&& match r {
            Some(id) => {
                &&& !before.has_arrow(id)
                &&& after.arrows@ == before.arrows@.push(
                    (Arrow { id, label, arrow_type, source, target }),
                )
            },
            None => after.arrows@ == before.arrows@,
        }
    }

    /// Adds an arrow from `source` to `target` and returns its fresh
    /// identity, or adds nothing and returns `None` when an end names a node
    /// that is not in the diagram or both ends name the same node.
    pub fn add_arrow(
        &mut self,
        source: ConnectionPoint,
        target: ConnectionPoint,
        arrow_type: ArrowType,
        label: Option<String>,
    ) -> (r: Option<ArrowId>)
        requires
            old(self).wf(),
        ensures
            final(self).wf(),
            Self::arrow_added(*old(self), *final(self), source, target, arrow_type, label, r),
    {
        let src = self.find_node(source.node_id);
        let tgt = self.find_node(target.node_id);
        if src.is_none() || tgt.is_none() || source.node_id == target.node_id {
            return None;
        }
        let ids = self.arrow_ids();
        let id = fresh_id(&ids);
        proof {
            assert forall|i: int| 0 <= i < old(self).arrows@.len() implies (#[trigger] old(
                self,
            ).arrows@[i]).id != id by {
                assert(ids@[i] == old(self).arrows@[i].id);
            }
        }
        let ghost before = *self;
        self.arrows.push(Arrow { id, label, arrow_type, source, target });
        proof {
            let n = before.arrows@.len() as int;
            assert forall|j: int| 0 <= j < self.arrows@.len() implies self.arrow_ok(
                #[trigger] self.arrows@[j],
            ) by {
                if j < n {
                    assert(before.arrow_ok(before.arrows@[j]));
                } else {
                    assert(before.has_node(source.node_id));
                    assert(before.has_node(target.node_id));
                    assert(self.nodes@ == before.nodes@);
                }
            }
            assert forall|j: int, l: int|
                0 <= j < self.arrows@.len() && 0 <= l < self.arrows@.len() && j != l
                    implies (#[trigger] self.arrows@[j]).id != (#[trigger] self.arrows@[l]).id by {
                if j < n && l < n {
                    assert(self.arrows@[j] == before.arrows@[j]);
                    assert(self.arrows@[l] == before.arrows@[l]);
                } else if j < n {
                    assert(self.arrows@[j] == before.arrows@[j]);
                } else if l < n {
                    assert(self.arrows@[l] == before.arrows@[l]);
                }
            }
        }
        Some(id)
    }

    /// Node `id`, if the diagram holds it.
    pub fn get_node(&self, id: NodeId) -> (r: Option<&ProcessNode>)
        requires
            self.wf(),
        ensures
            r matches Some(n) ==> self.node(id) == Some(*n),
            r is None ==> self.node(id) is None,
    {
        match self.find_node(id) {
            Some(i) => Some(&self.nodes[i]),
            None => None,
        }
    }

    /// Arrow `id`, if the diagram holds it.
    pub fn get_arrow(&self, id: ArrowId) -> (r: Option<&Arrow>)
        requires
            self.wf(),
        ensures
            r matches Some(a) ==> self.arrow(id) == Some(*a),
            r is None ==> self.arrow(id) is None,
    {
        match self.find_arrow(id) {
            Some(i) => Some(&self.arrows[i]),
            None => None,
        }
    }

    /// Removes arrow `id` and returns it; `None`, with nothing changed, when
    /// the diagram does not hold it.
    pub fn remove_arrow(&mut self, id: ArrowId) -> (r: Option<Arrow>)
        requires
            old(self).wf(),
        ensures
            final(self).wf(),
            final(self).nodes@ == old(self).nodes@,
            r == old(self).arrow(id),
            match r {
                Some(_) => final(self).arrows@ == old(self).arrows@.remove(
                    old(self).arrow_index(id),
                ),
                None => final(self).arrows@ == old(self).arrows@,
            },
    {
        match self.find_arrow(id) {
            Some(i) => {
                let ghost before = *self;
                let a = self.arrows.remove(i);
                proof {
                    assert forall|j: int| 0 <= j < self.arrows@.len() implies self.arrow_ok(
                        #[trigger] self.arrows@[j],
                    ) by {
                        let j2 = if j < i { j } else { j + 1 };
                        assert(self.arrows@[j] == before.arrows@[j2]);
                        assert(before.arrow_ok(before.arrows@[j2]));
                        assert(self.nodes@ == before.nodes@);
                    }
                    assert forall|j: int, k: int|
                        0 <= j < self.arrows@.len() && 0 <= k < self.arrows@.len() && j != k
                            implies (#[trigger] self.arrows@[j]).id
                            != (#[trigger] self.arrows@[k]).id by {
                        let j2 = if j < i { j } else { j + 1 };
                        let k2 = if k < i { k } else { k + 1 };
                        assert(before.arrows@[j2] != before.arrows@[k2] || j2 == k2);
                        assert(self.arrows@[j] == before.arrows@[j2]);
                        assert(self.arrows@[k] == before.arrows@[k2]);
                    }
                }
                Some(a)
            },
            None => None,
        }
    }

    /// Removes the arrows that leave or enter node `id`, keeping the others
    /// in order.
    fn remove_arrows_of(&mut self, id: NodeId)
        requires
            old(self).wf(),
        ensures
            final(self).nodes@ == old(self).nodes@,
            final(self).arrows@ == old(self).arrows@.filter(keeps_arrow(id)),
            final(self).arrows_unique(),
            forall|j: int|
                0 <= j < final(self).arrows@.len() ==> old(self).arrow_ok(
                    #[trigger] final(self).arrows@[j],
                ) && !final(self).arrows@[j].touches(id),
    {
        let ghost start = *self;
        let ghost n = start.arrows@.len() as int;
        let ghost f = keeps_arrow(id);
        let ghost mut k: int = 0;
        let mut i: usize = 0;
        proof {
            assert(start.arrows@.subrange(0, 0).filter(f) =~= Seq::<Arrow>::empty()) by {
                reveal(Seq::filter);
            }
            assert(self.arrows@ =~= start.arrows@.subrange(0, 0).filter(f) + start.arrows@.subrange(0, n));
        }
        while i < self.arrows.len()
            invariant
                0 <= k <= n,
                n == start.arrows@.len(),
                f == keeps_arrow(id),
                self.nodes@ == start.nodes@,
                i == start.arrows@.subrange(0, k).filter(f).len(),
                self.arrows@ == start.arrows@.subrange(0, k).filter(f) + start.arrows@.subrange(k, n),
                self.arrows_unique(),
                forall|j: int| 0 <= j < self.arrows@.len() ==> start.arrow_ok(#[trigger] self.arrows@[j]),
                forall|j: int| 0 <= j < i ==> !(#[trigger] self.arrows@[j]).touches(id),
            decreases self.arrows@.len() - i,
        {
            let ghost cur = self.arrows@;
            let ghost prefix = start.arrows@.subrange(0, k);
            proof {
                assert(start.arrows@.subrange(0, k + 1) =~= prefix.push(start.arrows@[k]));
                prefix.lemma_filter_push(start.arrows@[k], f);
                assert(cur[i as int] == start.arrows@[k]);
            }
            if self.arrows[i].source.node_id == id || self.arrows[i].target.node_id == id {
                self.arrows.remove(i);
                proof {
                    assert(self.arrows@ =~= start.arrows@.subrange(0, k + 1).filter(f)
                        + start.arrows@.subrange(k + 1, n));
                    assert forall|j: int, l: int|
                        0 <= j < self.arrows@.len() && 0 <= l < self.arrows@.len() && j != l
                            implies (#[trigger] self.arrows@[j]).id
                            != (#[trigger] self.arrows@[l]).id by {
                        let j2 = if j < i { j } else { j + 1 };
                        let l2 = if l < i { l } else { l + 1 };
                        assert(self.arrows@[j] == cur[j2]);
                        assert(self.arrows@[l] == cur[l2]);
                    }
                    assert forall|j: int| 0 <= j < self.arrows@.len() implies start.arrow_ok(
                        #[trigger] self.arrows@[j],
                    ) by {
                        let j2 = if j < i { j } else { j + 1 };
                        assert(self.arrows@[j] == cur[j2]);
                    }
                    assert forall|j: int| 0 <= j < i implies !(
                    #[trigger] self.arrows@[j]).touches(id) by {
                        assert(self.arrows@[j] == cur[j]);
                    }
                }
            } else {
                proof {
                    assert(self.arrows@ =~= start.arrows@.subrange(0, k + 1).filter(f)
                        + start.arrows@.subrange(k + 1, n));
                }
                i += 1;
            }
            proof {
                k = k + 1;
            }
        }
        proof {
            assert(start.arrows@.subrange(0, n) =~= start.arrows@);
            assert(self.arrows@ =~= start.arrows@.filter(f));
        }
    }

    /// Removes node `id` together with every arrow that leaves or enters it,
    /// in one step, and returns the node; `None`, with nothing changed, when
    /// the diagram does not hold it.
    pub fn remove_node(&mut self, id: NodeId) -> (r: Option<ProcessNode>)
        requires
            old(self).wf(),
        ensures
            final(self).wf(),
            r == old(self).node(id),
            final(self).arrows@ == old(self).arrows@.filter(keeps_arrow(id)),
            match r {
                Some(_) => final(self).nodes@ == old(self).nodes@.remove(old(self).node_index(id)),
                None => final(self).nodes@ == old(self).nodes@,
            },
    {
        match self.find_node(id) {
            Some(i) => {
                let ghost start = *self;
                self.remove_arrows_of(id);
                let ghost mid = *self;
                let node = self.nodes.remove(i);
                proof {
                    assert forall|j: int, l: int|
                        0 <= j < self.nodes@.len() && 0 <= l < self.nodes@.len() && j != l
                            implies (#[trigger] self.nodes@[j]).id
                            != (#[trigger] self.nodes@[l]).id by {
                        let j2 = if j < i { j } else { j + 1 };
                        let l2 = if l < i { l } else { l + 1 };
                        assert(self.nodes@[j] == start.nodes@[j2]);
                        assert(self.nodes@[l] == start.nodes@[l2]);
                    }
                    assert forall|j: int| 0 <= j < self.nodes@.len() implies (
                    #[trigger] self.nodes@[j]).rect.wf() by {
                        let j2 = if j < i { j } else { j + 1 };
                        assert(self.nodes@[j] == start.nodes@[j2]);
                    }
                    assert forall|nid: NodeId| start.has_node(nid) && nid != id implies self.has_node(nid) by {
                        let j = choose|j: int| 0 <= j < start.nodes@.len() && (#[trigger] start.nodes@[j]).id == nid;
                        assert(j != i);
                        let j2 = if j < i { j } else { j - 1 };
                        assert(self.nodes@[j2] == start.nodes@[j]);
                    }
                    assert forall|j: int| 0 <= j < self.arrows@.len() implies self.arrow_ok(
                        #[trigger] self.arrows@[j],
                    ) by {
                        assert(start.arrow_ok(mid.arrows@[j]));
                        assert(!mid.arrows@[j].touches(id));
                    }
                }
                Some(node)
            },
            None => {
                proof {
                    assert forall|j: int| 0 <= j < self.arrows@.len() implies keeps_arrow(id)(
                        #[trigger] self.arrows@[j],
                    ) by {
                        assert(self.arrow_ok(self.arrows@[j]));
                    }
                    lemma_filter_keeps_all(self.arrows@, keeps_arrow(id));
                }
                None
            },
        }
    }

    /// The node list with node `id` renamed to `name`.
    pub open spec fn renamed(self, id: NodeId, name: String) -> Seq<ProcessNode> {
        let n = self.nodes@[self.node_index(id)];
        self.nodes@.update(
            self.node_index(id),
            (ProcessNode { id: n.id, name, rect: n.rect, algorithm: n.algorithm }),
        )
    }

    /// Gives node `id` the name `name`; returns whether the diagram holds the
    /// node (nothing changes when it does not).
    pub fn rename_node(&mut self, id: NodeId, name: String) -> (r: bool)
        requires
            old(self).wf(),
        ensures
            final(self).wf(),
            r == old(self).has_node(id),
            final(self).arrows@ == old(self).arrows@,
            final(self).nodes@ == if r {
                old(self).renamed(id, name)
            } else {
                old(self).nodes@
            },
    {
        match self.find_node(id) {
            Some(i) => {
                let ghost before = *self;
                self.nodes[i].name = name;
                proof {
                    assert(self.nodes@ =~= before.renamed(id, name));
                    self.lemma_same_ids(before);
                }
                true
            },
            None => false,
        }
    }

    /// The arrow list with the label of arrow `id` replaced by `label`.
    pub open spec fn relabelled(self, id: ArrowId, label: Option<String>) -> Seq<Arrow> {
        let a = self.arrows@[self.arrow_index(id)];
        self.arrows@.update(
            self.arrow_index(id),
            (Arrow {
                id: a.id,
                label,
                arrow_type: a.arrow_type,
                source: a.source,
                target: a.target,
            }),
        )
    }

    /// Gives arrow `id` the label `label`; returns whether the diagram holds
    /// the arrow (nothing changes when it does not).
    pub fn set_arrow_label(&mut self, id: ArrowId, label: Option<String>) -> (r: bool)
        requires
            old(self).wf(),
        ensures
            final(self).wf(),
            r == old(self).has_arrow(id),
            final(self).nodes@ == old(self).nodes@,
            final(self).arrows@ == if r {
                old(self).relabelled(id, label)
            } else {
                old(self).arrows@
            },
    {
        match self.find_arrow(id) {
            Some(i) => {
                let ghost before = *self;
                self.arrows[i].label = label;
                proof {
                    assert(self.arrows@ =~= before.relabelled(id, label));
                    assert forall|j: int| 0 <= j < self.arrows@.len() implies self.arrow_ok(
                        #[trigger] self.arrows@[j],
                    ) by {
                        assert(before.arrow_ok(before.arrows@[j]));
                        assert(self.arrows@[j].source == before.arrows@[j].source);
                        assert(self.arrows@[j].target == before.arrows@[j].target);
                        assert(self.nodes@ == before.nodes@);
                    }
                    assert forall|j: int, l: int|
                        0 <= j < self.arrows@.len() && 0 <= l < self.arrows@.len() && j != l
                            implies (#[trigger] self.arrows@[j]).id
                            != (#[trigger] self.arrows@[l]).id by {
                        assert(before.arrows@[j].id != before.arrows@[l].id);
                    }
                }
                true
            },
            None => false,
        }
    }

    /// The node list with node `id` moved by `delta`, held inside the world.
    pub open spec fn moved(self, id: NodeId, delta: Vector) -> Seq<ProcessNode> {
        let n = self.nodes@[self.node_index(id)];
        self.nodes@.update(
            self.node_index(id),
            (ProcessNode {
                id: n.id,
                name: n.name,
                rect: n.rect.spec_translate(delta),
                algorithm: n.algorithm,
            }),
        )
    }

    /// Moves node `id` by the world displacement `delta`, held inside the
    /// world; returns whether the diagram holds the node (nothing changes when
    /// it does not). Arrows follow, as their ends are recomputed from the
    /// rectangle.
    pub fn move_node(&mut self, id: NodeId, delta: Vector) -> (r: bool)
        requires
            old(self).wf(),
        ensures
            final(self).wf(),
            r == old(self).has_node(id),
            final(self).arrows@ == old(self).arrows@,
            final(self).nodes@ == if r {
                old(self).moved(id, delta)
            } else {
                old(self).nodes@
            },
    {
        match self.find_node(id) {
            Some(i) => {
                let ghost before = *self;
                let rect = self.nodes[i].rect.translate(delta);
                self.nodes[i].rect = rect;
                proof {
                    assert(self.nodes@ =~= before.moved(id, delta));
                    self.lemma_same_ids(before);
                }
                true
            },
            None => false,
        }
    }

    /// Replacing nodes by nodes with the same identities and well-formed
    /// rectangles keeps the diagram well formed.
    proof fn lemma_same_ids(self, before: SadtDiagram)
        requires
            before.wf(),
            self.arrows@ == before.arrows@,
            self.nodes@.len() == before.nodes@.len(),
            forall|j: int|
                0 <= j < self.nodes@.len() ==> (#[trigger] self.nodes@[j]).id
                    == before.nodes@[j].id && self.nodes@[j].rect.wf(),
        ensures
            self.wf(),
    {
        assert forall|nid: NodeId| before.has_node(nid) implies self.has_node(nid) by {
            let j = choose|j: int|
                0 <= j < before.nodes@.len() && (#[trigger] before.nodes@[j]).id == nid;
            assert(self.nodes@[j].id == nid);
        }
        assert forall|j: int| 0 <= j < self.arrows@.len() implies self.arrow_ok(
            #[trigger] self.arrows@[j],
        ) by {
            assert(before.arrow_ok(before.arrows@[j]));
        }
        assert forall|j: int, l: int|
            0 <= j < self.nodes@.len() && 0 <= l < self.nodes@.len() && j != l
                implies (#[trigger] self.nodes@[j]).id != (#[trigger] self.nodes@[l]).id by {
            assert(before.nodes@[j].id != before.nodes@[l].id);
        }
    }

    /// Node `id` for change in place, if the diagram holds it. The caller is
    /// answerable for keeping the node's identity and rectangle valid: the
    /// diagram's invariant is not promised afterwards.
    pub fn get_node_mut(&mut self, id: NodeId) -> (r: Option<&mut ProcessNode>)
        requires
            old(self).wf(),
        ensures
            final(self).arrows@ == old(self).arrows@,
            match r {
                Some(n) => {
                    &&& old(self).has_node(id)
                    &&& *n == old(self).nodes@[old(self).node_index(id)]
                    &&& final(self).nodes@ == old(self).nodes@.update(
                        old(self).node_index(id),
                        *final(n),
                    )
                },
                None => !old(self).has_node(id) && final(self).nodes@ == old(self).nodes@,
            },
    {
        match self.find_node(id) {
            Some(i) => Some(&mut self.nodes[i]),
            None => None,
        }
    }
    /// Adds `node` as it is, identity included, as when a saved diagram is
    /// read back. Refused, with nothing changed, when the identity is already
    /// taken or the rectangle is not well formed.
    pub fn insert_node(&mut self, node: ProcessNode) -> (r: bool)
        requires
            old(self).wf(),
        ensures
            final(self).wf(),
            r == (!old(self).has_node(node.id) && node.rect.wf()),
            final(self).arrows@ == old(self).arrows@,
            final(self).nodes@ == if r {
                old(self).nodes@.push(node)
            } else {
                old(self).nodes@
            },
    {
        if self.find_node(node.id).is_some() || !node.rect.is_wf() {
            return false;
        }
        let ghost before = *self;
        self.nodes.push(node);
        proof {
            assert forall|a: Arrow| before.arrow_ok(a) implies self.arrow_ok(a) by {
                let i = choose|i: int|
                    0 <= i < before.nodes@.len() && (#[trigger] before.nodes@[i]).id
                        == a.source.node_id;
                let j = choose|j: int|
                    0 <= j < before.nodes@.len() && (#[trigger] before.nodes@[j]).id
                        == a.target.node_id;
                assert(self.nodes@[i] == before.nodes@[i]);
                assert(self.nodes@[j] == before.nodes@[j]);
            }
            assert forall|i: int| 0 <= i < self.arrows@.len() implies self.arrow_ok(
                #[trigger] self.arrows@[i],
            ) by {
                assert(before.arrow_ok(before.arrows@[i]));
            }
            let n = before.nodes@.len() as int;
            assert forall|j: int, l: int|
                0 <= j < self.nodes@.len() && 0 <= l < self.nodes@.len() && j != l
                    implies (#[trigger] self.nodes@[j]).id != (#[trigger] self.nodes@[l]).id by {
                if j < n {
                    assert(self.nodes@[j] == before.nodes@[j]);
                }
                if l < n {
                    assert(self.nodes@[l] == before.nodes@[l]);
                }
            }
        }
        true
    }

    /// Adds `arrow` as it is, identity included, as when a saved diagram is
    /// read back. Refused, with nothing changed, when the identity is already
    /// taken or the arrow is not allowed (see `arrow_allowed`).
    pub fn insert_arrow(&mut self, arrow: Arrow) -> (r: bool)
        requires
            old(self).wf(),
        ensures
            final(self).wf(),
            r == (!old(self).has_arrow(arrow.id) && old(self).arrow_allowed(
                arrow.source,
                arrow.target,
            )),
            final(self).nodes@ == old(self).nodes@,
            final(self).arrows@ == if r {
                old(self).arrows@.push(arrow)
            } else {
                old(self).arrows@
            },
    {
        let src = self.find_node(arrow.source.node_id);
        let tgt = self.find_node(arrow.target.node_id);
        if self.find_arrow(arrow.id).is_some() || src.is_none() || tgt.is_none()
            || arrow.source.node_id == arrow.target.node_id {
            return false;
        }
        let ghost before = *self;
        self.arrows.push(arrow);
        proof {
            let n = before.arrows@.len() as int;
            assert forall|j: int| 0 <= j < self.arrows@.len() implies self.arrow_ok(
                #[trigger] self.arrows@[j],
            ) by {
                if j < n {
                    assert(before.arrow_ok(before.arrows@[j]));
                } else {
                    assert(before.has_node(arrow.source.node_id));
                    assert(before.has_node(arrow.target.node_id));
                    assert(self.nodes@ == before.nodes@);
                }
            }
            assert forall|j: int, l: int|
                0 <= j < self.arrows@.len() && 0 <= l < self.arrows@.len() && j != l
                    implies (#[trigger] self.arrows@[j]).id != (#[trigger] self.arrows@[l]).id by {
                if j < n {
                    assert(self.arrows@[j] == before.arrows@[j]);
                }
                if l < n {
                    assert(self.arrows@[l] == before.arrows@[l]);
                }
            }
        }
        true
    }
}

/// Deleting a node leaves no arrow that leaves or enters it, and keeps every
/// other arrow.
pub proof fn lemma_remove_node_detaches(d: SadtDiagram, n: NodeId)
    requires
        d.wf(),
        d.has_node(n),
    ensures
        ({
            let left = d.arrows@.filter(keeps_arrow(n));
            &&& forall|i: int| 0 <= i < left.len() ==> !(#[trigger] left[i]).touches(n)
            &&& forall|a: Arrow| d.arrows@.contains(a) && !a.touches(n) ==> left.contains(a)
        }),
{
    let left = d.arrows@.filter(keeps_arrow(n));
    assert forall|i: int| 0 <= i < left.len() implies !(#[trigger] left[i]).touches(n) by {
        d.arrows@.lemma_filter_pred(keeps_arrow(n), i);
    }
    assert forall|a: Arrow| d.arrows@.contains(a) && !a.touches(n) implies left.contains(a) by {
        let i = choose|i: int| 0 <= i < d.arrows@.len() && d.arrows@[i] == a;
        d.arrows@.lemma_filter_contains(keeps_arrow(n), i);
    }
}

/// Connecting sides of two distinct nodes of a diagram succeeds, and the new
/// arrow, looked up by the identity returned, leaves the first node and enters
/// the second; connecting a node to itself fails and changes nothing.
pub proof fn lemma_add_arrow_links(
    d: SadtDiagram,
    after: SadtDiagram,
    source: ConnectionPoint,
    target: ConnectionPoint,
    arrow_type: ArrowType,
    label: Option<String>,
    r: Option<ArrowId>,
)
    requires
        d.wf(),
        SadtDiagram::arrow_added(d, after, source, target, arrow_type, label, r),
    ensures
        d.has_node(source.node_id) && d.has_node(target.node_id) && source.node_id
            != target.node_id ==> {
            &&& r is Some
            &&& after.arrow(r->0) matches Some(a) && a.source.node_id == source.node_id
                && a.target.node_id == target.node_id
        },
        source.node_id == target.node_id ==> r is None && after.arrows@ == d.arrows@,
{
    if let Some(id) = r {
        let n = d.arrows@.len() as int;
        assert(after.arrows@[n].id == id);
        assert forall|j: int| 0 <= j < after.arrows@.len() && (#[trigger] after.arrows@[j]).id
            == id implies j == n by {
            if j < n {
                assert(after.arrows@[j] == d.arrows@[j]);
            }
        }
        assert(after.has_arrow(id));
    }
}

} // verus!
