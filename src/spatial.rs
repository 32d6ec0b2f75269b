//! Hit-testing: what lies under a world position.
//!
//! Candidates are walked in a fixed order: nodes in insertion order, and for
//! each node its sides in the order Left, Right, Top, Bottom. Among equally
//! good candidates the first one in that order wins.
use vstd::prelude::*;
use crate::elements::{ArrowId, ConnectionPoint, NodeId, Side};
use crate::geometry::{dist_sq, distance_sq, distance_sq_to_segment, seg_dist_sq, Point, Rect};
use crate::model::{Arrow, ProcessNode, SadtDiagram};
use crate::transform::{MAX_ZOOM, MIN_ZOOM, ZOOM_SCALE};

verus! {

/// Selection tolerance around an arrow, in screen units.
pub const ARROW_SELECT_DISTANCE: i64 = 5;

/// World position of the middle of side `side` of `rect`.
pub open spec fn connection_pos(rect: Rect, side: Side) -> Point {
    match side {
        Side::Left => Point { x: rect.min.x, y: rect.center_y() as i64 },
        Side::Right => Point { x: rect.max.x, y: rect.center_y() as i64 },
        Side::Top => Point { x: rect.center_x() as i64, y: rect.min.y },
        Side::Bottom => Point { x: rect.center_x() as i64, y: rect.max.y },
    }
}

/// The `s`-th side in search order.
pub open spec fn side_at(s: int) -> Side {
    if s == 0 {
        Side::Left
    } else if s == 1 {
        Side::Right
    } else if s == 2 {
        Side::Top
    } else {
        Side::Bottom
    }
}

fn side_at_exec(s: usize) -> (side: Side)
    requires
        s < 4,
    ensures
        side == side_at(s as int),
{
    if s == 0 {
        Side::Left
    } else if s == 1 {
        Side::Right
    } else if s == 2 {
        Side::Top
    } else {
        Side::Bottom
    }
}

/// World position of the middle of side `side` of the node's rectangle.
pub fn get_connection_pos(node: &ProcessNode, side: Side) -> (p: Point)
    requires
        node.rect.wf(),
    ensures
        p == connection_pos(node.rect, side),
        p.in_world(),
{
    let c = node.rect.center();
    match side {
        Side::Left => Point { x: node.rect.min.x, y: c.y },
        Side::Right => Point { x: node.rect.max.x, y: c.y },
        Side::Top => Point { x: c.x, y: node.rect.min.y },
        Side::Bottom => Point { x: c.x, y: node.rect.max.y },
    }
}

/// Squared distance from `p` to side `s` of node `i`.
pub open spec fn cand_dist(nodes: Seq<ProcessNode>, i: int, s: int, p: Point) -> int {
    dist_sq(connection_pos(nodes[i].rect, side_at(s)), p)
}

/// Candidate `(i2, s2)` comes before candidate `(i, s)` in search order.
pub open spec fn before(i2: int, s2: int, i: int, s: int) -> bool {
    i2 < i || (i2 == i && s2 < s)
}

pub open spec fn is_candidate(nodes: Seq<ProcessNode>, i: int, s: int) -> bool {
    0 <= i < nodes.len() && 0 <= s < 4
}

/// Side `s` of node `i` is the connection point nearest to `p` among those
/// strictly closer than `max_dist`, and the first such in search order.
pub open spec fn is_nearest(
    nodes: Seq<ProcessNode>,
    p: Point,
    max_dist: int,
    i: int,
    s: int,
) -> bool {
    &&& is_candidate(nodes, i, s)
    &&& cand_dist(nodes, i, s, p) < max_dist * max_dist
    &&& forall|i2: int, s2: int|
        is_candidate(nodes, i2, s2) ==> #[trigger] cand_dist(nodes, i2, s2, p) >= cand_dist(
            nodes,
            i,
            s,
            p,
        )
    &&& forall|i2: int, s2: int|
        is_candidate(nodes, i2, s2) && before(i2, s2, i, s) ==> #[trigger] cand_dist(
            nodes,
            i2,
            s2,
            p,
        ) > cand_dist(nodes, i, s, p)
}

/// The connection point nearest to `p` strictly within `max_dist`, ties going
/// to the first in search order; `None` when no point is that close.
pub open spec fn nearest_connection(
    nodes: Seq<ProcessNode>,
    p: Point,
    max_dist: int,
) -> Option<ConnectionPoint> {
    if exists|i: int, s: int| is_nearest(nodes, p, max_dist, i, s) {
        let (i, s) = choose|i: int, s: int| is_nearest(nodes, p, max_dist, i, s);
        Some(ConnectionPoint { node_id: nodes[i].id, side: side_at(s) })
    } else {
        None
    }
}

/// At most one candidate is the nearest.
pub proof fn lemma_nearest_unique(
    nodes: Seq<ProcessNode>,
    p: Point,
    max_dist: int,
    i: int,
    s: int,
    i2: int,
    s2: int,
)
    requires
        is_nearest(nodes, p, max_dist, i, s),
        is_nearest(nodes, p, max_dist, i2, s2),
    ensures
        i == i2 && s == s2,
{
    assert(cand_dist(nodes, i, s, p) <= cand_dist(nodes, i2, s2, p));
    assert(cand_dist(nodes, i2, s2, p) <= cand_dist(nodes, i, s, p));
    if before(i, s, i2, s2) {
        assert(cand_dist(nodes, i, s, p) > cand_dist(nodes, i2, s2, p));
    }
    if before(i2, s2, i, s) {
        assert(cand_dist(nodes, i2, s2, p) > cand_dist(nodes, i, s, p));
    }
}

/// The connection point nearest to `world_pos` whose squared distance is
/// strictly below `max_dist_world²`, over every side of every node; ties go
/// to the first in search order. `None` when no connection point is that
/// close.
pub fn find_closest_connection_point(
    diagram: &SadtDiagram,
    world_pos: Point,
    max_dist_world: i64,
) -> (r: Option<ConnectionPoint>)
    requires
        diagram.wf(),
        world_pos.in_world(),
    ensures
        r == nearest_connection(diagram.nodes@, world_pos, max_dist_world as int),
{
    let ghost nodes = diagram.nodes@;
    let ghost m = max_dist_world as int;
    proof {
        assert(0 <= m * m <= 0x4000_0000_0000_0000_0000_0000_0000_0000) by (nonlinear_arith)
            requires
                -0x8000_0000_0000_0000 <= m <= 0x8000_0000_0000_0000,
        ;
    }
    let max_sq = max_dist_world as i128 * max_dist_world as i128;
    let mut found = false;
    let mut best_i: usize = 0;
    let mut best_s: usize = 0;
    let mut min_sq = max_sq;
    let mut i: usize = 0;
    while i < diagram.nodes.len()
        invariant
            diagram.wf(),
            world_pos.in_world(),
            nodes == diagram.nodes@,
            max_sq == m * m,
            0 <= i <= nodes.len(),
            !found ==> min_sq == max_sq,
            !found ==> forall|i2: int, s2: int|
                is_candidate(nodes, i2, s2) && i2 < i ==> #[trigger] cand_dist(nodes, i2, s2, world_pos)
                    >= m * m,
            found ==> {
                &&& best_i < i
                &&& best_s < 4
                &&& min_sq == cand_dist(nodes, best_i as int, best_s as int, world_pos)
                &&& min_sq < m * m
                &&& forall|i2: int, s2: int|
                    is_candidate(nodes, i2, s2) && i2 < i ==> #[trigger] cand_dist(
                        nodes,
                        i2,
                        s2,
                        world_pos,
                    ) >= min_sq
                &&& forall|i2: int, s2: int|
                    is_candidate(nodes, i2, s2) && before(i2, s2, best_i as int, best_s as int)
                        ==> #[trigger] cand_dist(nodes, i2, s2, world_pos) > min_sq
            },
        decreases nodes.len() - i,
    {
        let node = &diagram.nodes[i];
        let mut s: usize = 0;
        while s < 4
            invariant
                diagram.wf(),
                world_pos.in_world(),
                nodes == diagram.nodes@,
                *node == nodes[i as int],
                max_sq == m * m,
                0 <= i < nodes.len(),
                0 <= s <= 4,
                !found ==> min_sq == max_sq,
                !found ==> forall|i2: int, s2: int|
                    is_candidate(nodes, i2, s2) && before(i2, s2, i as int, s as int)
                        ==> #[trigger] cand_dist(nodes, i2, s2, world_pos) >= m * m,
                found ==> {
                    &&& before(best_i as int, best_s as int, i as int, s as int)
                    &&& best_s < 4
                    &&& min_sq == cand_dist(nodes, best_i as int, best_s as int, world_pos)
                    &&& min_sq < m * m
                    &&& forall|i2: int, s2: int|
                        is_candidate(nodes, i2, s2) && before(i2, s2, i as int, s as int)
                            ==> #[trigger] cand_dist(nodes, i2, s2, world_pos) >= min_sq
                    &&& forall|i2: int, s2: int|
                        is_candidate(nodes, i2, s2) && before(
                            i2,
                            s2,
                            best_i as int,
                            best_s as int,
                        ) ==> #[trigger] cand_dist(nodes, i2, s2, world_pos) > min_sq
                },
            decreases 4 - s,
        {
            proof {
                assert(nodes[i as int].rect.wf());
            }
            let pos = get_connection_pos(node, side_at_exec(s));
            let d = distance_sq(pos, world_pos);
            if d < min_sq {
                found = true;
                best_i = i;
                best_s = s;
                min_sq = d;
            }
            s += 1;
        }
        i += 1;
    }
    if found {
        proof {
            assert(is_nearest(nodes, world_pos, m, best_i as int, best_s as int));
            let (i1, s1) = choose|i1: int, s1: int| is_nearest(nodes, world_pos, m, i1, s1);
            lemma_nearest_unique(nodes, world_pos, m, i1, s1, best_i as int, best_s as int);
        }
        Some(ConnectionPoint { node_id: diagram.nodes[best_i].id, side: side_at_exec(best_s) })
    } else {
        proof {
            assert forall|i1: int, s1: int| !is_nearest(nodes, world_pos, m, i1, s1) by {
                if is_candidate(nodes, i1, s1) {
                    assert(cand_dist(nodes, i1, s1, world_pos) >= m * m);
                }
            }
        }
        None
    }
}

/// When every connection point is farther than `max_dist`, none is found;
/// when exactly one lies strictly within it, that one is found.
pub proof fn lemma_nearest_in_range(d: SadtDiagram, p: Point, max_dist: int)
    requires
        d.wf(),
        max_dist >= 0,
    ensures
        (forall|i: int, s: int|
            is_candidate(d.nodes@, i, s) ==> #[trigger] cand_dist(d.nodes@, i, s, p) > max_dist
                * max_dist) ==> nearest_connection(d.nodes@, p, max_dist) is None,
        forall|i: int, s: int|
            #![trigger cand_dist(d.nodes@, i, s, p)]
            is_candidate(d.nodes@, i, s) && cand_dist(d.nodes@, i, s, p) < max_dist * max_dist
                && (forall|i2: int, s2: int|
                is_candidate(d.nodes@, i2, s2) && (i2 != i || s2 != s) ==> #[trigger] cand_dist(
                    d.nodes@,
                    i2,
                    s2,
                    p,
                ) >= max_dist * max_dist) ==> nearest_connection(d.nodes@, p, max_dist) == Some(
                (ConnectionPoint { node_id: d.nodes@[i].id, side: side_at(s) }),
            ),
{
    let nodes = d.nodes@;
    if forall|i: int, s: int|
        is_candidate(nodes, i, s) ==> #[trigger] cand_dist(nodes, i, s, p) > max_dist * max_dist {
        assert forall|i1: int, s1: int| !is_nearest(nodes, p, max_dist, i1, s1) by {
            if is_candidate(nodes, i1, s1) {
                assert(cand_dist(nodes, i1, s1, p) > max_dist * max_dist);
            }
        }
    }
    assert forall|i: int, s: int|
        #![trigger cand_dist(nodes, i, s, p)]
        is_candidate(nodes, i, s) && cand_dist(nodes, i, s, p) < max_dist * max_dist && (forall|
            i2: int,
            s2: int,
        |
            is_candidate(nodes, i2, s2) && (i2 != i || s2 != s) ==> #[trigger] cand_dist(
                nodes,
                i2,
                s2,
                p,
            ) >= max_dist * max_dist) implies nearest_connection(nodes, p, max_dist) == Some(
        (ConnectionPoint { node_id: nodes[i].id, side: side_at(s) }),
    ) by {
        assert(is_nearest(nodes, p, max_dist, i, s));
        let (i1, s1) = choose|i1: int, s1: int| is_nearest(nodes, p, max_dist, i1, s1);
        lemma_nearest_unique(nodes, p, max_dist, i1, s1, i, s);
    }
}

/// Whether `p` lies in the node's rectangle, border included.
pub fn point_in_node(node: &ProcessNode, p: Point) -> (r: bool)
    ensures
        r == node.rect.spec_contains(p),
{
    node.rect.contains(p)
}

/// Node `i` is the first, in insertion order, whose rectangle holds `p`.
pub open spec fn is_node_hit(nodes: Seq<ProcessNode>, p: Point, i: int) -> bool {
    &&& 0 <= i < nodes.len()
    &&& nodes[i].rect.spec_contains(p)
    &&& forall|j: int| 0 <= j < i ==> !(#[trigger] nodes[j]).rect.spec_contains(p)
}

/// The first node, in insertion order, whose rectangle holds `p`.
pub open spec fn node_at(nodes: Seq<ProcessNode>, p: Point) -> Option<NodeId> {
    if exists|i: int| is_node_hit(nodes, p, i) {
        Some(nodes[choose|i: int| is_node_hit(nodes, p, i)].id)
    } else {
        None
    }
}

/// The first node, in insertion order, whose rectangle holds `world_pos`.
pub fn find_node_at(diagram: &SadtDiagram, world_pos: Point) -> (r: Option<NodeId>)
    ensures
        r == node_at(diagram.nodes@, world_pos),
{
    let ghost nodes = diagram.nodes@;
    let mut i: usize = 0;
    while i < diagram.nodes.len()
        invariant
            nodes == diagram.nodes@,
            0 <= i <= nodes.len(),
            forall|j: int| 0 <= j < i ==> !(#[trigger] nodes[j]).rect.spec_contains(world_pos),
        decreases nodes.len() - i,
    {
        if point_in_node(&diagram.nodes[i], world_pos) {
            proof {
                assert(is_node_hit(nodes, world_pos, i as int));
                let k = choose|k: int| is_node_hit(nodes, world_pos, k);
                if k < i {
                    assert(!nodes[k].rect.spec_contains(world_pos));
                }
                if i < k {
                    assert(!nodes[i as int].rect.spec_contains(world_pos));
                }
            }
            return Some(diagram.nodes[i].id);
        }
        i += 1;
    }
    None
}

/// World position of the start of an arrow of diagram `d`.
pub open spec fn arrow_start(d: SadtDiagram, a: Arrow) -> Point {
    connection_pos(d.node(a.source.node_id)->0.rect, a.source.side)
}

/// World position of the end of an arrow of diagram `d`.
pub open spec fn arrow_end(d: SadtDiagram, a: Arrow) -> Point {
    connection_pos(d.node(a.target.node_id)->0.rect, a.target.side)
}

/// Squared distance from `p` to arrow `j` of `d`, rounded down.
pub open spec fn arrow_dist(d: SadtDiagram, j: int, p: Point) -> int {
    seg_dist_sq(p, arrow_start(d, d.arrows@[j]), arrow_end(d, d.arrows@[j]))
}

/// A squared world distance lies within the arrow selection tolerance at
/// zoom `zoom`: `dist < (ARROW_SELECT_DISTANCE / zoom)²`, the tolerance being
/// fixed on the screen.
pub open spec fn within_arrow_tolerance(dist: int, zoom: int) -> bool {
    dist * zoom * zoom < (ARROW_SELECT_DISTANCE * ZOOM_SCALE) * (ARROW_SELECT_DISTANCE * ZOOM_SCALE)
}

/// Arrow `j` is the arrow nearest to `p`, within the tolerance, and the first
/// such in insertion order.
pub open spec fn is_arrow_hit(d: SadtDiagram, p: Point, zoom: int, j: int) -> bool {
    &&& 0 <= j < d.arrows@.len()
    &&& within_arrow_tolerance(arrow_dist(d, j, p), zoom)
    &&& forall|l: int| 0 <= l < d.arrows@.len() ==> #[trigger] arrow_dist(d, l, p) >= arrow_dist(d, j, p)
    &&& forall|l: int| 0 <= l < j ==> #[trigger] arrow_dist(d, l, p) > arrow_dist(d, j, p)
}

/// The arrow nearest to `p` within the selection tolerance, ties going to the
/// first in insertion order.
pub open spec fn arrow_at(d: SadtDiagram, p: Point, zoom: int) -> Option<ArrowId> {
    if exists|j: int| is_arrow_hit(d, p, zoom, j) {
        Some(d.arrows@[choose|j: int| is_arrow_hit(d, p, zoom, j)].id)
    } else {
        None
    }
}

proof fn lemma_arrow_hit_unique(d: SadtDiagram, p: Point, zoom: int, j: int, l: int)
    requires
        is_arrow_hit(d, p, zoom, j),
        is_arrow_hit(d, p, zoom, l),
    ensures
        j == l,
{
    assert(arrow_dist(d, j, p) <= arrow_dist(d, l, p));
    assert(arrow_dist(d, l, p) <= arrow_dist(d, j, p));
}

/// The arrow nearest to `world_pos` whose squared distance lies within the
/// selection tolerance at zoom `zoom` (see `within_arrow_tolerance`); ties go
/// to the first in insertion order.
pub fn find_arrow_at(diagram: &SadtDiagram, world_pos: Point, zoom: i64) -> (r: Option<ArrowId>)
    requires
        diagram.wf(),
        world_pos.in_world(),
        MIN_ZOOM <= zoom <= MAX_ZOOM,
    ensures
        r == arrow_at(*diagram, world_pos, zoom as int),
{
    let ghost d = *diagram;
    let ghost z = zoom as int;
    let mut found = false;
    let mut best: usize = 0;
    let mut best_dist: i128 = 0;
    let mut j: usize = 0;
    while j < diagram.arrows.len()
        invariant
            d == *diagram,
            diagram.wf(),
            world_pos.in_world(),
            MIN_ZOOM <= z <= MAX_ZOOM,
            z == zoom,
            0 <= j <= d.arrows@.len(),
            !found ==> forall|l: int|
                0 <= l < j ==> !within_arrow_tolerance(#[trigger] arrow_dist(d, l, world_pos), z),
            found ==> {
                &&& best < j
                &&& best_dist == arrow_dist(d, best as int, world_pos)
                &&& within_arrow_tolerance(best_dist as int, z)
                &&& forall|l: int| 0 <= l < j ==> #[trigger] arrow_dist(d, l, world_pos) >= best_dist
                &&& forall|l: int| 0 <= l < best ==> #[trigger] arrow_dist(d, l, world_pos) > best_dist
            },
        decreases d.arrows@.len() - j,
    {
        let a = &diagram.arrows[j];
        let src = diagram.find_node(a.source.node_id);
        let tgt = diagram.find_node(a.target.node_id);
        proof {
            assert(d.arrow_ok(d.arrows@[j as int]));
        }
        if let (Some(si), Some(ti)) = (src, tgt) {
            proof {
                assert(d.nodes@[si as int].rect.wf());
                assert(d.nodes@[ti as int].rect.wf());
            }
            let start = get_connection_pos(&diagram.nodes[si], a.source.side);
            let end = get_connection_pos(&diagram.nodes[ti], a.target.side);
            let dist = distance_sq_to_segment(world_pos, start, end);
            let tol = ARROW_SELECT_DISTANCE as i128 * ZOOM_SCALE as i128;
            proof {
                assert(0 <= dist * zoom <= 0x8_0000_0000_0000 * 20000) by (nonlinear_arith)
                    requires
                        0 <= dist <= 0x8_0000_0000_0000,
                        MIN_ZOOM <= zoom <= MAX_ZOOM,
                ;
                assert(0 <= dist * zoom * zoom <= 0x8_0000_0000_0000 * 20000 * 20000) by (
                nonlinear_arith)
                    requires
                        0 <= dist * zoom <= 0x8_0000_0000_0000 * 20000,
                        MIN_ZOOM <= zoom <= MAX_ZOOM,
                ;
                assert(d.node(a.source.node_id) == Some(d.nodes@[si as int]));
                assert(d.node(a.target.node_id) == Some(d.nodes@[ti as int]));
                assert(dist == arrow_dist(d, j as int, world_pos));
                if !found && within_arrow_tolerance(dist as int, z) {
                    assert forall|l: int| 0 <= l < j implies #[trigger] arrow_dist(
                        d,
                        l,
                        world_pos,
                    ) > dist by {
                        let x = arrow_dist(d, l, world_pos);
                        assert(!within_arrow_tolerance(x, z));
                        assert(x > dist) by (nonlinear_arith)
                            requires
                                x * z * z >= 25_000_000,
                                dist * z * z < 25_000_000,
                                z > 0,
                        ;
                    }
                }
                if found && dist < best_dist {
                    assert(dist * z * z < best_dist * z * z) by (nonlinear_arith)
                        requires
                            0 <= dist < best_dist,
                            z > 0,
                    ;
                }
            }
            let scaled = dist * zoom as i128 * zoom as i128;
            if scaled < tol * tol && (!found || dist < best_dist) {
                found = true;
                best = j;
                best_dist = dist;
            }
        }
        j += 1;
    }
    if found {
        proof {
            assert(is_arrow_hit(d, world_pos, z, best as int));
            let k = choose|k: int| is_arrow_hit(d, world_pos, z, k);
            lemma_arrow_hit_unique(d, world_pos, z, k, best as int);
        }
        Some(diagram.arrows[best].id)
    } else {
        proof {
            assert forall|k: int| !is_arrow_hit(d, world_pos, z, k) by {
                if 0 <= k < d.arrows@.len() {
                    assert(!within_arrow_tolerance(arrow_dist(d, k, world_pos), z));
                }
            }
        }
        None
    }
}

} // verus!
