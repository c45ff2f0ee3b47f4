//! Closed loops of segments: point containment and collision.

use vstd::prelude::*;
use crate::fixed::lemma_product_magnitude;
use crate::line::{
    lemma_apart_meets_only_on_one_line,
    lemma_line_collide_symmetric,
    lemma_on_one_line_symmetric,
    Line,
};
use crate::vector::Vector2;

verus! {

/// An ordered list of edges. For a shape the edges form a closed loop, each
/// starting where the one before it ends.
#[derive(Debug)]
pub struct Polygon {
    pub vertices: Vec<Line>,
}

impl View for Polygon {
    type V = Seq<Line>;

    open spec fn view(&self) -> Seq<Line> {
        self.vertices@
    }
}

/// The horizontal ray that leaves `point` towards larger `x` crosses `edge`:
/// the ends of the edge lie strictly on either side of the ray's height, and
/// the edge passes that height at an `x` strictly beyond the point.
pub open spec fn edge_crosses_ray(edge: Line, point: Vector2) -> bool {
    let run = edge.end.x - edge.start.x;
    let rise = edge.end.y - edge.start.y;
    let ahead = point.x - edge.start.x;
    let above = point.y - edge.start.y;
    if edge.start.y > point.y && edge.end.y < point.y {
        ahead * rise > run * above
    } else if edge.start.y < point.y && edge.end.y > point.y {
        ahead * rise < run * above
    } else {
        false
    }
}

/// The number of edges that the ray from `point` crosses.
pub open spec fn crossings(edges: Seq<Line>, point: Vector2) -> nat
    decreases edges.len(),
{
    if edges.len() == 0 {
        0
    } else {
        crossings(edges.drop_last(), point) + if edge_crosses_ray(edges.last(), point) {
            1nat
        } else {
            0nat
        }
    }
}

/// The even-odd rule: a point is inside when its ray crosses an odd number of
/// edges.
pub open spec fn encloses(edges: Seq<Line>, point: Vector2) -> bool {
    crossings(edges, point) % 2 == 1
}

/// Some edge meets `line`.
pub open spec fn some_edge_meets(edges: Seq<Line>, line: Line) -> bool {
    exists|j: int| 0 <= j < edges.len() && line.spec_collide(#[trigger] edges[j])
}

/// Some edge of `a` meets some edge of `b`.
pub open spec fn edges_cross(a: Seq<Line>, b: Seq<Line>) -> bool {
    exists|i: int| 0 <= i < a.len() && some_edge_meets(b, #[trigger] a[i])
}

/// The collision test of two edge lists: `a` has an edge, and either two
/// edges cross or `a` encloses the start of `b`'s first edge. The second
/// half catches a `b` that lies wholly inside `a`.
pub open spec fn edge_lists_collide(a: Seq<Line>, b: Seq<Line>) -> bool {
    a.len() > 0 && (edges_cross(a, b) || (b.len() > 0 && encloses(a, b[0].start)))
}

/// Every edge is small enough for the intersection tests.
pub open spec fn edges_in_reach(edges: Seq<Line>) -> bool {
    forall|i: int| 0 <= i < edges.len() ==> (#[trigger] edges[i]).in_reach()
}

/// Each edge starts where the one before it ends, the first where the last
/// ends.
pub open spec fn is_closed_loop(edges: Seq<Line>) -> bool {
    forall|i: int|
        0 <= i < edges.len() ==> (#[trigger] edges[i]).end == edges[(i + 1) % (
        edges.len() as int)].start
}

/// Tests whether the ray from `point` crosses `edge`.
pub fn crosses_ray(edge: &Line, point: Vector2) -> (hit: bool)
    requires
        edge.in_reach(),
        point.in_reach(),
    ensures
        hit == edge_crosses_ray(*edge, point),
{
    let falls: bool = edge.start.y > point.y && edge.end.y < point.y;
    let climbs: bool = edge.start.y < point.y && edge.end.y > point.y;
    if !falls && !climbs {
        return false;
    }
    let run: i128 = edge.end.x as i128 - edge.start.x as i128;
    let rise: i128 = edge.end.y as i128 - edge.start.y as i128;
    let ahead: i128 = point.x as i128 - edge.start.x as i128;
    let above: i128 = point.y as i128 - edge.start.y as i128;
    proof {
        let b = 2_000_000_000_000_000_000int;
        lemma_product_magnitude(ahead as int, rise as int, b, b);
        lemma_product_magnitude(run as int, above as int, b, b);
    }
    if falls {
        ahead * rise > run * above
    } else {
        ahead * rise < run * above
    }
}

impl Polygon {
    /// Every edge is small enough for the intersection tests.
    pub open spec fn in_reach(&self) -> bool {
        edges_in_reach(self@)
    }

    /// Tests whether every edge is small enough for the intersection tests.
    pub fn is_in_reach(&self) -> (ok: bool)
        ensures
            ok == self.in_reach(),
    {
        let mut i: usize = 0;
        while i < self.vertices.len()
            invariant
                i <= self.vertices.len(),
                forall|k: int| 0 <= k < i ==> (#[trigger] self@[k]).in_reach(),
            decreases self.vertices.len() - i,
        {
            if !self.vertices[i].is_in_reach() {
                return false;
            }
            i = i + 1;
        }
        true
    }

    /// Tests by the even-odd rule whether the polygon encloses `point`.
    pub fn collide_point(&self, point: Vector2) -> (inside: bool)
        requires
            self.in_reach(),
            point.in_reach(),
        ensures
            inside == encloses(self@, point),
    {
        let mut collision: bool = false;
        let mut i: usize = 0;
        while i < self.vertices.len()
            invariant
                i <= self.vertices.len(),
                self.in_reach(),
                point.in_reach(),
                collision == encloses(self@.subrange(0, i as int), point),
            decreases self.vertices.len() - i,
        {
            assert(self@.subrange(0, i + 1).drop_last() =~= self@.subrange(0, i as int));
            if crosses_ray(&self.vertices[i], point) {
                collision = !collision;
            }
            i = i + 1;
        }
        assert(self@.subrange(0, i as int) =~= self@);
        collision
    }

    /// Tests whether `line` meets an edge of the polygon.
    pub fn collide_line(&self, line: &Line) -> (hit: bool)
        requires
            self.in_reach(),
            line.in_reach(),
        ensures
            hit == some_edge_meets(self@, *line),
    {
        let mut j: usize = 0;
        while j < self.vertices.len()
            invariant
                j <= self.vertices.len(),
                self.in_reach(),
                line.in_reach(),
                forall|k: int| 0 <= k < j ==> !line.spec_collide(#[trigger] self@[k]),
            decreases self.vertices.len() - j,
        {
            if line.collide(&self.vertices[j]) {
                return true;
            }
            j = j + 1;
        }
        false
    }

    /// Tests whether the polygon collides with `other`: whether two of their
    /// edges meet, or this polygon encloses the start of `other`'s first edge.
    pub fn collide(&self, other: &Polygon) -> (hit: bool)
        requires
            self.in_reach(),
            other.in_reach(),
        ensures
            hit == edge_lists_collide(self@, other@),
    {
        let mut i: usize = 0;
        while i < self.vertices.len()
            invariant
                i <= self.vertices.len(),
                self.in_reach(),
                other.in_reach(),
                forall|k: int| 0 <= k < i ==> !some_edge_meets(other@, #[trigger] self@[k]),
                i > 0 ==> !(other@.len() > 0 && encloses(self@, other@[0].start)),
            decreases self.vertices.len() - i,
        {
            if other.collide_line(&self.vertices[i]) {
                return true;
            }
            if other.vertices.len() > 0 {
                if self.collide_point(other.vertices[0].start) {
                    return true;
                }
            }
            i = i + 1;
        }
        false
    }
}

/// Whether two edge lists have a pair of edges that meet does not depend on
/// their order.
pub proof fn lemma_edges_cross_symmetric(a: Seq<Line>, b: Seq<Line>)
    ensures
        edges_cross(a, b) == edges_cross(b, a),
{
    if edges_cross(a, b) {
        lemma_edges_cross_swaps(a, b);
    }
    if edges_cross(b, a) {
        lemma_edges_cross_swaps(b, a);
    }
}

/// A pair of edges that meet is found from either list.
proof fn lemma_edges_cross_swaps(a: Seq<Line>, b: Seq<Line>)
    requires
        edges_cross(a, b),
    ensures
        edges_cross(b, a),
{
    let i = choose|i: int| 0 <= i < a.len() && some_edge_meets(b, #[trigger] a[i]);
    let j = choose|j: int| 0 <= j < b.len() && a[i].spec_collide(#[trigger] b[j]);
    lemma_line_collide_symmetric(a[i], b[j]);
    assert(some_edge_meets(a, b[j]));
}

/// The edge `a[i]` meets the edge `b[j]`, so the lists have a pair of edges
/// that meet.
pub proof fn lemma_edges_cross_at(a: Seq<Line>, b: Seq<Line>, i: int, j: int)
    requires
        0 <= i < a.len(),
        0 <= j < b.len(),
        a[i].spec_collide(b[j]),
    ensures
        edges_cross(a, b),
{
    assert(some_edge_meets(b, a[i]));
}

/// The ray of a point crosses a vertical edge when the point lies strictly
/// between the heights of its ends and strictly before it.
pub proof fn lemma_vertical_edge_crossing(edge: Line, point: Vector2)
    requires
        edge.is_vertical(),
    ensures
        edge_crosses_ray(edge, point) == (((edge.start.y < point.y < edge.end.y) || (edge.end.y
            < point.y < edge.start.y)) && point.x < edge.start.x),
{
    let rise = edge.end.y - edge.start.y;
    let ahead = point.x - edge.start.x;
    let above = point.y - edge.start.y;
    assert((edge.end.x - edge.start.x) * above == 0) by (nonlinear_arith)
        requires
            edge.end.x - edge.start.x == 0,
    ;
    assert(rise < 0 ==> ((ahead * rise > 0) == (ahead < 0))) by (nonlinear_arith);
    assert(rise > 0 ==> ((ahead * rise < 0) == (ahead < 0))) by (nonlinear_arith);
}

/// The ray of a point crosses no horizontal edge.
pub proof fn lemma_horizontal_edge_crossing(edge: Line, point: Vector2)
    requires
        edge.is_horizontal(),
    ensures
        !edge_crosses_ray(edge, point),
{
}

/// The crossings of a list of four edges, edge by edge.
pub proof fn lemma_crossings_of_four(edges: Seq<Line>, point: Vector2)
    requires
        edges.len() == 4,
    ensures
        crossings(edges, point) == (if edge_crosses_ray(edges[0], point) {
            1nat
        } else {
            0nat
        }) + (if edge_crosses_ray(edges[1], point) {
            1nat
        } else {
            0nat
        }) + (if edge_crosses_ray(edges[2], point) {
            1nat
        } else {
            0nat
        }) + (if edge_crosses_ray(edges[3], point) {
            1nat
        } else {
            0nat
        }),
{
    let three = edges.drop_last();
    let two = three.drop_last();
    let one = two.drop_last();
    let none = one.drop_last();
    assert(none.len() == 0);
    assert(crossings(none, point) == 0);
    assert(one.last() == edges[0]);
    assert(two.last() == edges[1]);
    assert(three.last() == edges[2]);
    assert(edges.last() == edges[3]);
    assert(crossings(one, point) == crossings(none, point) + if edge_crosses_ray(
        one.last(),
        point,
    ) {
        1nat
    } else {
        0nat
    });
    assert(crossings(two, point) == crossings(one, point) + if edge_crosses_ray(
        two.last(),
        point,
    ) {
        1nat
    } else {
        0nat
    });
    assert(crossings(three, point) == crossings(two, point) + if edge_crosses_ray(
        three.last(),
        point,
    ) {
        1nat
    } else {
        0nat
    });
}

/// Every edge lies strictly below the height `level`.
pub open spec fn edges_below(edges: Seq<Line>, level: int) -> bool {
    forall|i: int| 0 <= i < edges.len() ==> (#[trigger] edges[i]).below(level)
}

/// Every edge lies at the height `level` or above it.
pub open spec fn edges_not_below(edges: Seq<Line>, level: int) -> bool {
    forall|i: int| 0 <= i < edges.len() ==> (#[trigger] edges[i]).not_below(level)
}

/// Some edge of `a` and some edge of `b` are in the case `on_one_line`.
pub open spec fn some_edges_on_one_line(a: Seq<Line>, b: Seq<Line>) -> bool {
    exists|i: int, j: int|
        0 <= i < a.len() && 0 <= j < b.len() && (#[trigger] a[i]).on_one_line(#[trigger] b[j])
}

/// A pair of an edge of `a` and an edge of `b` in the case `on_one_line`,
/// where there is one: the places of the two edges in their lists.
pub open spec fn edges_on_one_line(a: Seq<Line>, b: Seq<Line>) -> (int, int) {
    choose|i: int, j: int|
        0 <= i < a.len() && 0 <= j < b.len() && (#[trigger] a[i]).on_one_line(#[trigger] b[j])
}

/// A list of edges of which none has its ends strictly on either side of the
/// height of a point does not enclose the point.
pub proof fn lemma_no_straddle_outside(edges: Seq<Line>, point: Vector2)
    requires
        forall|i: int|
            0 <= i < edges.len() ==> ((#[trigger] edges[i]).start.y <= point.y && edges[i].end.y
                <= point.y) || (edges[i].start.y >= point.y && edges[i].end.y >= point.y),
    ensures
        crossings(edges, point) == 0,
        !encloses(edges, point),
    decreases edges.len(),
{
    if edges.len() > 0 {
        let rest = edges.drop_last();
        assert forall|i: int| 0 <= i < rest.len() implies ((#[trigger] rest[i]).start.y <= point.y
            && rest[i].end.y <= point.y) || (rest[i].start.y >= point.y && rest[i].end.y
            >= point.y) by {
            assert(rest[i] == edges[i]);
        }
        lemma_no_straddle_outside(rest, point);
        assert(edges.last() == edges[edges.len() - 1]);
    }
}

/// Two edge lists on either side of a height collide only where an edge of
/// one is in the case `on_one_line` with an edge of the other.
pub proof fn lemma_apart_lists_collide_only_on_one_line(a: Seq<Line>, b: Seq<Line>, level: int)
    requires
        (edges_below(a, level) && edges_not_below(b, level)) || (edges_below(b, level)
            && edges_not_below(a, level)),
    ensures
        edge_lists_collide(a, b) ==> some_edges_on_one_line(a, b),
        !encloses(a, b[0].start) || b.len() == 0,
{
    if b.len() > 0 {
        let point = b[0].start;
        assert(b[0].below(level) || b[0].not_below(level));
        assert forall|i: int| 0 <= i < a.len() implies ((#[trigger] a[i]).start.y <= point.y
            && a[i].end.y <= point.y) || (a[i].start.y >= point.y && a[i].end.y >= point.y) by {
            assert(a[i].below(level) || a[i].not_below(level));
        }
        lemma_no_straddle_outside(a, point);
    }
    if edges_cross(a, b) {
        let i = choose|i: int| 0 <= i < a.len() && some_edge_meets(b, #[trigger] a[i]);
        let j = choose|j: int| 0 <= j < b.len() && a[i].spec_collide(#[trigger] b[j]);
        lemma_on_one_line_symmetric(a[i], b[j]);
        if a[i].below(level) && b[j].not_below(level) {
            lemma_apart_meets_only_on_one_line(a[i], b[j], level);
        } else {
            lemma_apart_meets_only_on_one_line(b[j], a[i], level);
        }
        assert(a[i].on_one_line(b[j]));
    }
}

} // verus!
