//! Rectangles without rotation: their sides, and what the collision test
//! amounts to for them.

use vstd::prelude::*;
use crate::fixed::{lemma_round_div_cancels, lemma_round_div_odd, round_div};
use crate::line::{
    lemma_same_side_no_meet,
    lemma_upright_pair_meets,
    lemma_vertical_pair_on_one_line,
};
use crate::polygon::{
    edges_cross,
    encloses,
    lemma_crossings_of_four,
    lemma_edges_cross_at,
    lemma_edges_cross_symmetric,
    lemma_horizontal_edge_crossing,
    lemma_vertical_edge_crossing,
    some_edge_meets,
};
use crate::rectangle::Rectangle;
use crate::trig::{lemma_sin_cos_at_quarter_turns, spec_cos, spec_sin, TRIG_ONE};
use crate::vector::Vector2;

verus! {

/// The `x` coordinate of the left side of a rectangle without rotation.
pub open spec fn left(rect: Rectangle) -> int {
    rect.position.x - round_div(rect.width as int, 2)
}

/// The `x` coordinate of the right side.
pub open spec fn right(rect: Rectangle) -> int {
    rect.position.x + round_div(rect.width as int, 2)
}

/// The `y` coordinate of the lower side.
pub open spec fn bottom(rect: Rectangle) -> int {
    rect.position.y - round_div(rect.height as int, 2)
}

/// The `y` coordinate of the upper side.
pub open spec fn top(rect: Rectangle) -> int {
    rect.position.y + round_div(rect.height as int, 2)
}

/// `inner` lies inside `outer` and touches none of its sides.
pub open spec fn strictly_inside(inner: Rectangle, outer: Rectangle) -> bool {
    &&& left(outer) < left(inner)
    &&& right(inner) < right(outer)
    &&& bottom(outer) < bottom(inner)
    &&& top(inner) < top(outer)
}

/// A corner of a rectangle without rotation lies half the width beside the
/// centre and half the height above or below it.
proof fn lemma_aligned_corner(rect: Rectangle, side_x: int, side_y: int)
    requires
        rect.rotation == 0,
        side_x == 1 || side_x == -1,
        side_y == 1 || side_y == -1,
    ensures
        rect.corner_x(side_x, side_y) == rect.position.x + side_x * round_div(
            rect.width as int,
            2,
        ),
        rect.corner_y(side_x, side_y) == rect.position.y + side_y * round_div(
            rect.height as int,
            2,
        ),
{
    let one = TRIG_ONE as int;
    let w = rect.width as int;
    let h = rect.height as int;
    let c = spec_cos(rect.rotation as int);
    let s = spec_sin(rect.rotation as int);
    lemma_sin_cos_at_quarter_turns(0);
    assert(c == one && s == 0);
    assert(side_x * w * c - side_y * h * s == (side_x * w) * one) by (nonlinear_arith)
        requires
            c == one,
            s == 0,
    ;
    assert(side_x * w * s + side_y * h * c == (side_y * h) * one) by (nonlinear_arith)
        requires
            c == one,
            s == 0,
    ;
    lemma_round_div_cancels(side_x * w, 2, one);
    lemma_round_div_cancels(side_y * h, 2, one);
    lemma_round_div_odd(w, 2);
    lemma_round_div_odd(h, 2);
    let half_w = round_div(w, 2);
    let half_h = round_div(h, 2);
    assert(side_x * w == if side_x == 1 {
        w
    } else {
        -w
    }) by (nonlinear_arith)
        requires
            side_x == 1 || side_x == -1,
    ;
    assert(side_y * h == if side_y == 1 {
        h
    } else {
        -h
    }) by (nonlinear_arith)
        requires
            side_y == 1 || side_y == -1,
    ;
    assert(side_x * half_w == if side_x == 1 {
        half_w
    } else {
        -half_w
    }) by (nonlinear_arith)
        requires
            side_x == 1 || side_x == -1,
    ;
    assert(side_y * half_h == if side_y == 1 {
        half_h
    } else {
        -half_h
    }) by (nonlinear_arith)
        requires
            side_y == 1 || side_y == -1,
    ;
    assert(round_div((side_x * w) * one, 2 * one) == side_x * half_w);
    assert(round_div((side_y * h) * one, 2 * one) == side_y * half_h);
}

/// The corners of a rectangle without rotation lie on its sides.
pub proof fn lemma_aligned_corners(rect: Rectangle)
    requires
        rect.wf(),
        rect.rotation == 0,
    ensures
        left(rect) <= right(rect),
        bottom(rect) <= top(rect),
        rect.spec_top_left().x == left(rect),
        rect.spec_top_left().y == top(rect),
        rect.spec_top_right().x == right(rect),
        rect.spec_top_right().y == top(rect),
        rect.spec_bottom_right().x == right(rect),
        rect.spec_bottom_right().y == bottom(rect),
        rect.spec_bottom_left().x == left(rect),
        rect.spec_bottom_left().y == bottom(rect),
{
    lemma_aligned_corner(rect, -1, 1);
    lemma_aligned_corner(rect, 1, 1);
    lemma_aligned_corner(rect, 1, -1);
    lemma_aligned_corner(rect, -1, -1);
    assert(0 <= (2 * rect.width + 2) / 4);
    assert(0 <= (2 * rect.height + 2) / 4);
}

/// A rectangle without rotation encloses the points strictly between its
/// lower and upper side that lie on or beyond its left side and strictly
/// before its right side.
pub proof fn lemma_aligned_encloses(rect: Rectangle, point: Vector2)
    requires
        rect.wf(),
        rect.rotation == 0,
    ensures
        rect.spec_contains_point(point) == (bottom(rect) < point.y < top(rect) && left(rect)
            <= point.x < right(rect)),
{
    lemma_aligned_corners(rect);
    let edges = rect.spec_to_poly();
    lemma_crossings_of_four(edges, point);
    lemma_horizontal_edge_crossing(edges[0], point);
    lemma_vertical_edge_crossing(edges[1], point);
    lemma_horizontal_edge_crossing(edges[2], point);
    lemma_vertical_edge_crossing(edges[3], point);
}

/// Where a rectangle without rotation encloses the top left corner of
/// another and no two of their edges meet, the other lies strictly inside.
proof fn lemma_enclosed_corner_is_inside(outer: Rectangle, inner: Rectangle)
    requires
        outer.wf(),
        inner.wf(),
        outer.rotation == 0,
        inner.rotation == 0,
        outer.spec_contains_point(inner.spec_top_left()),
        !edges_cross(outer.spec_to_poly(), inner.spec_to_poly()),
    ensures
        strictly_inside(inner, outer),
{
    lemma_aligned_corners(outer);
    lemma_aligned_corners(inner);
    lemma_aligned_encloses(outer, inner.spec_top_left());
    let po = outer.spec_to_poly();
    let pi = inner.spec_to_poly();
    if left(outer) == left(inner) {
        lemma_vertical_pair_on_one_line(po[3], pi[3]);
        lemma_edges_cross_at(po, pi, 3, 3);
    }
    if right(inner) >= right(outer) {
        lemma_upright_pair_meets(po[1], pi[0]);
        lemma_edges_cross_at(po, pi, 1, 0);
    }
    if bottom(inner) <= bottom(outer) {
        lemma_upright_pair_meets(pi[3], po[2]);
        lemma_edges_cross_at(po, pi, 2, 3);
    }
}

/// The collision test of two rectangles without rotation does not depend on
/// their order, unless one of them lies strictly inside the other.
pub proof fn lemma_collide_symmetric(a: Rectangle, b: Rectangle)
    requires
        a.wf(),
        b.wf(),
        a.rotation == 0,
        b.rotation == 0,
        !strictly_inside(a, b),
        !strictly_inside(b, a),
    ensures
        a.spec_collide(b) == b.spec_collide(a),
{
    reveal(Rectangle::spec_collide);
    let pa = a.spec_to_poly();
    let pb = b.spec_to_poly();
    lemma_edges_cross_symmetric(pa, pb);
    if !edges_cross(pa, pb) {
        if a.spec_contains_point(b.spec_top_left()) {
            lemma_enclosed_corner_is_inside(a, b);
        }
        if b.spec_contains_point(a.spec_top_left()) {
            lemma_enclosed_corner_is_inside(b, a);
        }
    }
}

/// A point strictly inside a rectangle without rotation lies on the same
/// side of all four edges.
proof fn lemma_inside_point_sides(outer: Rectangle, point: Vector2)
    requires
        outer.wf(),
        outer.rotation == 0,
        left(outer) < point.x < right(outer),
        bottom(outer) < point.y < top(outer),
    ensures
        forall|j: int| 0 <= j < 4 ==> (#[trigger] outer.spec_to_poly()[j]).side_of(point) < 0,
{
    lemma_aligned_corners(outer);
    let po = outer.spec_to_poly();
    let l = left(outer);
    let r = right(outer);
    let b = bottom(outer);
    let t = top(outer);
    let x = point.x as int;
    let y = point.y as int;
    assert(po[0].side_of(point) < 0) by (nonlinear_arith)
        requires
            po[0].side_of(point) == (r - l) * (y - t) - (t - t) * (x - l),
            l < x < r,
            b < y < t,
    ;
    assert(po[1].side_of(point) < 0) by (nonlinear_arith)
        requires
            po[1].side_of(point) == (r - r) * (y - t) - (b - t) * (x - r),
            l < x < r,
            b < y < t,
    ;
    assert(po[2].side_of(point) < 0) by (nonlinear_arith)
        requires
            po[2].side_of(point) == (l - r) * (y - b) - (b - b) * (x - r),
            l < x < r,
            b < y < t,
    ;
    assert(po[3].side_of(point) < 0) by (nonlinear_arith)
        requires
            po[3].side_of(point) == (l - l) * (y - b) - (t - b) * (x - l),
            l < x < r,
            b < y < t,
    ;
}

/// Of two rectangles without rotation of which one lies strictly inside the
/// other, the outer collides with the inner and the inner does not collide
/// with the outer: these are the pairs on which the order matters.
pub proof fn lemma_nested_collide_one_way(inner: Rectangle, outer: Rectangle)
    requires
        inner.wf(),
        outer.wf(),
        inner.rotation == 0,
        outer.rotation == 0,
        strictly_inside(inner, outer),
    ensures
        outer.spec_collide(inner),
        !inner.spec_collide(outer),
{
    reveal(Rectangle::spec_collide);
    lemma_aligned_corners(outer);
    lemma_aligned_corners(inner);
    lemma_aligned_encloses(outer, inner.spec_top_left());
    lemma_aligned_encloses(inner, outer.spec_top_left());
    let po = outer.spec_to_poly();
    let pi = inner.spec_to_poly();
    lemma_inside_point_sides(outer, inner.spec_top_left());
    lemma_inside_point_sides(outer, inner.spec_top_right());
    lemma_inside_point_sides(outer, inner.spec_bottom_right());
    lemma_inside_point_sides(outer, inner.spec_bottom_left());
    assert forall|i: int| 0 <= i < pi.len() implies !some_edge_meets(po, #[trigger] pi[i]) by {
        assert forall|j: int| 0 <= j < po.len() implies !pi[i].spec_collide(#[trigger] po[j]) by {
            lemma_same_side_no_meet(po[j], pi[i]);
        }
    }
}

/// A rectangle without rotation whose width and height are not zero has no
/// edge that is a single point.
pub proof fn lemma_aligned_is_solid(rect: Rectangle)
    requires
        rect.wf(),
        rect.rotation == 0,
        rect.width > 0,
        rect.height > 0,
    ensures
        rect.is_solid(),
{
    lemma_aligned_corners(rect);
    assert((2 * rect.width + 2) / 4 >= 1);
    assert((2 * rect.height + 2) / 4 >= 1);
    assert(left(rect) < right(rect));
    assert(bottom(rect) < top(rect));
    let edges = rect.spec_to_poly();
    assert(!edges[0].is_point());
    assert(!edges[1].is_point());
    assert(!edges[2].is_point());
    assert(!edges[3].is_point());
}

} // verus!
