//! Oriented rectangles: corners, collision and rotation about a pivot.

use vstd::prelude::*;
use crate::fixed::{
    clamp,
    in_range,
    lemma_product_magnitude,
    lemma_round_div_apart,
    lemma_round_div_magnitude,
    lemma_round_div_nearest,
    round_div,
    round_to_precision,
    rounded_quotient,
    saturate,
    spec_round_to_precision,
    DIGITS,
    LIMIT,
};
use crate::aligned::{lemma_collide_symmetric, strictly_inside};
use crate::line::Line;
use crate::polygon::{edge_lists_collide, encloses, is_closed_loop, Polygon};
use crate::trig::{
    cos,
    lemma_sin_cos_bounds,
    lemma_sin_odd_cos_even,
    lemma_squares_add_up,
    square_slack,
    sin,
    spec_cos,
    spec_sin,
    TRIG_ONE,
};
use crate::vector::Vector2;

verus! {

/// A rectangle given by its centre, its extent and its rotation in millionths
/// of a degree. The corners are derived, not stored.
#[derive(Clone, Copy, Debug, PartialEq, Eq, Structural)]
pub struct Rectangle {
    pub position: Vector2,
    pub width: i64,
    pub height: i64,
    pub rotation: i64,
}

/// The sign that picks a side: 1 for the right side or the top, -1 for the
/// left side or the bottom.
pub open spec fn side(positive: bool) -> int {
    if positive {
        1
    } else {
        -1
    }
}

impl Rectangle {
    /// The centre lies within the saturation bounds, and so do width and
    /// height, which are not negative.
    pub open spec fn wf(self) -> bool {
        &&& self.position.in_range()
        &&& 0 <= self.width <= LIMIT
        &&& 0 <= self.height <= LIMIT
    }

    /// The `x` coordinate of a corner. `side_x` is 1 for the right side and -1
    /// for the left, `side_y` is 1 for the top and -1 for the bottom: the
    /// half extents `(side_x * width / 2, side_y * height / 2)` are turned by
    /// the rotation and added to the centre.
    pub open spec fn corner_x(self, side_x: int, side_y: int) -> int {
        let c = spec_cos(self.rotation as int);
        let s = spec_sin(self.rotation as int);
        self.position.x + round_div(
            side_x * self.width * c - side_y * self.height * s,
            2 * TRIG_ONE,
        )
    }

    /// The `y` coordinate of a corner.
    pub open spec fn corner_y(self, side_x: int, side_y: int) -> int {
        let c = spec_cos(self.rotation as int);
        let s = spec_sin(self.rotation as int);
        self.position.y + round_div(
            side_x * self.width * s + side_y * self.height * c,
            2 * TRIG_ONE,
        )
    }

    /// A bound on the distance of a corner from the centre along either
    /// axis, whatever the rotation: half the sum of width and height, and one
    /// for rounding.
    pub open spec fn reach(self) -> int {
        (self.width + self.height) / 2 + 1
    }

    /// A corner of the rectangle.
    pub open spec fn spec_corner(self, side_x: int, side_y: int) -> Vector2 {
        Vector2 { x: self.corner_x(side_x, side_y) as i64, y: self.corner_y(side_x, side_y) as i64 }
    }

    /// The corner on the left at the top.
    pub open spec fn spec_top_left(self) -> Vector2 {
        self.spec_corner(-1, 1)
    }

    /// The corner on the right at the top.
    pub open spec fn spec_top_right(self) -> Vector2 {
        self.spec_corner(1, 1)
    }

    /// The corner on the right at the bottom.
    pub open spec fn spec_bottom_right(self) -> Vector2 {
        self.spec_corner(1, -1)
    }

    /// The corner on the left at the bottom.
    pub open spec fn spec_bottom_left(self) -> Vector2 {
        self.spec_corner(-1, -1)
    }

    /// The four edges in the order top, right, bottom, left.
    pub open spec fn spec_to_poly(self) -> Seq<Line> {
        seq![
            Line { start: self.spec_top_left(), end: self.spec_top_right() },
            Line { start: self.spec_top_right(), end: self.spec_bottom_right() },
            Line { start: self.spec_bottom_right(), end: self.spec_bottom_left() },
            Line { start: self.spec_bottom_left(), end: self.spec_top_left() },
        ]
    }

    /// None of the four edges is a single point. Rounding can make an edge
    /// of a rectangle with a tiny extent one.
    pub open spec fn is_solid(self) -> bool {
        forall|i: int| 0 <= i < 4 ==> !(#[trigger] self.spec_to_poly()[i]).is_point()
    }

    /// The rectangle with its centre moved by `shift` along `x`.
    pub open spec fn shifted(self, shift: int) -> Rectangle {
        Rectangle {
            position: Vector2 { x: (self.position.x + shift) as i64, y: self.position.y },
            ..self
        }
    }

    /// The collision test on the edge loops of the two rectangles.
    #[verifier::opaque]
    pub open spec fn spec_collide(self, other: Rectangle) -> bool {
        edge_lists_collide(self.spec_to_poly(), other.spec_to_poly())
    }

    /// The edge loop encloses `point`.
    pub open spec fn spec_contains_point(self, point: Vector2) -> bool {
        encloses(self.spec_to_poly(), point)
    }

    /// The `x` coordinate of the centre after a turn by `angle` about
    /// `pivot_point`: the centre relative to the pivot is rotated, moved back
    /// and saturated.
    pub open spec fn pivoted_x(self, pivot_point: Vector2, angle: int) -> int {
        let dx = self.position.x - pivot_point.x;
        let dy = self.position.y - pivot_point.y;
        clamp(pivot_point.x + round_div(spec_cos(angle) * dx - spec_sin(angle) * dy, TRIG_ONE as int))
    }

    /// The `y` coordinate of the centre after a turn about `pivot_point`.
    pub open spec fn pivoted_y(self, pivot_point: Vector2, angle: int) -> int {
        let dx = self.position.x - pivot_point.x;
        let dy = self.position.y - pivot_point.y;
        clamp(pivot_point.y + round_div(spec_sin(angle) * dx + spec_cos(angle) * dy, TRIG_ONE as int))
    }

    /// The rectangle whose centre is this one's, turned by `angle` about
    /// `pivot_point` and rounded to `DIGITS` decimal digits. Width and height
    /// are kept; the rotation becomes `angle`.
    pub open spec fn spec_pivot(self, pivot_point: Vector2, angle: i64) -> Rectangle {
        Rectangle {
            position: Vector2 {
                x: spec_round_to_precision(
                    self.pivoted_x(pivot_point, angle as int),
                    DIGITS as int,
                ) as i64,
                y: spec_round_to_precision(
                    self.pivoted_y(pivot_point, angle as int),
                    DIGITS as int,
                ) as i64,
            },
            width: self.width,
            height: self.height,
            rotation: angle,
        }
    }

    /// Tests `wf`.
    pub fn is_wf(&self) -> (ok: bool)
        ensures
            ok == self.wf(),
    {
        self.position.is_in_range() && 0 <= self.width && self.width <= LIMIT && 0 <= self.height
            && self.height <= LIMIT
    }

    /// The corner on the right or left side, at the top or bottom.
    fn corner(&self, right: bool, top: bool) -> (corner: Vector2)
        requires
            self.wf(),
        ensures
            corner == self.spec_corner(side(right), side(top)),
            corner.x == self.corner_x(side(right), side(top)),
            corner.y == self.corner_y(side(right), side(top)),
            -2 * LIMIT <= corner.x <= 2 * LIMIT,
            -2 * LIMIT <= corner.y <= 2 * LIMIT,
    {
        let c: i128 = cos(self.rotation) as i128;
        let s: i128 = sin(self.rotation) as i128;
        let across: i128 = if right {
            self.width as i128
        } else {
            -(self.width as i128)
        };
        let up: i128 = if top {
            self.height as i128
        } else {
            -(self.height as i128)
        };
        proof {
            let one = TRIG_ONE as int;
            let limit = LIMIT as int;
            lemma_product_magnitude(across as int, c as int, limit, one);
            lemma_product_magnitude(up as int, s as int, limit, one);
            lemma_product_magnitude(across as int, s as int, limit, one);
            lemma_product_magnitude(up as int, c as int, limit, one);
            assert(limit * (2 * one) == 2 * (limit * one)) by (nonlinear_arith);
            lemma_round_div_magnitude(across * c - up * s, 2 * one, limit);
            lemma_round_div_magnitude(across * s + up * c, 2 * one, limit);
        }
        let off_x: i128 = rounded_quotient(across * c - up * s, 2 * (TRIG_ONE as i128));
        let off_y: i128 = rounded_quotient(across * s + up * c, 2 * (TRIG_ONE as i128));
        Vector2 {
            x: (self.position.x as i128 + off_x) as i64,
            y: (self.position.y as i128 + off_y) as i64,
        }
    }

    /// The top left corner.
    pub fn top_left(&self) -> (corner: Vector2)
        requires
            self.wf(),
        ensures
            corner == self.spec_top_left(),
            corner.in_reach(),
    {
        self.corner(false, true)
    }

    /// The top right corner.
    pub fn top_right(&self) -> (corner: Vector2)
        requires
            self.wf(),
        ensures
            corner == self.spec_top_right(),
            corner.in_reach(),
    {
        self.corner(true, true)
    }

    /// The bottom right corner.
    pub fn bottom_right(&self) -> (corner: Vector2)
        requires
            self.wf(),
        ensures
            corner == self.spec_bottom_right(),
            corner.in_reach(),
    {
        self.corner(true, false)
    }

    /// The bottom left corner.
    pub fn bottom_left(&self) -> (corner: Vector2)
        requires
            self.wf(),
        ensures
            corner == self.spec_bottom_left(),
            corner.in_reach(),
    {
        self.corner(false, false)
    }

    /// The edge loop of the rectangle: top, right, bottom, left.
    pub fn to_poly(&self) -> (poly: Polygon)
        requires
            self.wf(),
        ensures
            poly@ == self.spec_to_poly(),
            poly.in_reach(),
            is_closed_loop(poly@),
    {
        let tl = self.top_left();
        let tr = self.top_right();
        let br = self.bottom_right();
        let bl = self.bottom_left();
        let mut vertices: Vec<Line> = Vec::new();
        vertices.push(Line { start: tl, end: tr });
        vertices.push(Line { start: tr, end: br });
        vertices.push(Line { start: br, end: bl });
        vertices.push(Line { start: bl, end: tl });
        let poly = Polygon { vertices };
        assert(poly@ =~= self.spec_to_poly());
        poly
    }

    /// Tests whether the rectangle collides with `rect`.
    pub fn collide(&self, rect: &Rectangle) -> (hit: bool)
        requires
            self.wf(),
            rect.wf(),
        ensures
            hit == self.spec_collide(*rect),
            self.rotation == 0 && rect.rotation == 0 && !strictly_inside(*self, *rect)
                && !strictly_inside(*rect, *self) ==> hit == rect.spec_collide(*self),
    {
        proof {
            if self.rotation == 0 && rect.rotation == 0 && !strictly_inside(*self, *rect)
                && !strictly_inside(*rect, *self) {
                lemma_collide_symmetric(*self, *rect);
            }
            reveal(Rectangle::spec_collide);
        }
        let mine = self.to_poly();
        let theirs = rect.to_poly();
        mine.collide(&theirs)
    }

    /// Turns the centre by `angle` about `pivot_point`.
    pub fn pivot(&self, pivot_point: Vector2, angle: i64) -> (turned: Rectangle)
        requires
            self.wf(),
            pivot_point.in_range(),
        ensures
            turned == self.spec_pivot(pivot_point, angle),
            turned.wf(),
            pivot_point == self.position ==> turned.position == self.position,
    {
        proof {
            if pivot_point == self.position {
                lemma_pivot_about_centre(*self, angle);
            }
        }
        let c: i128 = cos(angle) as i128;
        let s: i128 = sin(angle) as i128;
        let centered_x: i128 = self.position.x as i128 - pivot_point.x as i128;
        let centered_y: i128 = self.position.y as i128 - pivot_point.y as i128;
        proof {
            let one = TRIG_ONE as int;
            let reach = 2 * LIMIT as int;
            lemma_product_magnitude(c as int, centered_x as int, one, reach);
            lemma_product_magnitude(s as int, centered_y as int, one, reach);
            lemma_product_magnitude(s as int, centered_x as int, one, reach);
            lemma_product_magnitude(c as int, centered_y as int, one, reach);
            assert((2 * reach) * one == 2 * (one * reach)) by (nonlinear_arith);
            lemma_round_div_magnitude(c * centered_x - s * centered_y, one, 2 * reach);
            lemma_round_div_magnitude(s * centered_x + c * centered_y, one, 2 * reach);
        }
        let d_x: i128 = rounded_quotient(c * centered_x - s * centered_y, TRIG_ONE as i128);
        let d_y: i128 = rounded_quotient(s * centered_x + c * centered_y, TRIG_ONE as i128);
        let pos_x: i64 = saturate(pivot_point.x as i128 + d_x);
        let pos_y: i64 = saturate(pivot_point.y as i128 + d_y);
        let position = Vector2 {
            x: round_to_precision(pos_x, DIGITS),
            y: round_to_precision(pos_y, DIGITS),
        };
        Rectangle { position, width: self.width, height: self.height, rotation: angle }
    }

    /// Tests whether the rectangle's edge loop encloses `point`.
    pub fn contains_point(&self, point: Vector2) -> (inside: bool)
        requires
            self.wf(),
            point.in_reach(),
        ensures
            inside == self.spec_contains_point(point),
    {
        self.to_poly().collide_point(point)
    }
}

/// Turning a rectangle about its own centre leaves the centre where it is,
/// whatever the angle; only the rotation changes.
pub proof fn lemma_pivot_about_centre(rect: Rectangle, angle: i64)
    requires
        rect.wf(),
    ensures
        rect.spec_pivot(rect.position, angle).position == rect.position,
        rect.spec_pivot(rect.position, angle).width == rect.width,
        rect.spec_pivot(rect.position, angle).height == rect.height,
        rect.spec_pivot(rect.position, angle).rotation == angle,
{
    let c = spec_cos(angle as int);
    let s = spec_sin(angle as int);
    assert(c * 0 - s * 0 == 0) by (nonlinear_arith);
    assert(s * 0 + c * 0 == 0) by (nonlinear_arith);
    crate::fixed::lemma_round_div_exact(0, TRIG_ONE as int);
    assert(0 * (TRIG_ONE as int) == 0);
}

/// No corner is farther from the centre than `reach`, along either axis.
pub proof fn lemma_corner_within_reach(rect: Rectangle, side_x: int, side_y: int)
    requires
        rect.wf(),
        side_x == 1 || side_x == -1,
        side_y == 1 || side_y == -1,
    ensures
        rect.position.x - rect.reach() <= rect.corner_x(side_x, side_y) <= rect.position.x
            + rect.reach(),
        rect.position.y - rect.reach() <= rect.corner_y(side_x, side_y) <= rect.position.y
            + rect.reach(),
        rect.spec_corner(side_x, side_y).x == rect.corner_x(side_x, side_y),
        rect.spec_corner(side_x, side_y).y == rect.corner_y(side_x, side_y),
{
    let one = TRIG_ONE as int;
    let w = rect.width as int;
    let h = rect.height as int;
    let c = spec_cos(rect.rotation as int);
    let s = spec_sin(rect.rotation as int);
    lemma_sin_cos_bounds(rect.rotation as int);
    assert(-w <= side_x * w <= w && -h <= side_y * h <= h) by (nonlinear_arith)
        requires
            side_x == 1 || side_x == -1,
            side_y == 1 || side_y == -1,
            w >= 0,
            h >= 0,
    ;
    lemma_product_magnitude(side_x * w, c, w, one);
    lemma_product_magnitude(side_y * h, s, h, one);
    lemma_product_magnitude(side_x * w, s, w, one);
    lemma_product_magnitude(side_y * h, c, h, one);
    let reach = rect.reach();
    assert(w * one + h * one <= reach * (2 * one)) by (nonlinear_arith)
        requires
            2 * reach >= w + h,
            one > 0,
    ;
    lemma_round_div_magnitude(side_x * w * c - side_y * h * s, 2 * one, reach);
    lemma_round_div_magnitude(side_x * w * s + side_y * h * c, 2 * one, reach);
}

/// Every edge of a rectangle has the heights of both ends within `reach` of
/// the height of the centre.
pub proof fn lemma_edges_within_reach(rect: Rectangle)
    requires
        rect.wf(),
    ensures
        rect.spec_to_poly().len() == 4,
        forall|i: int|
            0 <= i < 4 ==> {
                let edge = #[trigger] rect.spec_to_poly()[i];
                &&& rect.position.y - rect.reach() <= edge.start.y <= rect.position.y
                    + rect.reach()
                &&& rect.position.y - rect.reach() <= edge.end.y <= rect.position.y + rect.reach()
            },
{
    lemma_corner_within_reach(rect, -1, 1);
    lemma_corner_within_reach(rect, 1, 1);
    lemma_corner_within_reach(rect, 1, -1);
    lemma_corner_within_reach(rect, -1, -1);
}

/// Moving the centre of a rectangle along `x` moves each of its edges by as
/// much.
pub proof fn lemma_shifted_edges(rect: Rectangle, shift: int)
    requires
        rect.wf(),
        rect.shifted(shift).wf(),
        rect.shifted(shift).position.x == rect.position.x + shift,
    ensures
        forall|i: int|
            0 <= i < 4 ==> (#[trigger] rect.spec_to_poly()[i]).is_shifted_to(
                rect.shifted(shift).spec_to_poly()[i],
                shift,
            ),
{
    let moved = rect.shifted(shift);
    lemma_corner_within_reach(rect, -1, 1);
    lemma_corner_within_reach(rect, 1, 1);
    lemma_corner_within_reach(rect, 1, -1);
    lemma_corner_within_reach(rect, -1, -1);
    lemma_corner_within_reach(moved, -1, 1);
    lemma_corner_within_reach(moved, 1, 1);
    lemma_corner_within_reach(moved, 1, -1);
    lemma_corner_within_reach(moved, -1, -1);
    let before = rect.spec_to_poly();
    let after = moved.spec_to_poly();
    assert(before[0].is_shifted_to(after[0], shift));
    assert(before[1].is_shifted_to(after[1], shift));
    assert(before[2].is_shifted_to(after[2], shift));
    assert(before[3].is_shifted_to(after[3], shift));
}

/// Whether a rectangle has an edge that is a single point depends on its
/// width, height and rotation alone, not on its place.
pub proof fn lemma_same_shape_is_solid(rect: Rectangle, other: Rectangle)
    requires
        rect.wf(),
        other.wf(),
        rect.width == other.width,
        rect.height == other.height,
        rect.rotation == other.rotation,
    ensures
        rect.is_solid() == other.is_solid(),
{
    lemma_corner_within_reach(rect, -1, 1);
    lemma_corner_within_reach(rect, 1, 1);
    lemma_corner_within_reach(rect, 1, -1);
    lemma_corner_within_reach(rect, -1, -1);
    lemma_corner_within_reach(other, -1, 1);
    lemma_corner_within_reach(other, 1, 1);
    lemma_corner_within_reach(other, 1, -1);
    lemma_corner_within_reach(other, -1, -1);
    let mine = rect.spec_to_poly();
    let theirs = other.spec_to_poly();
    assert(mine[0].is_point() == theirs[0].is_point());
    assert(mine[1].is_point() == theirs[1].is_point());
    assert(mine[2].is_point() == theirs[2].is_point());
    assert(mine[3].is_point() == theirs[3].is_point());
    if rect.is_solid() {
        assert forall|i: int| 0 <= i < 4 implies !(#[trigger] theirs[i]).is_point() by {
            assert(mine[i].is_point() == theirs[i].is_point());
        }
    }
    if other.is_solid() {
        assert forall|i: int| 0 <= i < 4 implies !(#[trigger] mine[i]).is_point() by {
            assert(mine[i].is_point() == theirs[i].is_point());
        }
    }
}

/// Two rounded quotients by the same divisor differ where their numerators
/// are more than the divisor apart, whichever is the larger.
proof fn lemma_quotients_differ(first: int, second: int, d: int)
    requires
        d > 0,
        second - first > d || first - second > d,
    ensures
        round_div(first, d) != round_div(second, d),
{
    if second - first > d {
        lemma_round_div_apart(first, second, d);
    } else {
        lemma_round_div_apart(second, first, d);
    }
}

/// A rectangle whose width and height are at least two millionths has no
/// edge that is a single point, whatever its rotation: of sine and cosine one
/// is larger than a half, so the ends of each edge are more than a millionth
/// apart along one axis before they are rounded.
pub proof fn lemma_large_enough_is_solid(rect: Rectangle)
    requires
        rect.wf(),
        rect.width >= 2,
        rect.height >= 2,
    ensures
        rect.is_solid(),
{
    let one = TRIG_ONE as int;
    let w = rect.width as int;
    let h = rect.height as int;
    let c = spec_cos(rect.rotation as int);
    let s = spec_sin(rect.rotation as int);
    lemma_squares_add_up(rect.rotation as int);
    lemma_corner_within_reach(rect, -1, 1);
    lemma_corner_within_reach(rect, 1, 1);
    lemma_corner_within_reach(rect, 1, -1);
    lemma_corner_within_reach(rect, -1, -1);
    let wc = w * c;
    let ws = w * s;
    let hc = h * c;
    let hs = h * s;
    // The numerators of the four corners, along `x` and along `y`.
    assert((-1) * w * c - 1 * h * s == -wc - hs && 1 * w * c - 1 * h * s == wc - hs && 1 * w * c
        - (-1) * h * s == wc + hs && (-1) * w * c - (-1) * h * s == -wc + hs) by (nonlinear_arith)
        requires
            wc == w * c,
            hs == h * s,
    ;
    assert((-1) * w * s + 1 * h * c == -ws + hc && 1 * w * s + 1 * h * c == ws + hc && 1 * w * s
        + (-1) * h * c == ws - hc && (-1) * w * s + (-1) * h * c == -ws - hc) by (nonlinear_arith)
        requires
            ws == w * s,
            hc == h * c,
    ;
    // Along the width and along the height, the ends of an edge are apart
    // by twice one of these products, and one of each pair is large.
    assert((2 * wc > 2 * one || 2 * wc < -2 * one || 2 * ws > 2 * one || 2 * ws < -2 * one) && (2
        * hc > 2 * one || 2 * hc < -2 * one || 2 * hs > 2 * one || 2 * hs < -2 * one))
        by (nonlinear_arith)
        requires
            wc == w * c,
            ws == w * s,
            hc == h * c,
            hs == h * s,
            w >= 2,
            h >= 2,
            2 * s > one || 2 * s < -one || 2 * c > one || 2 * c < -one,
            one > 0,
    ;
    let d = 2 * one;
    let edges = rect.spec_to_poly();
    if 2 * wc > d || 2 * wc < -d {
        lemma_quotients_differ(-wc - hs, wc - hs, d);
        lemma_quotients_differ(wc + hs, -wc + hs, d);
    } else {
        lemma_quotients_differ(-ws + hc, ws + hc, d);
        lemma_quotients_differ(ws - hc, -ws - hc, d);
    }
    if 2 * hs > d || 2 * hs < -d {
        lemma_quotients_differ(wc - hs, wc + hs, d);
        lemma_quotients_differ(-wc + hs, -wc - hs, d);
    } else {
        lemma_quotients_differ(ws + hc, ws - hc, d);
        lemma_quotients_differ(-ws - hc, -ws + hc, d);
    }
    assert(!edges[0].is_point());
    assert(!edges[1].is_point());
    assert(!edges[2].is_point());
    assert(!edges[3].is_point());
}

/// A displacement turned by an angle and rounded, then turned by the opposite
/// angle and rounded, comes back to within a millionth: the first of its two
/// coordinates. `c` and `s` are the cosine and the sine of the angle, `turned`
/// and `across` the two coordinates of the displacement after the first turn.
proof fn lemma_turned_back(c: int, s: int, x: int, y: int, turned: int, across: int, back: int)
    requires
        -TRIG_ONE <= c <= TRIG_ONE,
        -TRIG_ONE <= s <= TRIG_ONE,
        -square_slack() <= s * s + c * c - TRIG_ONE * TRIG_ONE <= 0,
        -2 * LIMIT <= x <= 2 * LIMIT,
        turned == round_div(c * x - s * y, TRIG_ONE as int),
        across == round_div(s * x + c * y, TRIG_ONE as int),
        back == round_div(c * turned + s * across, TRIG_ONE as int),
    ensures
        x - 1 <= back <= x + 1,
{
    let one = TRIG_ONE as int;
    let first = c * x - s * y;
    let second = s * x + c * y;
    lemma_round_div_nearest(first, one);
    lemma_round_div_nearest(second, one);
    let miss_first = 2 * first - 2 * one * turned;
    let miss_second = 2 * second - 2 * one * across;
    let sum = c * turned + s * across;
    lemma_round_div_nearest(sum, one);
    let squares = c * c + s * s;
    // Turning back undoes the turn but for the squares of cosine and sine.
    assert(c * first + s * second == squares * x) by {
        assert(c * first == c * (c * x) - c * (s * y)) by (nonlinear_arith)
            requires
                first == c * x - s * y,
        ;
        assert(s * second == s * (s * x) + s * (c * y)) by (nonlinear_arith)
            requires
                second == s * x + c * y,
        ;
        assert(c * (s * y) == s * (c * y)) by (nonlinear_arith);
        assert(c * (c * x) + s * (s * x) == squares * x) by (nonlinear_arith)
            requires
                squares == c * c + s * s,
        ;
    }
    assert(2 * one * sum == 2 * (c * first + s * second) - c * miss_first - s * miss_second) by {
        assert(c * (2 * one * turned) == 2 * (c * first) - c * miss_first) by (nonlinear_arith)
            requires
                miss_first == 2 * first - 2 * one * turned,
        ;
        assert(s * (2 * one * across) == 2 * (s * second) - s * miss_second) by (nonlinear_arith)
            requires
                miss_second == 2 * second - 2 * one * across,
        ;
        assert(2 * one * sum == c * (2 * one * turned) + s * (2 * one * across))
            by (nonlinear_arith)
            requires
                sum == c * turned + s * across,
        ;
    }
    let slack = squares - one * one;
    assert(squares * x == one * one * x + slack * x) by (nonlinear_arith)
        requires
            slack == squares - one * one,
    ;
    lemma_product_magnitude(slack, x, square_slack(), 2 * LIMIT as int);
    lemma_product_magnitude(c, miss_first, one, one);
    lemma_product_magnitude(s, miss_second, one, one);
    let rest = 2 * (slack * x) - c * miss_first - s * miss_second;
    assert(2 * one * sum == 2 * (one * one * x) + rest);
    assert(-(3 * (one * one)) < rest && rest < 3 * (one * one)) by {
        assert(square_slack() * (2 * LIMIT) == 4_000_000_000_000_000_002_000_000_000_000)
            by (nonlinear_arith)
            requires
                square_slack() == 2_000_000_000_000_000_001,
                LIMIT == 1_000_000_000_000,
        ;
        assert(one * one == 1_000_000_000_000_000_000_000_000_000_000_000_000) by (nonlinear_arith)
            requires
                one == 1_000_000_000_000_000_000,
        ;
    }
    assert(x - 1 <= back <= x + 1) by (nonlinear_arith)
        requires
            one == 1_000_000_000_000_000_000,
            -one <= 2 * sum - 2 * one * back <= one,
            2 * one * sum == 2 * (one * one * x) + rest,
            -(3 * (one * one)) < rest < 3 * (one * one),
    {
        assert(one * (2 * sum - 2 * one * back) == 2 * (one * one * x) + rest - 2 * (one * one
            * back));
        assert(-(one * one) <= one * (2 * sum - 2 * one * back) <= one * one);
        assert(2 * (one * one * x) - 2 * (one * one * back) == 2 * (one * one) * (x - back));
        assert(-(4 * (one * one)) < 2 * (one * one) * (x - back) < 4 * (one * one));
    }
}

/// A turn about a point and the opposite turn about the same point bring the
/// centre of a rectangle back to within a millionth along either axis, where
/// the first turn does not take the centre beyond the saturation bounds.
/// Width and height are kept.
pub proof fn lemma_pivot_round_trip(rect: Rectangle, pivot_point: Vector2, angle: i64)
    requires
        rect.wf(),
        pivot_point.in_range(),
        angle > i64::MIN,
        in_range(
            pivot_point.x + round_div(
                spec_cos(angle as int) * (rect.position.x - pivot_point.x) - spec_sin(angle as int)
                    * (rect.position.y - pivot_point.y),
                TRIG_ONE as int,
            ),
        ),
        in_range(
            pivot_point.y + round_div(
                spec_sin(angle as int) * (rect.position.x - pivot_point.x) + spec_cos(angle as int)
                    * (rect.position.y - pivot_point.y),
                TRIG_ONE as int,
            ),
        ),
    ensures
        ({
            let back = rect.spec_pivot(pivot_point, angle).spec_pivot(pivot_point, (-angle) as i64);
            &&& rect.position.x - 1 <= back.position.x <= rect.position.x + 1
            &&& rect.position.y - 1 <= back.position.y <= rect.position.y + 1
            &&& back.width == rect.width
            &&& back.height == rect.height
        }),
{
    let one = TRIG_ONE as int;
    let c = spec_cos(angle as int);
    let s = spec_sin(angle as int);
    let x = rect.position.x - pivot_point.x;
    let y = rect.position.y - pivot_point.y;
    let turned = round_div(c * x - s * y, one);
    let across = round_div(s * x + c * y, one);
    lemma_sin_cos_bounds(angle as int);
    lemma_squares_add_up(angle as int);
    lemma_sin_odd_cos_even(angle as int);
    let there = rect.spec_pivot(pivot_point, angle);
    assert(there.position.x == pivot_point.x + turned);
    assert(there.position.y == pivot_point.y + across);
    let opposite = (-angle) as i64;
    assert(spec_cos(opposite as int) == c && spec_sin(opposite as int) == -s);
    let back_x = round_div(c * turned - (-s) * across, one);
    let back_y = round_div((-s) * turned + c * across, one);
    assert((-s) * across == -(s * across)) by (nonlinear_arith);
    assert((-s) * turned == -(s * turned)) by (nonlinear_arith);
    assert((-s) * x == -(s * x)) by (nonlinear_arith);
    assert((-s) * y == -(s * y)) by (nonlinear_arith);
    assert((-s) * (-s) == s * s) by (nonlinear_arith);
    lemma_turned_back(c, s, x, y, turned, across, back_x);
    lemma_turned_back(c, -s, y, x, across, turned, back_y);
    let back = there.spec_pivot(pivot_point, opposite);
    assert(back.position.x == clamp(pivot_point.x + back_x));
    assert(back.position.y == clamp(pivot_point.y + back_y));
}

} // verus!
