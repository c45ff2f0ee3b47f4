//! Line segments and their intersection test.

use vstd::prelude::*;
use crate::fixed::lemma_product_magnitude;
use crate::vector::Vector2;

verus! {

/// A segment from `start` to `end`.
#[derive(Clone, Copy, Debug, PartialEq, Eq, Structural)]
pub struct Line {
    pub start: Vector2,
    pub end: Vector2,
}

/// For a nonzero `denominator`, the quotient `numerator / denominator` lies
/// between zero and one, both included.
pub open spec fn in_unit_interval(numerator: int, denominator: int) -> bool {
    if denominator > 0 {
        0 <= numerator <= denominator
    } else {
        denominator <= numerator <= 0
    }
}

impl Line {
    /// Both ends are small enough for the intersection test.
    pub open spec fn in_reach(self) -> bool {
        self.start.in_reach() && self.end.in_reach()
    }

    /// The cross product of the two directions. It is zero exactly when the
    /// segments are parallel or one of them is a single point.
    pub open spec fn denominator(self, other: Line) -> int {
        (self.end.x - self.start.x) * (other.end.y - other.start.y) - (self.end.y - self.start.y)
            * (other.end.x - other.start.x)
    }

    /// Over `denominator`, the parameter along `self` at which the two
    /// carrying lines meet.
    pub open spec fn numerator_along_self(self, other: Line) -> int {
        (self.start.y - other.start.y) * (other.end.x - other.start.x) - (self.start.x
            - other.start.x) * (other.end.y - other.start.y)
    }

    /// Over `denominator`, the parameter along `other` at which the two
    /// carrying lines meet.
    pub open spec fn numerator_along_other(self, other: Line) -> int {
        (self.start.y - other.start.y) * (self.end.x - self.start.x) - (self.start.x
            - other.start.x) * (self.end.y - self.start.y)
    }

    /// The parametric intersection test, in exact arithmetic. Segments that
    /// are not parallel meet when the meeting point of their carrying lines
    /// has both parameters between zero and one. Parallel segments count as
    /// meeting when both numerators vanish, that is when they lie on one
    /// line, whether or not they overlap there.
    pub open spec fn spec_collide(self, other: Line) -> bool {
        let d = self.denominator(other);
        let n1 = self.numerator_along_self(other);
        let n2 = self.numerator_along_other(other);
        if d == 0 {
            n1 == 0 && n2 == 0
        } else {
            in_unit_interval(n1, d) && in_unit_interval(n2, d)
        }
    }

    /// Tests whether both ends are small enough for the intersection test.
    pub fn is_in_reach(&self) -> (ok: bool)
        ensures
            ok == self.in_reach(),
    {
        self.start.is_in_reach() && self.end.is_in_reach()
    }

    /// Tests whether this segment meets `other`.
    pub fn collide(&self, other: &Line) -> (hit: bool)
        requires
            self.in_reach(),
            other.in_reach(),
        ensures
            hit == self.spec_collide(*other),
    {
        let run1: i128 = self.end.x as i128 - self.start.x as i128;
        let rise1: i128 = self.end.y as i128 - self.start.y as i128;
        let run2: i128 = other.end.x as i128 - other.start.x as i128;
        let rise2: i128 = other.end.y as i128 - other.start.y as i128;
        let gap_x: i128 = self.start.x as i128 - other.start.x as i128;
        let gap_y: i128 = self.start.y as i128 - other.start.y as i128;
        proof {
            let b = 2_000_000_000_000_000_000int;
            lemma_product_magnitude(run1 as int, rise2 as int, b, b);
            lemma_product_magnitude(rise1 as int, run2 as int, b, b);
            lemma_product_magnitude(gap_y as int, run2 as int, b, b);
            lemma_product_magnitude(gap_x as int, rise2 as int, b, b);
            lemma_product_magnitude(gap_y as int, run1 as int, b, b);
            lemma_product_magnitude(gap_x as int, rise1 as int, b, b);
        }
        let denominator: i128 = run1 * rise2 - rise1 * run2;
        let numerator1: i128 = gap_y * run2 - gap_x * rise2;
        let numerator2: i128 = gap_y * run1 - gap_x * rise1;
        if denominator == 0 {
            numerator1 == 0 && numerator2 == 0
        } else if denominator > 0 {
            0 <= numerator1 && numerator1 <= denominator && 0 <= numerator2 && numerator2
                <= denominator
        } else {
            denominator <= numerator1 && numerator1 <= 0 && denominator <= numerator2
                && numerator2 <= 0
        }
    }
}

/// The intersection test does not depend on the order of the two segments.
pub proof fn lemma_line_collide_symmetric(a: Line, b: Line)
    ensures
        a.spec_collide(b) == b.spec_collide(a),
{
    let run1 = a.end.x - a.start.x;
    let rise1 = a.end.y - a.start.y;
    let run2 = b.end.x - b.start.x;
    let rise2 = b.end.y - b.start.y;
    let gap_x = a.start.x - b.start.x;
    let gap_y = a.start.y - b.start.y;
    assert(b.denominator(a) == -a.denominator(b)) by (nonlinear_arith)
        requires
            a.denominator(b) == run1 * rise2 - rise1 * run2,
            b.denominator(a) == run2 * rise1 - rise2 * run1,
    ;
    assert(b.numerator_along_self(a) == -a.numerator_along_other(b)) by (nonlinear_arith)
        requires
            a.numerator_along_other(b) == gap_y * run1 - gap_x * rise1,
            b.numerator_along_self(a) == (-gap_y) * run1 - (-gap_x) * rise1,
    ;
    assert(b.numerator_along_other(a) == -a.numerator_along_self(b)) by (nonlinear_arith)
        requires
            a.numerator_along_self(b) == gap_y * run2 - gap_x * rise2,
            b.numerator_along_other(a) == (-gap_y) * run2 - (-gap_x) * rise2,
    ;
}

/// `value` lies between `a` and `b`, in either order, ends included.
pub open spec fn lies_between(value: int, a: int, b: int) -> bool {
    (a <= value <= b) || (b <= value <= a)
}

impl Line {
    /// Twice the signed area of the triangle from `start` over `end` to
    /// `point`: positive on one side of the carrying line, negative on the
    /// other, zero on it.
    pub open spec fn side_of(self, point: Vector2) -> int {
        (self.end.x - self.start.x) * (point.y - self.start.y) - (self.end.y - self.start.y) * (
        point.x - self.start.x)
    }

    /// Both ends have the same `x`.
    pub open spec fn is_vertical(self) -> bool {
        self.start.x == self.end.x
    }

    /// Both ends have the same `y`.
    pub open spec fn is_horizontal(self) -> bool {
        self.start.y == self.end.y
    }
}

impl Line {
    /// The ends of `other` do not lie strictly on the same side of the
    /// carrying line of `self`.
    pub open spec fn separates(self, other: Line) -> bool {
        !(self.side_of(other.start) > 0 && self.side_of(other.end) > 0) && !(self.side_of(
            other.start,
        ) < 0 && self.side_of(other.end) < 0)
    }
}

/// The sides on which the ends of `b` lie of the carrying line of `a`, in
/// terms of the intersection test.
proof fn lemma_sides_of(a: Line, b: Line)
    ensures
        a.side_of(b.start) == -a.numerator_along_other(b),
        a.side_of(b.end) == a.denominator(b) - a.numerator_along_other(b),
        b.side_of(a.start) == a.numerator_along_self(b),
        b.side_of(a.end) == a.numerator_along_self(b) - a.denominator(b),
{
    let run1 = a.end.x - a.start.x;
    let rise1 = a.end.y - a.start.y;
    let run2 = b.end.x - b.start.x;
    let rise2 = b.end.y - b.start.y;
    let gap_x = a.start.x - b.start.x;
    let gap_y = a.start.y - b.start.y;
    let d = a.denominator(b);
    let n1 = a.numerator_along_self(b);
    let n2 = a.numerator_along_other(b);
    assert(a.side_of(b.start) == -n2) by (nonlinear_arith)
        requires
            a.side_of(b.start) == run1 * (-gap_y) - rise1 * (-gap_x),
            n2 == gap_y * run1 - gap_x * rise1,
    ;
    assert(a.side_of(b.end) == d - n2) by (nonlinear_arith)
        requires
            a.side_of(b.end) == run1 * (rise2 - gap_y) - rise1 * (run2 - gap_x),
            n2 == gap_y * run1 - gap_x * rise1,
            d == run1 * rise2 - rise1 * run2,
    ;
    assert(b.side_of(a.start) == n1) by (nonlinear_arith)
        requires
            b.side_of(a.start) == run2 * gap_y - rise2 * gap_x,
            n1 == gap_y * run2 - gap_x * rise2,
    ;
    assert(b.side_of(a.end) == n1 - d) by (nonlinear_arith)
        requires
            b.side_of(a.end) == run2 * (gap_y + rise1) - rise2 * (gap_x + run1),
            n1 == gap_y * run2 - gap_x * rise2,
            d == run1 * rise2 - rise1 * run2,
    ;
}

/// A segment whose two ends lie strictly on one side of the carrying line of
/// another does not meet it.
pub proof fn lemma_same_side_no_meet(a: Line, b: Line)
    requires
        !a.separates(b),
    ensures
        !a.spec_collide(b),
        !b.spec_collide(a),
{
    lemma_line_collide_symmetric(a, b);
    lemma_sides_of(a, b);
}

/// A vertical and a horizontal segment meet where the height of the
/// horizontal one lies between the ends of the vertical one, and the place of
/// the vertical one between the ends of the horizontal one.
pub proof fn lemma_upright_pair_meets(v: Line, h: Line)
    requires
        v.is_vertical(),
        h.is_horizontal(),
        lies_between(h.start.y as int, v.start.y as int, v.end.y as int),
        lies_between(v.start.x as int, h.start.x as int, h.end.x as int),
    ensures
        v.spec_collide(h),
        h.spec_collide(v),
{
    lemma_line_collide_symmetric(v, h);
    let rise1 = v.end.y - v.start.y;
    let run2 = h.end.x - h.start.x;
    let gap_x = v.start.x - h.start.x;
    let gap_y = v.start.y - h.start.y;
    let d = v.denominator(h);
    let n1 = v.numerator_along_self(h);
    let n2 = v.numerator_along_other(h);
    assert(d == -(rise1 * run2)) by (nonlinear_arith)
        requires
            d == (v.end.x - v.start.x) * (h.end.y - h.start.y) - rise1 * run2,
            v.end.x - v.start.x == 0,
            h.end.y - h.start.y == 0,
    ;
    assert(n1 == gap_y * run2) by (nonlinear_arith)
        requires
            n1 == gap_y * run2 - gap_x * (h.end.y - h.start.y),
            h.end.y - h.start.y == 0,
    ;
    assert(n2 == -(gap_x * rise1)) by (nonlinear_arith)
        requires
            n2 == gap_y * (v.end.x - v.start.x) - gap_x * rise1,
            v.end.x - v.start.x == 0,
    ;
    // The height of `h` above the start of `v` is `-gap_y`, a part of `rise1`
    // of the same sign; the place of `v` beyond the start of `h` is `gap_x`,
    // a part of `run2` of the same sign.
    assert(lies_between(-gap_y, 0, rise1));
    assert(lies_between(gap_x, 0, run2));
    assert(if d == 0 {
        n1 == 0 && n2 == 0
    } else {
        in_unit_interval(n1, d) && in_unit_interval(n2, d)
    }) by (nonlinear_arith)
        requires
            d == -(rise1 * run2),
            n1 == gap_y * run2,
            n2 == -(gap_x * rise1),
            (0 <= -gap_y <= rise1) || (rise1 <= -gap_y <= 0),
            (0 <= gap_x <= run2) || (run2 <= gap_x <= 0),
    ;
}

/// Two vertical segments at the same `x` lie on one line, and so count as
/// meeting.
pub proof fn lemma_vertical_pair_on_one_line(a: Line, b: Line)
    requires
        a.is_vertical(),
        b.is_vertical(),
        a.start.x == b.start.x,
    ensures
        a.spec_collide(b),
{
    let rise1 = a.end.y - a.start.y;
    let rise2 = b.end.y - b.start.y;
    let gap_y = a.start.y - b.start.y;
    assert(a.denominator(b) == 0 && a.numerator_along_self(b) == 0 && a.numerator_along_other(b)
        == 0) by (nonlinear_arith)
        requires
            a.denominator(b) == (a.end.x - a.start.x) * rise2 - rise1 * (b.end.x - b.start.x),
            a.numerator_along_self(b) == gap_y * (b.end.x - b.start.x) - (a.start.x - b.start.x)
                * rise2,
            a.numerator_along_other(b) == gap_y * (a.end.x - a.start.x) - (a.start.x - b.start.x)
                * rise1,
            a.end.x - a.start.x == 0,
            b.end.x - b.start.x == 0,
            a.start.x - b.start.x == 0,
    ;
}

impl Line {
    /// The two segments are parallel, or one of them is a single point, and
    /// both numerators of the intersection test vanish: the case in which the
    /// test reports a meeting without looking for a common point.
    pub open spec fn on_one_line(self, other: Line) -> bool {
        self.denominator(other) == 0 && self.numerator_along_self(other) == 0
            && self.numerator_along_other(other) == 0
    }

    /// Both ends lie strictly below the height `level`.
    pub open spec fn below(self, level: int) -> bool {
        self.start.y < level && self.end.y < level
    }

    /// Both ends lie at the height `level` or above it.
    pub open spec fn not_below(self, level: int) -> bool {
        self.start.y >= level && self.end.y >= level
    }
}

/// Where two carrying lines meet, the height reached along the one equals
/// the height reached along the other. Multiplied by the denominator of the
/// intersection test this is an identity of its three terms.
proof fn lemma_meeting_height(run1: int, rise1: int, run2: int, rise2: int, gap_x: int, gap_y: int)
    ensures
        (run1 * rise2 - rise1 * run2) * gap_y + (gap_y * run2 - gap_x * rise2) * rise1 - (gap_y
            * run1 - gap_x * rise1) * rise2 == 0,
{
    let a = run1 * rise2;
    let b = rise1 * run2;
    let c = gap_y * run2;
    let e = gap_x * rise2;
    let f = gap_y * run1;
    let g = gap_x * rise1;
    assert((a - b) * gap_y == a * gap_y - b * gap_y) by (nonlinear_arith);
    assert((c - e) * rise1 == c * rise1 - e * rise1) by (nonlinear_arith);
    assert((f - g) * rise2 == f * rise2 - g * rise2) by (nonlinear_arith);
    assert(a * gap_y == f * rise2) by (nonlinear_arith)
        requires
            a == run1 * rise2,
            f == gap_y * run1,
    ;
    assert(b * gap_y == c * rise1) by (nonlinear_arith)
        requires
            b == rise1 * run2,
            c == gap_y * run2,
    ;
    assert(e * rise1 == g * rise2) by (nonlinear_arith)
        requires
            e == gap_x * rise2,
            g == gap_x * rise1,
    ;
}

/// Two segments of which one lies below a height and the other does not are
/// reported as meeting only in the case `on_one_line`.
pub proof fn lemma_apart_meets_only_on_one_line(low: Line, high: Line, level: int)
    requires
        low.below(level),
        high.not_below(level),
    ensures
        low.spec_collide(high) == low.on_one_line(high),
        high.spec_collide(low) == low.on_one_line(high),
{
    lemma_line_collide_symmetric(low, high);
    let rise1 = low.end.y - low.start.y;
    let rise2 = high.end.y - high.start.y;
    let run1 = low.end.x - low.start.x;
    let run2 = high.end.x - high.start.x;
    let gap_x = low.start.x - high.start.x;
    let gap_y = low.start.y - high.start.y;
    let d = low.denominator(high);
    let n1 = low.numerator_along_self(high);
    let n2 = low.numerator_along_other(high);
    lemma_meeting_height(run1, rise1, run2, rise2, gap_x, gap_y);
    let s1 = low.start.y as int;
    let s2 = high.start.y as int;
    if d > 0 && 0 <= n1 <= d && 0 <= n2 <= d {
        assert(false) by (nonlinear_arith)
            requires
                d > 0,
                0 <= n1 <= d,
                0 <= n2 <= d,
                d * (s1 - s2) + n1 * rise1 - n2 * rise2 == 0,
                s1 < level,
                s1 + rise1 < level,
                s2 >= level,
                s2 + rise2 >= level,
        {
            assert((d - n1) * s1 + n1 * (s1 + rise1) <= (d - n1) * (level - 1) + n1 * (level - 1));
            assert((d - n2) * s2 + n2 * (s2 + rise2) >= (d - n2) * level + n2 * level);
        }
    }
    if d < 0 && d <= n1 <= 0 && d <= n2 <= 0 {
        assert(false) by (nonlinear_arith)
            requires
                d < 0,
                d <= n1 <= 0,
                d <= n2 <= 0,
                d * (s1 - s2) + n1 * rise1 - n2 * rise2 == 0,
                s1 < level,
                s1 + rise1 < level,
                s2 >= level,
                s2 + rise2 >= level,
        {
            assert((n1 - d) * s1 + (-n1) * (s1 + rise1) <= (n1 - d) * (level - 1) + (-n1) * (level
                - 1));
            assert((n2 - d) * s2 + (-n2) * (s2 + rise2) >= (n2 - d) * level + (-n2) * level);
        }
    }
}

/// Whether two segments are in the case `on_one_line` does not depend on
/// their order.
pub proof fn lemma_on_one_line_symmetric(a: Line, b: Line)
    ensures
        a.on_one_line(b) == b.on_one_line(a),
{
    let run1 = a.end.x - a.start.x;
    let rise1 = a.end.y - a.start.y;
    let run2 = b.end.x - b.start.x;
    let rise2 = b.end.y - b.start.y;
    let gap_x = a.start.x - b.start.x;
    let gap_y = a.start.y - b.start.y;
    assert(b.denominator(a) == -a.denominator(b)) by (nonlinear_arith)
        requires
            a.denominator(b) == run1 * rise2 - rise1 * run2,
            b.denominator(a) == run2 * rise1 - rise2 * run1,
    ;
    assert(b.numerator_along_self(a) == -a.numerator_along_other(b)) by (nonlinear_arith)
        requires
            a.numerator_along_other(b) == gap_y * run1 - gap_x * rise1,
            b.numerator_along_self(a) == (-gap_y) * run1 - (-gap_x) * rise1,
    ;
    assert(b.numerator_along_other(a) == -a.numerator_along_self(b)) by (nonlinear_arith)
        requires
            a.numerator_along_self(b) == gap_y * run2 - gap_x * rise2,
            b.numerator_along_other(a) == (-gap_y) * run2 - (-gap_x) * rise2,
    ;
}

impl Line {
    /// The segment is a single point.
    pub open spec fn is_point(self) -> bool {
        self.start == self.end
    }

    /// `other` is this segment moved by `shift` along `x`.
    pub open spec fn is_shifted_to(self, other: Line, shift: int) -> bool {
        &&& other.start.x == self.start.x + shift
        &&& other.end.x == self.end.x + shift
        &&& other.start.y == self.start.y
        &&& other.end.y == self.end.y
    }
}

/// A segment that is in the case `on_one_line` with another segment at a
/// different height, and again after the other has been moved along `x`, is
/// a single point, and so is the other.
pub proof fn lemma_on_one_line_at_two_shifts(a: Line, b: Line, moved: Line, shift: int)
    requires
        shift != 0,
        b.is_shifted_to(moved, shift),
        a.on_one_line(b),
        a.on_one_line(moved),
        a.start.y != b.start.y,
    ensures
        a.is_point(),
        b.is_point(),
{
    let run1 = a.end.x - a.start.x;
    let rise1 = a.end.y - a.start.y;
    let run2 = b.end.x - b.start.x;
    let rise2 = b.end.y - b.start.y;
    let gap_x = a.start.x - b.start.x;
    let gap_y = a.start.y - b.start.y;
    // Moving the other segment changes the gap along `x` alone.
    assert(a.numerator_along_self(moved) == a.numerator_along_self(b) + shift * rise2)
        by (nonlinear_arith)
        requires
            a.numerator_along_self(b) == gap_y * run2 - gap_x * rise2,
            a.numerator_along_self(moved) == gap_y * run2 - (gap_x - shift) * rise2,
    ;
    assert(a.numerator_along_other(moved) == a.numerator_along_other(b) + shift * rise1)
        by (nonlinear_arith)
        requires
            a.numerator_along_other(b) == gap_y * run1 - gap_x * rise1,
            a.numerator_along_other(moved) == gap_y * run1 - (gap_x - shift) * rise1,
    ;
    assert(rise2 == 0) by (nonlinear_arith)
        requires
            shift * rise2 == 0,
            shift != 0,
    ;
    assert(rise1 == 0) by (nonlinear_arith)
        requires
            shift * rise1 == 0,
            shift != 0,
    ;
    assert(gap_x * rise2 == 0 && gap_x * rise1 == 0) by (nonlinear_arith)
        requires
            rise1 == 0,
            rise2 == 0,
    ;
    assert(run2 == 0) by (nonlinear_arith)
        requires
            gap_y * run2 == 0,
            gap_y != 0,
    ;
    assert(run1 == 0) by (nonlinear_arith)
        requires
            gap_y * run1 == 0,
            gap_y != 0,
    ;
}

} // verus!
