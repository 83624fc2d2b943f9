use crate::fraction::{in_range, lemma_less_transitive, lemma_less_trichotomy, less, sum, valid};
use crate::point::{pick_down, pick_left, pick_right, pick_up, valid_coords, Coords, Point, Vector};
use crate::text::{chars_of, split, split_chars, string_from, strip_white, strip_white_chars, trim, trim_chars, views, ParseError};
use crate::point::{point_text, vector_value};
use vstd::prelude::*;

verus! {

/// The four corners: left-up, right-up, right-down, left-down.
pub type Corners = (Coords, Coords, Coords, Coords);

/// The corners that `Rectangle::new` picks out of four points, `(p1, p2)` being one
/// pair and `(p3, p4)` the other.
pub open spec fn corners_of(p1: Coords, p2: Coords, p3: Coords, p4: Coords) -> Corners {
    let l1 = pick_left(p1, p2);
    let l2 = pick_left(p3, p4);
    let r1 = pick_right(p1, p2);
    let r2 = pick_right(p3, p4);
    if l1.0 == l2.0 {
        (pick_up(l1, l2), pick_up(r1, r2), pick_down(r1, r2), pick_down(l1, l2))
    } else if less(l1.0, l2.0) {
        (pick_up(l1, r1), pick_up(l2, r2), pick_down(l2, r2), pick_down(l1, r1))
    } else {
        (pick_up(l2, r2), pick_up(l1, r1), pick_down(l1, r1), pick_down(l2, r2))
    }
}

/// The axis-aligned box spanning `x0..x1` and `y0..y1`, as corners.
pub open spec fn box_corners(x0: (int, int), x1: (int, int), y0: (int, int), y1: (int, int)) -> Corners {
    ((x0, y0), (x1, y0), (x1, y1), (x0, y1))
}

/// The text form: `[(x,y),(x,y),(x,y),(x,y)]`, corners from left-up clockwise.
pub open spec fn rectangle_text(c: Corners) -> Seq<char> {
    seq!['['] + point_text(c.0) + seq![','] + point_text(c.1) + seq![','] + point_text(c.2)
        + seq![','] + point_text(c.3) + seq![']']
}

/// The point that piece `k` reads as; missing pieces are a structural error.
pub open spec fn point_at(parts: Seq<Seq<char>>, k: int) -> Result<Coords, ParseError> {
    if k < parts.len() {
        vector_value(parts[k])
    } else {
        Err(ParseError::MalformedStructure)
    }
}

/// What the text `s` reads as: white space dropped, then `[` and `]` at the ends,
/// then cut at each `),(`; there must be exactly four pieces, each a point, and
/// they go to `Rectangle::new` in order.
pub open spec fn rectangle_value(s: Seq<char>) -> Result<Corners, ParseError> {
    let parts = split(trim(strip_white(s), seq!['[', ']'], false), seq![')', ',', '(']);
    match point_at(parts, 0) {
        Err(e) => Err(e),
        Ok(a) => match point_at(parts, 1) {
            Err(e) => Err(e),
            Ok(b) => match point_at(parts, 2) {
                Err(e) => Err(e),
                Ok(c) => match point_at(parts, 3) {
                    Err(e) => Err(e),
                    Ok(d) => if parts.len() > 4 {
                        Err(ParseError::MalformedStructure)
                    } else {
                        Ok(corners_of(a, b, c, d))
                    },
                },
            },
        },
    }
}

/// `p` is one of the four corners.
pub open spec fn is_corner(c: Corners, p: Coords) -> bool {
    p == c.0 || p == c.1 || p == c.2 || p == c.3
}

/// The smaller ratio; the first on a tie.
pub open spec fn ratio_min(a: (int, int), b: (int, int)) -> (int, int) {
    if less(b, a) {
        b
    } else {
        a
    }
}

/// The larger ratio.
pub open spec fn ratio_max(a: (int, int), b: (int, int)) -> (int, int) {
    if less(a, b) {
        b
    } else {
        a
    }
}

/// `a <= b` as rationals.
pub open spec fn at_most(a: (int, int), b: (int, int)) -> bool {
    !less(b, a)
}

/// The point lies strictly outside one of the edges through the left-up and
/// right-down corners.
pub open spec fn outside(c: Corners, p: Coords) -> bool {
    less(p.0, c.0.0) || less(p.1, c.0.1) || less(c.2.0, p.0) || less(c.2.1, p.1)
}

/// One rectangle lies strictly to one side of the other.
pub open spec fn apart(a: Corners, b: Corners) -> bool {
    less(a.2.0, b.0.0) || less(a.2.1, b.0.1) || less(b.2.0, a.0.0) || less(b.2.1, a.0.1)
}

/// The corners after growing to take in `p`.
pub open spec fn grown(c: Corners, p: Coords) -> Corners {
    if !outside(c, p) {
        c
    } else {
        (
            (ratio_min(c.0.0, p.0), ratio_min(c.0.1, p.1)),
            (ratio_max(c.1.0, p.0), ratio_min(c.1.1, p.1)),
            (ratio_max(c.2.0, p.0), ratio_max(c.2.1, p.1)),
            (ratio_min(c.3.0, p.0), ratio_max(c.3.1, p.1)),
        )
    }
}

/// Four points that are the corners of a box with positive width and height give
/// back that box, in whatever order they come, as long as neither pair `(p1, p2)`
/// nor `(p3, p4)` is a vertical edge.
pub proof fn lemma_new_of_box(
    x0: (int, int),
    x1: (int, int),
    y0: (int, int),
    y1: (int, int),
    p1: Coords,
    p2: Coords,
    p3: Coords,
    p4: Coords,
)
    requires
        valid(x0),
        valid(x1),
        valid(y0),
        valid(y1),
        less(x0, x1),
        less(y0, y1),
        is_corner(box_corners(x0, x1, y0, y1), p1),
        is_corner(box_corners(x0, x1, y0, y1), p2),
        is_corner(box_corners(x0, x1, y0, y1), p3),
        is_corner(box_corners(x0, x1, y0, y1), p4),
        p1 != p3 && p1 != p4 && p2 != p3 && p2 != p4,
        p1.0 != p2.0,
        p3.0 != p4.0,
    ensures
        corners_of(p1, p2, p3, p4) == box_corners(x0, x1, y0, y1),
{
    lemma_less_trichotomy(x0, x1);
    lemma_less_trichotomy(y0, y1);
}

/// The two diagonal corners `start` and `end`, differing in both coordinates,
/// give the box that spans them.
pub proof fn lemma_diagonal_box(start: Coords, end: Coords)
    requires
        valid_coords(start),
        valid_coords(end),
        start.0 != end.0,
        start.1 != end.1,
    ensures
        corners_of(start, (end.0, start.1), end, (start.0, end.1)) == box_corners(
            ratio_min(start.0, end.0),
            ratio_max(start.0, end.0),
            ratio_min(start.1, end.1),
            ratio_max(start.1, end.1),
        ),
{
    lemma_less_trichotomy(start.0, end.0);
    lemma_less_trichotomy(start.1, end.1);
    lemma_new_of_box(
        ratio_min(start.0, end.0),
        ratio_max(start.0, end.0),
        ratio_min(start.1, end.1),
        ratio_max(start.1, end.1),
        start,
        (end.0, start.1),
        end,
        (start.0, end.1),
    );
}

/// A point is inside an aligned rectangle exactly when each coordinate lies
/// between the edges, edges included.
pub proof fn lemma_inside_box(x0: (int, int), x1: (int, int), y0: (int, int), y1: (int, int), p: Coords)
    ensures
        !outside(box_corners(x0, x1, y0, y1), p) == (at_most(x0, p.0) && at_most(p.0, x1)
            && at_most(y0, p.1) && at_most(p.1, y1)),
{
}

/// Two aligned rectangles hit exactly when their spans overlap on both axes,
/// touching included.
pub proof fn lemma_hit_boxes(a: Corners, b: Corners)
    ensures
        !apart(a, b) == (at_most(a.0.0, b.2.0) && at_most(b.0.0, a.2.0) && at_most(a.0.1, b.2.1)
            && at_most(b.0.1, a.2.1)),
{
}

/// Growing an aligned rectangle by a point gives the smallest aligned rectangle
/// that holds both: the box of the extreme coordinates.
pub proof fn lemma_grown_box(x0: (int, int), x1: (int, int), y0: (int, int), y1: (int, int), p: Coords)
    requires
        valid(x0),
        valid(x1),
        valid(y0),
        valid(y1),
        valid_coords(p),
        at_most(x0, x1),
        at_most(y0, y1),
    ensures
        grown(box_corners(x0, x1, y0, y1), p) == box_corners(
            ratio_min(x0, p.0),
            ratio_max(x1, p.0),
            ratio_min(y0, p.1),
            ratio_max(y1, p.1),
        ),
        at_most(ratio_min(x0, p.0), ratio_max(x1, p.0)),
        at_most(ratio_min(y0, p.1), ratio_max(y1, p.1)),
        !outside(grown(box_corners(x0, x1, y0, y1), p), p),
{
    lemma_less_trichotomy(x0, p.0);
    lemma_less_trichotomy(x1, p.0);
    lemma_less_trichotomy(y0, p.1);
    lemma_less_trichotomy(y1, p.1);
    lemma_less_trichotomy(x0, x1);
    lemma_less_trichotomy(y0, y1);
    if less(p.0, x0) && less(x0, x1) {
        lemma_less_transitive(p.0, x0, x1);
    }
    if less(x0, x1) && less(x1, p.0) {
        lemma_less_transitive(x0, x1, p.0);
    }
    if less(p.1, y0) && less(y0, y1) {
        lemma_less_transitive(p.1, y0, y1);
    }
    if less(y0, y1) && less(y1, p.1) {
        lemma_less_transitive(y0, y1, p.1);
    }
}

/// An axis-aligned rectangle, held as its four corners.
#[derive(Clone, Copy, Debug, PartialEq, Eq, Structural)]
pub struct Rectangle {
    pub(crate) left_up: Point,
    pub(crate) right_up: Point,
    pub(crate) right_down: Point,
    pub(crate) left_down: Point,
}

impl View for Rectangle {
    type V = Corners;

    open(crate) spec fn view(&self) -> Corners {
        (self.left_up@, self.right_up@, self.right_down@, self.left_down@)
    }
}

impl Default for Rectangle {
    /// The rectangle with all four corners at the origin.
    fn default() -> (r: Rectangle)
        ensures
            r.wf(),
            r.is_aligned(),
            r@ == box_corners((0, 1), (0, 1), (0, 1), (0, 1)),
    {
        let o = Point::default();
        Rectangle { left_up: o, right_up: o, right_down: o, left_down: o }
    }
}

impl Rectangle {
    /// Every corner holds valid coordinates.
    pub open spec fn wf(self) -> bool {
        valid_coords(self@.0) && valid_coords(self@.1) && valid_coords(self@.2) && valid_coords(
            self@.3,
        )
    }

    /// The corners line up with the axes: the rectangle spans some `x0..x1`, `y0..y1`.
    pub open spec fn is_aligned(self) -> bool {
        &&& self@ == box_corners(self@.0.0, self@.2.0, self@.0.1, self@.2.1)
        &&& at_most(self@.0.0, self@.2.0)
        &&& at_most(self@.0.1, self@.2.1)
    }

    /// Two rectangles are equal exactly when their corners are.
    pub proof fn lemma_view_eq(a: Rectangle, b: Rectangle)
        ensures
            (a == b) == (a@ == b@),
    {
    }

    /// Builds the rectangle from four corners given in any order, `(p1, p2)` being
    /// one pair of them and `(p3, p4)` the other.
    pub fn new(p1: Point, p2: Point, p3: Point, p4: Point) -> (r: Rectangle)
        requires
            p1.wf(),
            p2.wf(),
            p3.wf(),
            p4.wf(),
        ensures
            r.wf(),
            r@ == corners_of(p1@, p2@, p3@, p4@),
    {
        let left_1 = p1.more_left(&p2);
        let left_2 = p3.more_left(&p4);
        let right_1 = p1.more_right(&p2);
        let right_2 = p3.more_right(&p4);
        if left_1.is_vertical_with(left_2) {
            Rectangle {
                left_up: *left_1.more_up(left_2),
                right_up: *right_1.more_up(right_2),
                right_down: *right_1.more_down(right_2),
                left_down: *left_1.more_down(left_2),
            }
        } else if left_1.is_left_of(left_2) {
            Rectangle {
                left_up: *left_1.more_up(right_1),
                right_up: *left_2.more_up(right_2),
                right_down: *left_2.more_down(right_2),
                left_down: *left_1.more_down(right_1),
            }
        } else {
            Rectangle {
                left_up: *left_2.more_up(right_2),
                right_up: *left_1.more_up(right_1),
                right_down: *left_1.more_down(right_1),
                left_down: *left_2.more_down(right_2),
            }
        }
    }

    /// Reads the text form `[(x,y),(x,y),(x,y),(x,y)]`; the four points may come in
    /// any order that `Rectangle::new` accepts. Any other number of points is a
    /// structural error.
    pub fn from_str(s: &str) -> (r: Result<Rectangle, ParseError>)
        ensures
            match r {
                Ok(q) => q.wf() && rectangle_value(s@) == Ok::<Corners, ParseError>(q@),
                Err(e) => rectangle_value(s@) == Err::<Corners, ParseError>(e),
            },
    {
        let chars = chars_of(s);
        let bare = strip_white_chars(&chars);
        let ends: Vec<char> = vec!['[', ']'];
        let sep: Vec<char> = vec![')', ',', '('];
        proof {
            assert(ends@ =~= seq!['[', ']']);
            assert(sep@ =~= seq![')', ',', '(']);
        }
        let inner = trim_chars(&bare, &ends, false);
        let parts = split_chars(&inner, &sep);
        let ghost pv = views(parts@);
        proof {
            assert(pv[0] == parts@[0]@);
        }
        let p1 = Point::parse_chars(&parts[0])?;
        if parts.len() < 2 {
            return Err(ParseError::MalformedStructure);
        }
        proof {
            assert(pv[1] == parts@[1]@);
        }
        let p2 = Point::parse_chars(&parts[1])?;
        if parts.len() < 3 {
            return Err(ParseError::MalformedStructure);
        }
        proof {
            assert(pv[2] == parts@[2]@);
        }
        let p3 = Point::parse_chars(&parts[2])?;
        if parts.len() < 4 {
            return Err(ParseError::MalformedStructure);
        }
        proof {
            assert(pv[3] == parts@[3]@);
        }
        let p4 = Point::parse_chars(&parts[3])?;
        if parts.len() > 4 {
            return Err(ParseError::MalformedStructure);
        }
        Ok(Rectangle::new(p1, p2, p3, p4))
    }

    /// The text form `[(x,y),(x,y),(x,y),(x,y)]`.
    pub fn to_string(&self) -> (r: String)
        requires
            self.wf(),
        ensures
            r@ == rectangle_text(self@),
    {
        let mut out: Vec<char> = vec!['['];
        self.left_up.push_text(&mut out);
        out.push(',');
        self.right_up.push_text(&mut out);
        out.push(',');
        self.right_down.push_text(&mut out);
        out.push(',');
        self.left_down.push_text(&mut out);
        out.push(']');
        proof {
            assert(out@ =~= rectangle_text(self@));
        }
        string_from(&out)
    }

    /// The rectangle with opposite corners `start` and `end`.
    pub fn with_diagonal_point(start: Point, end: Point) -> (r: Rectangle)
        requires
            start.wf(),
            end.wf(),
        ensures
            r.wf(),
            r@ == corners_of(start@, (end@.0, start@.1), end@, (start@.0, end@.1)),
            start@.0 != end@.0 && start@.1 != end@.1 ==> r.is_aligned() && r@ == box_corners(
                ratio_min(start@.0, end@.0),
                ratio_max(start@.0, end@.0),
                ratio_min(start@.1, end@.1),
                ratio_max(start@.1, end@.1),
            ),
    {
        proof {
            if start@.0 != end@.0 && start@.1 != end@.1 {
                lemma_diagonal_box(start@, end@);
                lemma_less_trichotomy(start@.0, end@.0);
                lemma_less_trichotomy(start@.1, end@.1);
            }
        }
        Rectangle::new(start, Point::new(end.x, start.y), end, Point::new(start.x, end.y))
    }

    /// The rectangle with corner `start` and the opposite corner at `start` moved by `v`.
    pub fn with_diagonal(start: Point, v: &Vector) -> (r: Rectangle)
        requires
            start.wf(),
            v.wf(),
            in_range(sum(start@.0, v@.0)),
            in_range(sum(start@.1, v@.1)),
        ensures
            r.wf(),
            ({
                let end = (sum(start@.0, v@.0), sum(start@.1, v@.1));
                r@ == corners_of(start@, (end.0, start@.1), end, (start@.0, end.1))
            }),
    {
        let mut end = start;
        end.add(v);
        Rectangle::with_diagonal_point(start, end)
    }

    /// Grows the rectangle just enough to take in `p`; a point already inside
    /// changes nothing.
    pub fn fix_point(&mut self, p: &Point)
        requires
            old(self).wf(),
            p.wf(),
        ensures
            final(self).wf(),
            final(self)@ == grown(old(self)@, p@),
            old(self).is_aligned() ==> final(self).is_aligned(),
    {
        proof {
            if self.is_aligned() {
                lemma_grown_box(self@.0.0, self@.2.0, self@.0.1, self@.2.1, p@);
            }
        }
        if self.check_point_in(p) {
            return;
        }
        self.left_up = Point::new(self.left_up.x.min(&p.x), self.left_up.y.min(&p.y));
        self.right_up = Point::new(self.right_up.x.max(&p.x), self.right_up.y.min(&p.y));
        self.right_down = Point::new(self.right_down.x.max(&p.x), self.right_down.y.max(&p.y));
        self.left_down = Point::new(self.left_down.x.min(&p.x), self.left_down.y.max(&p.y));
    }

    /// The point lies inside or on the edge.
    pub fn check_point_in(&self, p: &Point) -> (r: bool)
        requires
            self.wf(),
            p.wf(),
        ensures
            r == !outside(self@, p@),
    {
        !self.check_point_out(p)
    }

    /// The point lies strictly outside.
    pub fn check_point_out(&self, p: &Point) -> (r: bool)
        requires
            self.wf(),
            p.wf(),
        ensures
            r == outside(self@, p@),
    {
        p.is_left_of(self.left_point()) || p.is_up_of(self.up_point()) || p.is_right_of(
            self.right_point(),
        ) || p.is_down_of(self.down_point())
    }

    /// The corner that carries the left edge.
    pub fn left_point(&self) -> (r: &Point)
        ensures
            r@ == self@.0,
    {
        &self.left_up
    }

    /// The corner that carries the top edge.
    pub fn up_point(&self) -> (r: &Point)
        ensures
            r@ == self@.0,
    {
        &self.left_up
    }

    /// The corner that carries the right edge.
    pub fn right_point(&self) -> (r: &Point)
        ensures
            r@ == self@.2,
    {
        &self.right_down
    }

    /// The corner that carries the bottom edge.
    pub fn down_point(&self) -> (r: &Point)
        ensures
            r@ == self@.2,
    {
        &self.right_down
    }

    /// The rectangles overlap or touch.
    pub fn check_hit(&self, other: &Rectangle) -> (r: bool)
        requires
            self.wf(),
            other.wf(),
        ensures
            r == !apart(self@, other@),
    {
        !self.check_no_hit(other)
    }

    /// The rectangles are separated along some axis.
    pub fn check_no_hit(&self, other: &Rectangle) -> (r: bool)
        requires
            self.wf(),
            other.wf(),
        ensures
            r == apart(self@, other@),
    {
        self.right_point().is_left_of(other.left_point()) || self.down_point().is_up_of(
            other.up_point(),
        ) || self.left_point().is_right_of(other.right_point()) || self.up_point().is_down_of(
            other.down_point(),
        )
    }
}

} // verus!
