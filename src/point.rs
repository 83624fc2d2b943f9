use crate::fraction::{fraction_text, fraction_value, in_range, lemma_zero_sum, less, sum, valid, Fraction};
use crate::text::{chars_of, split, split_chars, string_from, trim, trim_chars, trim_white, trim_white_chars, views, ParseError};
use vstd::prelude::*;

verus! {

/// What a point or a vector is made of: its two coordinates as ratios.
pub type Coords = ((int, int), (int, int));

/// Both coordinates are ratios that a `Fraction` holds.
pub open spec fn valid_coords(c: Coords) -> bool {
    valid(c.0) && valid(c.1)
}

/// The text form of a point: `(x,y)`.
pub open spec fn point_text(c: Coords) -> Seq<char> {
    seq!['('] + fraction_text(c.0) + seq![','] + fraction_text(c.1) + seq![')']
}

/// The text form of a vector: `v(dx,dy)`.
pub open spec fn vector_text(c: Coords) -> Seq<char> {
    seq!['v'] + point_text(c)
}

/// What the text `s` reads as a vector: `v`, `(` and `)` at the ends are dropped, and
/// the two fractions before and after the first `,` are the components; anything
/// after a second `,` is ignored.
pub open spec fn vector_value(s: Seq<char>) -> Result<Coords, ParseError> {
    let parts = split(trim(trim_white(s), seq!['v', '(', ')'], false), seq![',']);
    match fraction_value(parts[0]) {
        Err(e) => Err(e),
        Ok(x) => if parts.len() < 2 {
            Err(ParseError::MalformedStructure)
        } else {
            match fraction_value(parts[1]) {
                Err(e) => Err(e),
                Ok(y) => Ok((x, y)),
            }
        },
    }
}

/// Of `a` and `b`, the one further left; `a` on a tie.
pub open spec fn pick_left(a: Coords, b: Coords) -> Coords {
    if less(b.0, a.0) {
        b
    } else {
        a
    }
}

/// Of `a` and `b`, the one further up; `a` on a tie.
pub open spec fn pick_up(a: Coords, b: Coords) -> Coords {
    if less(b.1, a.1) {
        b
    } else {
        a
    }
}

/// Of `a` and `b`, the one further right; `a` on a tie.
pub open spec fn pick_right(a: Coords, b: Coords) -> Coords {
    if less(a.0, b.0) {
        b
    } else {
        a
    }
}

/// Of `a` and `b`, the one further down; `a` on a tie.
pub open spec fn pick_down(a: Coords, b: Coords) -> Coords {
    if less(a.1, b.1) {
        b
    } else {
        a
    }
}

/// A position; `x` grows to the right and `y` grows downwards.
#[derive(Clone, Copy, Debug, PartialEq, Eq, Structural)]
pub struct Point {
    pub(crate) x: Fraction,
    pub(crate) y: Fraction,
}

/// A displacement.
#[derive(Clone, Copy, Debug, PartialEq, Eq, Structural)]
pub struct Vector {
    pub(crate) dx: Fraction,
    pub(crate) dy: Fraction,
}

impl View for Point {
    type V = Coords;

    open(crate) spec fn view(&self) -> Coords {
        (self.x@, self.y@)
    }
}

impl View for Vector {
    type V = Coords;

    open(crate) spec fn view(&self) -> Coords {
        (self.dx@, self.dy@)
    }
}

impl Default for Point {
    /// The origin.
    fn default() -> (r: Point)
        ensures
            r@ == ((0int, 1int), (0int, 1int)),
            r.wf(),
    {
        Point { x: Fraction::zero(), y: Fraction::zero() }
    }
}

impl Default for Vector {
    /// The zero displacement.
    fn default() -> (r: Vector)
        ensures
            r@ == ((0int, 1int), (0int, 1int)),
            r.wf(),
    {
        Vector { dx: Fraction::zero(), dy: Fraction::zero() }
    }
}

impl Point {
    pub open spec fn wf(self) -> bool {
        valid_coords(self@)
    }

    /// Reads a point as the vector `dx,dy` applied to the origin: the text `(x,y)`
    /// gives the point `(x,y)`.
    pub fn from_str(s: &str) -> (r: Result<Point, ParseError>)
        ensures
            match r {
                Ok(p) => p.wf() && vector_value(s@) == Ok::<Coords, ParseError>(p@),
                Err(e) => vector_value(s@) == Err::<Coords, ParseError>(e),
            },
    {
        let chars = chars_of(s);
        Self::parse_chars(&chars)
    }

    pub(crate) fn parse_chars(s: &Vec<char>) -> (r: Result<Point, ParseError>)
        ensures
            match r {
                Ok(p) => p.wf() && vector_value(s@) == Ok::<Coords, ParseError>(p@),
                Err(e) => vector_value(s@) == Err::<Coords, ParseError>(e),
            },
    {
        let v = Vector::parse_chars(s)?;
        let mut p = Point::default();
        proof {
            lemma_zero_sum(v@.0);
            lemma_zero_sum(v@.1);
        }
        p.add(&v);
        Ok(p)
    }

    /// Appends the text form `(x,y)`.
    pub(crate) fn push_text(&self, out: &mut Vec<char>)
        requires
            self.wf(),
        ensures
            final(out)@ == old(out)@ + point_text(self@),
    {
        out.push('(');
        self.x.push_text(out);
        out.push(',');
        self.y.push_text(out);
        out.push(')');
        proof {
            assert(final(out)@ =~= old(out)@ + point_text(self@));
        }
    }

    /// The text form `(x,y)`.
    pub fn to_string(&self) -> (r: String)
        requires
            self.wf(),
        ensures
            r@ == point_text(self@),
    {
        let mut out: Vec<char> = Vec::new();
        self.push_text(&mut out);
        proof {
            assert(out@ =~= point_text(self@));
        }
        string_from(&out)
    }

    /// Two points are equal exactly when their coordinates are.
    pub proof fn lemma_view_eq(a: Point, b: Point)
        ensures
            (a == b) == (a@ == b@),
    {
    }

    pub fn new(x: Fraction, y: Fraction) -> (r: Point)
        ensures
            r@ == (x@, y@),
    {
        Point { x, y }
    }

    pub fn is_left_of(&self, other: &Point) -> (r: bool)
        requires
            self.wf(),
            other.wf(),
        ensures
            r == less(self@.0, other@.0),
    {
        self.x.lt(&other.x)
    }

    /// The point further left; `self` on a tie.
    pub fn more_left<'a>(&'a self, other: &'a Point) -> (r: &'a Point)
        requires
            self.wf(),
            other.wf(),
        ensures
            *r == (if less(other@.0, self@.0) { *other } else { *self }),
            r@ == pick_left(self@, other@),
    {
        if other.is_left_of(self) {
            other
        } else {
            self
        }
    }

    pub fn is_up_of(&self, other: &Point) -> (r: bool)
        requires
            self.wf(),
            other.wf(),
        ensures
            r == less(self@.1, other@.1),
    {
        self.y.lt(&other.y)
    }

    /// The point further up; `self` on a tie.
    pub fn more_up<'a>(&'a self, other: &'a Point) -> (r: &'a Point)
        requires
            self.wf(),
            other.wf(),
        ensures
            *r == (if less(other@.1, self@.1) { *other } else { *self }),
            r@ == pick_up(self@, other@),
    {
        if other.is_up_of(self) {
            other
        } else {
            self
        }
    }

    pub fn is_right_of(&self, other: &Point) -> (r: bool)
        requires
            self.wf(),
            other.wf(),
        ensures
            r == less(other@.0, self@.0),
    {
        other.x.lt(&self.x)
    }

    /// The point further right; `self` on a tie.
    pub fn more_right<'a>(&'a self, other: &'a Point) -> (r: &'a Point)
        requires
            self.wf(),
            other.wf(),
        ensures
            *r == (if less(self@.0, other@.0) { *other } else { *self }),
            r@ == pick_right(self@, other@),
    {
        if other.is_right_of(self) {
            other
        } else {
            self
        }
    }

    pub fn is_down_of(&self, other: &Point) -> (r: bool)
        requires
            self.wf(),
            other.wf(),
        ensures
            r == less(other@.1, self@.1),
    {
        other.y.lt(&self.y)
    }

    /// The point further down; `self` on a tie.
    pub fn more_down<'a>(&'a self, other: &'a Point) -> (r: &'a Point)
        requires
            self.wf(),
            other.wf(),
        ensures
            *r == (if less(self@.1, other@.1) { *other } else { *self }),
            r@ == pick_down(self@, other@),
    {
        if other.is_down_of(self) {
            other
        } else {
            self
        }
    }

    /// Both points lie on one horizontal line.
    pub fn is_horizontal_with(&self, other: &Point) -> (r: bool)
        ensures
            r == (self@.1 == other@.1),
    {
        self.y == other.y
    }

    /// Both points lie on one vertical line.
    pub fn is_vertical_with(&self, other: &Point) -> (r: bool)
        ensures
            r == (self@.0 == other@.0),
    {
        self.x == other.x
    }

    /// Moves the point by `v`.
    pub fn add(&mut self, v: &Vector)
        requires
            old(self).wf(),
            v.wf(),
            in_range(sum(old(self)@.0, v@.0)),
            in_range(sum(old(self)@.1, v@.1)),
        ensures
            final(self).wf(),
            final(self)@ == (sum(old(self)@.0, v@.0), sum(old(self)@.1, v@.1)),
    {
        self.x = self.x.add(&v.dx);
        self.y = self.y.add(&v.dy);
    }
}

impl Vector {
    pub open spec fn wf(self) -> bool {
        valid_coords(self@)
    }

    pub fn new(dx: Fraction, dy: Fraction) -> (r: Vector)
        ensures
            r@ == (dx@, dy@),
    {
        Vector { dx, dy }
    }

    /// Reads the text form `v(dx,dy)`.
    pub fn from_str(s: &str) -> (r: Result<Vector, ParseError>)
        ensures
            match r {
                Ok(v) => v.wf() && vector_value(s@) == Ok::<Coords, ParseError>(v@),
                Err(e) => vector_value(s@) == Err::<Coords, ParseError>(e),
            },
    {
        let chars = chars_of(s);
        Self::parse_chars(&chars)
    }

    pub(crate) fn parse_chars(s: &Vec<char>) -> (r: Result<Vector, ParseError>)
        ensures
            match r {
                Ok(v) => v.wf() && vector_value(s@) == Ok::<Coords, ParseError>(v@),
                Err(e) => vector_value(s@) == Err::<Coords, ParseError>(e),
            },
    {
        let t = trim_white_chars(s);
        let ends: Vec<char> = vec!['v', '(', ')'];
        let comma: Vec<char> = vec![','];
        proof {
            assert(ends@ =~= seq!['v', '(', ')']);
            assert(comma@ =~= seq![',']);
        }
        let inner = trim_chars(&t, &ends, false);
        let parts = split_chars(&inner, &comma);
        proof {
            assert(views(parts@)[0] == parts@[0]@);
        }
        let dx = Fraction::parse_chars(&parts[0])?;
        if parts.len() < 2 {
            return Err(ParseError::MalformedStructure);
        }
        proof {
            assert(views(parts@)[1] == parts@[1]@);
        }
        let dy = Fraction::parse_chars(&parts[1])?;
        Ok(Vector { dx, dy })
    }

    /// The text form `v(dx,dy)`.
    pub fn to_string(&self) -> (r: String)
        requires
            self.wf(),
        ensures
            r@ == vector_text(self@),
    {
        let mut out: Vec<char> = vec!['v'];
        self.push_coords(&mut out);
        proof {
            assert(out@ =~= vector_text(self@));
        }
        string_from(&out)
    }

    fn push_coords(&self, out: &mut Vec<char>)
        requires
            self.wf(),
        ensures
            final(out)@ == old(out)@ + point_text(self@),
    {
        Point { x: self.dx, y: self.dy }.push_text(out);
    }
}

} // verus!
