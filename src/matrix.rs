use crate::text::{chars_of, slice, split, split_chars, string_from, views};
use vstd::prelude::*;

verus! {

/// The length of the longest row.
pub open spec fn widest<T>(rows: Seq<Seq<T>>) -> nat
    decreases rows.len(),
{
    if rows.len() == 0 {
        0
    } else {
        let w = widest(rows.drop_last());
        if w < rows.last().len() {
            rows.last().len()
        } else {
            w
        }
    }
}

/// `after` is `before` lengthened to at least `width` with clones of `v`.
pub open spec fn padded<T: Clone>(before: Seq<T>, after: Seq<T>, width: int, v: T) -> bool {
    &&& after.len() == (if before.len() < width { width } else { before.len() as int })
    &&& after.subrange(0, before.len() as int) == before
    &&& forall|j: int| before.len() <= j < after.len() ==> cloned(v, #[trigger] after[j])
}

/// Every row has `width` entries, each a clone of `v`.
pub open spec fn filled<T: Clone>(rows: Seq<Seq<T>>, width: int, height: int, v: T) -> bool {
    &&& rows.len() == height
    &&& forall|i: int| 0 <= i < height ==> (#[trigger] rows[i]).len() == width
    &&& forall|i: int, j: int| 0 <= i < height && 0 <= j < width ==> cloned(v, #[trigger] rows[i][j])
}

/// The lines of a text as `str::lines` gives them: cut at each `\n`, without a
/// last empty piece, and without a `\r` that stood before a `\n`.
pub open spec fn text_lines(s: Seq<char>) -> Seq<Seq<char>> {
    let parts = split(s, seq!['\n']);
    let n = if parts.last().len() == 0 {
        parts.len() - 1
    } else {
        parts.len() as int
    };
    Seq::new(
        n as nat,
        |i: int|
            if i < parts.len() - 1 && parts[i].len() > 0 && parts[i].last() == '\r' {
                parts[i].drop_last()
            } else {
                parts[i]
            },
    )
}

/// A row of the text form: the entries separated by tabs, then a newline.
pub open spec fn row_text(row: Seq<char>) -> Seq<char>
    decreases row.len(),
{
    if row.len() == 0 {
        seq!['\n']
    } else if row.len() == 1 {
        seq![row[0], '\n']
    } else {
        seq![row[0], '\t'] + row_text(row.drop_first())
    }
}

/// The text form of a grid of characters: its rows one after another.
pub open spec fn grid_text(rows: Seq<Seq<char>>) -> Seq<char>
    decreases rows.len(),
{
    if rows.len() == 0 {
        Seq::empty()
    } else {
        grid_text(rows.drop_last()) + row_text(rows.last())
    }
}

/// A grid of values, held as rows.
#[derive(PartialEq, Clone, Default, Debug)]
pub struct Matrix<T> {
    pub(crate) lines: Vec<Vec<T>>,
}

impl<T> View for Matrix<T> {
    type V = Seq<Seq<T>>;

    open(crate) spec fn view(&self) -> Seq<Seq<T>> {
        self.lines@.map_values(|row: Vec<T>| row@)
    }
}

/// A row of `n` clones of `v`.
fn row_of<T: Clone>(n: usize, v: &T) -> (r: Vec<T>)
    ensures
        r@.len() == n,
        forall|j: int| 0 <= j < n ==> cloned(*v, #[trigger] r@[j]),
{
    let mut r: Vec<T> = Vec::new();
    let mut j: usize = 0;
    while j < n
        invariant
            j <= n,
            r@.len() == j,
            forall|k: int| 0 <= k < j ==> cloned(*v, #[trigger] r@[k]),
        decreases n - j,
    {
        r.push(v.clone());
        j += 1;
    }
    r
}

/// `height` rows of `width` clones of `v`.
fn grid_of<T: Clone>(width: usize, height: usize, v: &T) -> (r: Vec<Vec<T>>)
    ensures
        filled(r@.map_values(|row: Vec<T>| row@), width as int, height as int, *v),
{
    let mut r: Vec<Vec<T>> = Vec::new();
    let mut i: usize = 0;
    while i < height
        invariant
            i <= height,
            filled(r@.map_values(|row: Vec<T>| row@), width as int, i as int, *v),
        decreases height - i,
    {
        let row = row_of(width, v);
        proof {
            assert(r@.push(row).map_values(|row: Vec<T>| row@) =~= r@.map_values(
                |row: Vec<T>| row@,
            ).push(row@));
        }
        r.push(row);
        i += 1;
    }
    r
}

impl<T: Default + Clone> Matrix<T> {
    /// The matrix of `lines`, each row padded with default values to the length of
    /// the longest.
    pub fn new(lines: Vec<Vec<T>>) -> (r: Matrix<T>)
        ensures
            r@.len() == lines@.len(),
            exists|d: T|
                call_ensures(T::default, (), d) && forall|i: int|
                    0 <= i < lines@.len() ==> padded(
                        #[trigger] lines@[i]@,
                        r@[i],
                        widest(lines@.map_values(|row: Vec<T>| row@)) as int,
                        d,
                    ),
    {
        let mut m = Matrix { lines };
        let d = T::default();
        let ghost dg = d;
        m.fix_size(d);
        proof {
            assert(call_ensures(T::default, (), dg));
            assert forall|i: int| 0 <= i < lines@.len() implies padded(
                #[trigger] lines@[i]@,
                m@[i],
                widest(lines@.map_values(|row: Vec<T>| row@)) as int,
                dg,
            ) by {
                assert(lines@.map_values(|row: Vec<T>| row@)[i] == lines@[i]@);
            }
        }
        m
    }

    /// A matrix of `y_len` rows of `x_len` default values.
    pub fn with_size(x_len: usize, y_len: usize) -> (r: Matrix<T>)
        ensures
            exists|d: T| call_ensures(T::default, (), d) && filled(r@, x_len as int, y_len as int, d),
    {
        let d = T::default();
        let m = Matrix { lines: grid_of(x_len, y_len, &d) };
        proof {
            assert(call_ensures(T::default, (), d) && filled(m@, x_len as int, y_len as int, d));
        }
        m
    }

    /// A matrix of `y_len` rows of `x_len` copies of `v`.
    pub fn with_size_v(x_len: usize, y_len: usize, v: T) -> (r: Matrix<T>)
        ensures
            filled(r@, x_len as int, y_len as int, v),
    {
        Matrix { lines: grid_of(x_len, y_len, &v) }
    }

    /// The number of rows.
    pub fn y_len(&self) -> (r: usize)
        ensures
            r == self@.len(),
    {
        self.lines.len()
    }

    /// The length of the first row; 0 without rows.
    pub fn x_len(&self) -> (r: usize)
        ensures
            r == (if self@.len() == 0 { 0 } else { self@[0].len() }),
    {
        if self.y_len() == 0 {
            0
        } else {
            self.lines[0].len()
        }
    }

    pub fn is_safe_y(&self, y: usize) -> (r: bool)
        ensures
            r == (y < self@.len()),
    {
        y < self.y_len()
    }

    pub fn is_safe_x(&self, x: usize) -> (r: bool)
        ensures
            r == (self@.len() > 0 && x < self@[0].len()),
    {
        x < self.x_len()
    }

    /// `(x, y)` lies within the rows and within the first row's length.
    pub fn exist(&self, x: usize, y: usize) -> (r: bool)
        ensures
            r == (y < self@.len() && x < self@[0].len()),
    {
        self.is_safe_y(y) && self.is_safe_x(x)
    }

    /// Row `y`, if there is one.
    pub fn get_y(&self, y: usize) -> (r: Option<&Vec<T>>)
        ensures
            r is Some == (y < self@.len()),
            r is Some ==> r->0@ == self@[y as int],
    {
        if self.is_safe_y(y) {
            Some(&self.lines[y])
        } else {
            None
        }
    }

    /// Row `y` to change in place, if there is one.
    pub fn get_mut_y(&mut self, y: usize) -> (r: Option<&mut Vec<T>>)
        ensures
            r is Some == (y < old(self)@.len()),
            r is Some ==> (*r->0)@ == old(self)@[y as int],
    {
        if self.is_safe_y(y) {
            Some(&mut self.lines[y])
        } else {
            None
        }
    }

    /// The value at `(x, y)`, if `(x, y)` exists and row `y` reaches `x`.
    pub fn get_xy(&self, x: usize, y: usize) -> (r: Option<&T>)
        ensures
            r is Some == (y < self@.len() && x < self@[0].len() && x < self@[y as int].len()),
            r is Some ==> *r->0 == self@[y as int][x as int],
    {
        if self.exist(x, y) {
            if x < self.lines[y].len() {
                Some(&self.lines[y][x])
            } else {
                None
            }
        } else {
            None
        }
    }

    /// The value at `(x, y)` to change in place, as `get_xy` finds it.
    pub fn get_mut_xy(&mut self, x: usize, y: usize) -> (r: Option<&mut T>)
        ensures
            r is Some == (y < old(self)@.len() && x < old(self)@[0].len() && x < old(
                self,
            )@[y as int].len()),
            r is Some ==> *r->0 == old(self)@[y as int][x as int],
    {
        if self.exist(x, y) {
            if x < self.lines[y].len() {
                Some(&mut self.lines[y][x])
            } else {
                None
            }
        } else {
            None
        }
    }

    /// Puts `v` at `(x, y)` when `(x, y)` exists; otherwise nothing changes.
    pub fn set_xy(&mut self, x: usize, y: usize, v: T)
        requires
            y < old(self)@.len() && x < old(self)@[0].len() ==> x < old(self)@[y as int].len(),
        ensures
            final(self)@ == (if y < old(self)@.len() && x < old(self)@[0].len() {
                old(self)@.update(y as int, old(self)@[y as int].update(x as int, v))
            } else {
                old(self)@
            }),
    {
        if self.exist(x, y) {
            self.lines[y][x] = v;
            proof {
                assert(self@ =~= old(self)@.update(y as int, old(self)@[y as int].update(x as int, v)));
            }
        }
    }

    /// Pads every row with `v` to the length of the longest.
    pub fn fix_size(&mut self, v: T)
        ensures
            final(self)@.len() == old(self)@.len(),
            forall|i: int|
                0 <= i < old(self)@.len() ==> padded(
                    #[trigger] old(self)@[i],
                    final(self)@[i],
                    widest(old(self)@) as int,
                    v,
                ),
    {
        let mut x_len: usize = 0;
        let mut i: usize = 0;
        while i < self.lines.len()
            invariant
                i <= self@.len(),
                x_len == widest(self@.subrange(0, i as int)),
            decreases self.lines.len() - i,
        {
            proof {
                assert(self@.subrange(0, i + 1).drop_last() =~= self@.subrange(0, i as int));
            }
            if x_len < self.lines[i].len() {
                x_len = self.lines[i].len();
            }
            i += 1;
        }
        proof {
            assert(self@.subrange(0, self@.len() as int) =~= self@);
        }
        let y_len = self.y_len();
        self.expand_size(x_len, y_len, v);
    }

    /// Pads each row shorter than `x_len` with `v`, and adds one row of `x_len`
    /// copies of `v` when there are fewer than `y_len` rows.
    pub fn expand_size(&mut self, x_len: usize, y_len: usize, v: T)
        ensures
            final(self)@.len() == (if old(self)@.len() < y_len {
                old(self)@.len() + 1int
            } else {
                old(self)@.len() as int
            }),
            forall|i: int|
                0 <= i < old(self)@.len() ==> padded(
                    #[trigger] old(self)@[i],
                    final(self)@[i],
                    x_len as int,
                    v,
                ),
            old(self)@.len() < y_len ==> final(self)@[old(self)@.len() as int].len() == x_len
                && forall|j: int|
                0 <= j < x_len ==> cloned(v, #[trigger] final(self)@[old(self)@.len() as int][j]),
    {
        let ghost before = self@;
        let n = self.lines.len();
        let mut i: usize = 0;
        while i < n
            invariant
                n == self@.len(),
                n == before.len(),
                i <= n,
                forall|k: int| 0 <= k < i ==> padded(#[trigger] before[k], self@[k], x_len as int, v),
                forall|k: int| i <= k < n ==> #[trigger] self@[k] == before[k],
            decreases n - i,
        {
            let len = self.lines[i].len();
            if len < x_len {
                let mut extra = row_of(x_len - len, &v);
                let ghost row = self@[i as int];
                let ghost added = extra@;
                let ghost rows_before = self.lines@;
                let ghost view_before = self@;
                self.lines[i].append(&mut extra);
                proof {
                    assert forall|k: int| 0 <= k < n && k != i implies self.lines@[k] == rows_before[k] by {}
                    assert forall|k: int| i < k < n implies #[trigger] self@[k] == before[k] by {
                        assert(self@[k] == self.lines@[k]@);
                        assert(self.lines@[k] == rows_before[k]);
                        assert(view_before[k] == rows_before[k]@);
                    }
                    assert(self@[i as int] == row + added);
                    assert(self@[i as int].subrange(0, row.len() as int) =~= row);
                    assert forall|j: int| row.len() <= j < self@[i as int].len() implies cloned(
                        v,
                        #[trigger] self@[i as int][j],
                    ) by {
                        assert(self@[i as int][j] == added[j - row.len()]);
                    }
                }
            } else {
                proof {
                    assert(self@[i as int].subrange(0, self@[i as int].len() as int) =~= self@[i as int]);
                }
            }
            i += 1;
        }
        if n < y_len {
            let row = row_of(x_len, &v);
            self.lines.push(row);
            proof {
                assert(self@[n as int] == row@);
            }
        }
    }
}

impl Matrix<char> {
    /// The matrix of a text's lines, padded with `'\0'` to the longest.
    pub fn from_str(s: &str) -> (r: Result<Matrix<char>, ()>)
        ensures
            r is Ok,
            r->Ok_0@.len() == text_lines(s@).len(),
            forall|i: int|
                0 <= i < text_lines(s@).len() ==> padded(
                    #[trigger] text_lines(s@)[i],
                    r->Ok_0@[i],
                    widest(text_lines(s@)) as int,
                    '\0',
                ),
    {
        let chars = chars_of(s);
        let newline: Vec<char> = vec!['\n'];
        proof {
            assert(newline@ =~= seq!['\n']);
        }
        let parts = split_chars(&chars, &newline);
        let ghost pv = views(parts@);
        let ghost lines_spec = text_lines(s@);
        let count = if parts[parts.len() - 1].len() == 0 {
            parts.len() - 1
        } else {
            parts.len()
        };
        proof {
            assert(pv[pv.len() - 1] == parts@[parts@.len() - 1]@);
        }
        let mut rows: Vec<Vec<char>> = Vec::new();
        let mut i: usize = 0;
        while i < count
            invariant
                pv == views(parts@),
                pv == split(s@, seq!['\n']),
                lines_spec == text_lines(s@),
                count == lines_spec.len(),
                count <= parts@.len(),
                i <= count,
                rows@.len() == i,
                forall|k: int| 0 <= k < i ==> (#[trigger] rows@[k])@ == lines_spec[k],
            decreases count - i,
        {
            let part = &parts[i];
            proof {
                assert(pv[i as int] == part@);
            }
            let len = part.len();
            let row = if i + 1 < parts.len() && len > 0 && part[len - 1] == '\r' {
                slice(part, 0, len - 1)
            } else {
                slice(part, 0, len)
            };
            proof {
                assert(part@.drop_last() =~= part@.subrange(0, len - 1));
                assert(part@ =~= part@.subrange(0, len as int));
            }
            rows.push(row);
            i += 1;
        }
        proof {
            assert(rows@.map_values(|row: Vec<char>| row@) =~= lines_spec);
        }
        let m = Matrix::new(rows);
        Ok(m)
    }

    /// The text form: each row's entries separated by tabs, each row ended by a
    /// newline.
    pub fn to_string(&self) -> (r: String)
        ensures
            r@ == grid_text(self@),
    {
        let mut out: Vec<char> = Vec::new();
        let mut i: usize = 0;
        while i < self.lines.len()
            invariant
                i <= self@.len(),
                out@ == grid_text(self@.subrange(0, i as int)),
            decreases self.lines.len() - i,
        {
            let row = &self.lines[i];
            proof {
                assert(self@.subrange(0, i + 1).drop_last() =~= self@.subrange(0, i as int));
                assert(self@[i as int] == row@);
            }
            let ghost start = out@;
            proof {
                assert(row@.subrange(0, row@.len() as int) =~= row@);
            }
            let mut j: usize = 0;
            while j < row.len()
                invariant
                    j <= row@.len(),
                    start + row_text(row@) == out@ + row_text(row@.subrange(j as int, row@.len() as int)),
                decreases row.len() - j,
            {
                let ghost rest = row@.subrange(j as int, row@.len() as int);
                proof {
                    assert(rest.drop_first() =~= row@.subrange(j + 1, row@.len() as int));
                }
                out.push(row[j]);
                if j + 1 < row.len() {
                    out.push('\t');
                    proof {
                        assert(out@ + row_text(rest.drop_first()) =~= start + row_text(row@));
                    }
                } else {
                    proof {
                        assert(row_text(rest) == seq![rest[0], '\n']);
                        assert(rest.drop_first().len() == 0);
                    }
                }
                j += 1;
            }
            out.push('\n');
            proof {
                assert(row@.subrange(row@.len() as int, row@.len() as int) =~= Seq::<char>::empty());
                assert(out@ =~= start + row_text(row@));
            }
            i += 1;
        }
        proof {
            assert(self@.subrange(0, self@.len() as int) =~= self@);
        }
        string_from(&out)
    }
}

} // verus!
