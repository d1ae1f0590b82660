//! The plain values of the geometry: vectors and matrices over any number
//! type, and how a matrix is laid out. The arithmetic belongs to whoever
//! owns the number type.

use vstd::prelude::*;

verus! {

/// A texture coordinate over the number type `S`.
#[derive(Copy, Clone, Debug)]
pub struct VecUV2f<S> {
    pub u: S,
    pub v: S,
}

impl<S> VecUV2f<S> {
    /// The pair `(u, v)`.
    pub fn new(u: S, v: S) -> (uv: VecUV2f<S>)
        ensures
            uv.u == u,
            uv.v == v,
    {
        VecUV2f { u, v }
    }
}

/// A vector in space over the number type `S`: a position, a normal or a
/// colour.
#[derive(Copy, Clone, Debug)]
pub struct Vec3f<S> {
    pub x: S,
    pub y: S,
    pub z: S,
}

impl<S> Vec3f<S> {
    /// The vector `(x, y, z)`.
    pub fn new(x: S, y: S, z: S) -> (vec: Vec3f<S>)
        ensures
            vec.x == x,
            vec.y == y,
            vec.z == z,
    {
        Vec3f { x, y, z }
    }
}

impl<S: Copy> Vec3f<S> {
    /// The vector of three numbers in a row.
    pub fn from(v: [S; 3]) -> (vec: Vec3f<S>)
        ensures
            vec.x == v[0],
            vec.y == v[1],
            vec.z == v[2],
    {
        Vec3f { x: v[0], y: v[1], z: v[2] }
    }
}

/// A square matrix over the number type `T`.
pub trait SqMatrix<T>: Sized {
    /// The number of rows, which is the number of columns.
    fn dim(&self) -> usize;

    /// The inverse, or `None` for a matrix that has none.
    fn invert(&self) -> Option<Self>;

    /// The determinant.
    fn det(&self) -> T;
}

/// The entry of the identity in row `row` and column `col`: `one` on the
/// diagonal and `zero` elsewhere.
pub open spec fn unit_entry<T>(zero: T, one: T, row: int, col: int) -> T {
    if row == col {
        one
    } else {
        zero
    }
}

/// The row or column of a matrix that row or column `i` of a minor comes
/// from, where the minor leaves out the row or column `gone`.
pub open spec fn kept(i: int, gone: int) -> int {
    if i < gone {
        i
    } else {
        i + 1
    }
}

/// The row or column that row or column `i` of a minor comes from.
fn keep(i: usize, gone: usize) -> (k: usize)
    requires
        i < usize::MAX,
    ensures
        k == kept(i as int, gone as int),
{
    if i < gone {
        i
    } else {
        i + 1
    }
}

/// Whether the cofactor at `(row, col)` is the minor's determinant with its
/// sign changed: where `row + col` is odd.
pub fn cofactor_negated(row: usize, col: usize) -> (negated: bool)
    ensures
        negated == ((row + col) % 2 == 1),
{
    (row % 2) != (col % 2)
}

/// A matrix of three rows and three columns, held row after row.
#[derive(Copy, Clone, Debug)]
pub struct Mat3x3f<T> {
    data: [T; 9],
}

impl<T: Copy> Mat3x3f<T> {
    /// The nine entries, row after row.
    pub closed spec fn entries(&self) -> Seq<T> {
        self.data@
    }

    /// The entry in row `row` and column `col`.
    pub open spec fn at(&self, row: int, col: int) -> T {
        self.entries()[3 * row + col]
    }

    /// The matrix that holds `fill` everywhere.
    pub fn new(fill: T) -> (m: Self)
        ensures
            m.entries().len() == 9,
            forall|i: int| 0 <= i < 9 ==> m.entries()[i] == fill,
    {
        Mat3x3f { data: [fill; 9] }
    }

    /// The matrix of the given entries, row after row.
    pub fn from(data: [T; 9]) -> (m: Self)
        ensures
            m.entries() == data@,
    {
        Mat3x3f { data }
    }

    /// The matrix with `one` on its diagonal and `zero` elsewhere.
    pub fn identity(zero: T, one: T) -> (m: Self)
        ensures
            m.entries().len() == 9,
            forall|row: int, col: int|
                0 <= row < 3 && 0 <= col < 3 ==> (#[trigger] m.at(row, col)) == unit_entry(
                    zero,
                    one,
                    row,
                    col,
                ),
    {
        Mat3x3f { data: [one, zero, zero, zero, one, zero, zero, zero, one] }
    }

    /// The number of rows.
    pub fn dim(&self) -> (n: usize)
        ensures
            n == 3,
    {
        3
    }

    /// The entry in row `row` and column `col`.
    pub fn get(&self, row: usize, col: usize) -> (value: T)
        requires
            row < 3,
            col < 3,
        ensures
            value == self.at(row as int, col as int),
    {
        self.data[3 * row + col]
    }

    /// Puts `value` in row `row` and column `col`.
    pub fn set(&mut self, row: usize, col: usize, value: T)
        requires
            row < 3,
            col < 3,
        ensures
            final(self).entries() == old(self).entries().update(3 * row + col, value),
    {
        self.data[3 * row + col] = value;
    }

    /// The four entries that are left without row `row` and column `col`,
    /// row after row.
    pub fn minor(&self, row: usize, col: usize) -> (m: [T; 4])
        requires
            row < 3,
            col < 3,
        ensures
            forall|i: int, j: int|
                0 <= i < 2 && 0 <= j < 2 ==> (#[trigger] m[2 * i + j]) == self.at(
                    kept(i, row as int),
                    kept(j, col as int),
                ),
    {
        let r0 = keep(0, row);
        let r1 = keep(1, row);
        let c0 = keep(0, col);
        let c1 = keep(1, col);
        let m = [self.get(r0, c0), self.get(r0, c1), self.get(r1, c0), self.get(r1, c1)];
        assert forall|i: int, j: int| 0 <= i < 2 && 0 <= j < 2 implies (#[trigger] m[2 * i + j])
            == self.at(kept(i, row as int), kept(j, col as int)) by {
            if i == 0 {
                if j == 0 {
                } else {
                }
            } else {
                if j == 0 {
                } else {
                }
            }
        }
        m
    }
}

/// A matrix of four rows and four columns, held row after row.
#[derive(Copy, Clone, Debug)]
pub struct Mat4x4f<T> {
    data: [T; 16],
}

impl<T: Copy> Mat4x4f<T> {
    /// The sixteen entries, row after row.
    pub closed spec fn entries(&self) -> Seq<T> {
        self.data@
    }

    /// The entry in row `row` and column `col`.
    pub open spec fn at(&self, row: int, col: int) -> T {
        self.entries()[4 * row + col]
    }

    /// The matrix that holds `fill` everywhere.
    pub fn new(fill: T) -> (m: Self)
        ensures
            m.entries().len() == 16,
            forall|i: int| 0 <= i < 16 ==> m.entries()[i] == fill,
    {
        Mat4x4f { data: [fill; 16] }
    }

    /// The matrix of the given entries, row after row.
    pub fn from(data: [T; 16]) -> (m: Self)
        ensures
            m.entries() == data@,
    {
        Mat4x4f { data }
    }

    /// The matrix with `one` on its diagonal and `zero` elsewhere.
    pub fn identity(zero: T, one: T) -> (m: Self)
        ensures
            m.entries().len() == 16,
            forall|row: int, col: int|
                0 <= row < 4 && 0 <= col < 4 ==> (#[trigger] m.at(row, col)) == unit_entry(
                    zero,
                    one,
                    row,
                    col,
                ),
    {
        Mat4x4f {
            data: [
                one,
                zero,
                zero,
                zero,
                zero,
                one,
                zero,
                zero,
                zero,
                zero,
                one,
                zero,
                zero,
                zero,
                zero,
                one,
            ],
        }
    }

    /// The number of rows.
    pub fn dim(&self) -> (n: usize)
        ensures
            n == 4,
    {
        4
    }

    /// The entry in row `row` and column `col`.
    pub fn get(&self, row: usize, col: usize) -> (value: T)
        requires
            row < 4,
            col < 4,
        ensures
            value == self.at(row as int, col as int),
    {
        self.data[4 * row + col]
    }

    /// Puts `value` in row `row` and column `col`.
    pub fn set(&mut self, row: usize, col: usize, value: T)
        requires
            row < 4,
            col < 4,
        ensures
            final(self).entries() == old(self).entries().update(4 * row + col, value),
    {
        self.data[4 * row + col] = value;
    }

    /// The matrix that is left without row `row` and column `col`.
    pub fn minor(&self, row: usize, col: usize) -> (m: Mat3x3f<T>)
        requires
            row < 4,
            col < 4,
        ensures
            m.entries().len() == 9,
            forall|i: int, j: int|
                0 <= i < 3 && 0 <= j < 3 ==> (#[trigger] m.at(i, j)) == self.at(
                    kept(i, row as int),
                    kept(j, col as int),
                ),
    {
        let r0 = keep(0, row);
        let r1 = keep(1, row);
        let r2 = keep(2, row);
        let c0 = keep(0, col);
        let c1 = keep(1, col);
        let c2 = keep(2, col);
        let m = Mat3x3f {
            data: [
                self.get(r0, c0),
                self.get(r0, c1),
                self.get(r0, c2),
                self.get(r1, c0),
                self.get(r1, c1),
                self.get(r1, c2),
                self.get(r2, c0),
                self.get(r2, c1),
                self.get(r2, c2),
            ],
        };
        assert forall|i: int, j: int| 0 <= i < 3 && 0 <= j < 3 implies (#[trigger] m.at(i, j))
            == self.at(kept(i, row as int), kept(j, col as int)) by {
            assert(m.at(i, j) == m.data@[3 * i + j]);
            if i == 0 {
                if j == 0 {
                } else if j == 1 {
                } else {
                }
            } else if i == 1 {
                if j == 0 {
                } else if j == 1 {
                } else {
                }
            } else {
                if j == 0 {
                } else if j == 1 {
                } else {
                }
            }
        }
        m
    }
}

/// A column of four entries: a point in homogeneous coordinates.
#[derive(Copy, Clone, Debug)]
pub struct Mat4x1f<T> {
    data: [T; 4],
}

impl<T: Copy> Mat4x1f<T> {
    /// The four entries, top to bottom.
    pub closed spec fn entries(&self) -> Seq<T> {
        self.data@
    }

    /// The column that holds `fill` everywhere.
    pub fn new(fill: T) -> (m: Self)
        ensures
            m.entries().len() == 4,
            forall|i: int| 0 <= i < 4 ==> m.entries()[i] == fill,
    {
        Mat4x1f { data: [fill; 4] }
    }

    /// The column of the given entries, top to bottom.
    pub fn from(data: [T; 4]) -> (m: Self)
        ensures
            m.entries() == data@,
    {
        Mat4x1f { data }
    }

    /// The point `vec` in homogeneous coordinates: its three coordinates,
    /// then `one`.
    pub fn lift(vec: Vec3f<T>, one: T) -> (m: Self)
        ensures
            m.entries() == seq![vec.x, vec.y, vec.z, one],
    {
        let m = Mat4x1f { data: [vec.x, vec.y, vec.z, one] };
        assert(m.entries() =~= seq![vec.x, vec.y, vec.z, one]);
        m
    }

    /// The entry in row `row`.
    pub fn get(&self, row: usize) -> (value: T)
        requires
            row < 4,
        ensures
            value == self.entries()[row as int],
    {
        self.data[row]
    }

    /// Puts `value` in row `row`.
    pub fn set(&mut self, row: usize, value: T)
        requires
            row < 4,
        ensures
            final(self).entries() == old(self).entries().update(row as int, value),
    {
        self.data[row] = value;
    }
}

/// The place of the entry in row `row` and column `col` of a matrix of
/// `cols` columns that is held row after row.
pub open spec fn cell(cols: int, row: int, col: int) -> int {
    cols * row + col
}

/// Every entry of a matrix has its place inside the rows before the end.
pub proof fn lemma_cell_bounds(rows: int, cols: int, row: int, col: int)
    requires
        0 <= row < rows,
        0 <= col < cols,
    ensures
        0 <= cols * row,
        0 <= cell(cols, row, col) < rows * cols,
        cols * row + cols <= rows * cols,
{
    assert(0 <= cols * row && cols * row + cols <= rows * cols) by (nonlinear_arith)
        requires
            0 <= row,
            row + 1 <= rows,
            0 < cols,
    ;
}

/// The rows of a matrix do not overlap.
pub proof fn lemma_rows_apart(cols: int, upper: int, lower: int)
    requires
        0 <= upper < lower,
        0 <= cols,
    ensures
        cols * upper + cols <= cols * lower,
{
    assert(cols * upper + cols <= cols * lower) by (nonlinear_arith)
        requires
            upper + 1 <= lower,
            0 <= cols,
    ;
}

/// The row that stands in row `row` once the rows `row1` and `row2` have
/// changed places.
pub open spec fn exchanged(row: int, row1: int, row2: int) -> int {
    if row == row1 {
        row2
    } else if row == row2 {
        row1
    } else {
        row
    }
}

/// A square matrix of any size, held row after row.
#[derive(Debug)]
pub struct MatNxNf<T> {
    dim: usize,
    data: Vec<T>,
}

/// A matrix of any number of rows and columns, held row after row.
#[derive(Debug)]
pub struct MatNxMf<T> {
    rows: usize,
    cols: usize,
    data: Vec<T>,
}

impl<T: Copy> MatNxNf<T> {
    /// The number of rows, which is the number of columns.
    pub closed spec fn size(&self) -> int {
        self.dim as int
    }

    /// The entries, row after row.
    pub closed spec fn entries(&self) -> Seq<T> {
        self.data@
    }

    /// The matrix holds as many entries as its size asks for.
    pub open spec fn wf(&self) -> bool {
        self.size() * self.size() == self.entries().len()
    }

    /// The entry in row `row` and column `col`.
    pub open spec fn at(&self, row: int, col: int) -> T {
        self.entries()[cell(self.size(), row, col)]
    }

    /// The entry in row `row` and column `col` of this matrix with the
    /// identity to its right.
    pub open spec fn beside_unit(&self, zero: T, one: T, row: int, col: int) -> T {
        if col < self.size() {
            self.at(row, col)
        } else {
            unit_entry(zero, one, row, col - self.size())
        }
    }

    /// The square matrix of size `dim` of the given entries, row after
    /// row.
    pub fn new(dim: usize, data: Vec<T>) -> (m: Self)
        requires
            dim * dim == data@.len(),
        ensures
            m.wf(),
            m.size() == dim,
            m.entries() == data@,
    {
        MatNxNf { dim, data }
    }

    /// The matrix of size `dim` with `one` on its diagonal and `zero`
    /// elsewhere.
    pub fn identity(dim: usize, zero: T, one: T) -> (m: Self)
        requires
            dim * dim <= usize::MAX,
        ensures
            m.wf(),
            m.size() == dim,
            forall|row: int, col: int|
                0 <= row < dim && 0 <= col < dim ==> (#[trigger] m.at(row, col)) == unit_entry(
                    zero,
                    one,
                    row,
                    col,
                ),
    {
        let mut data: Vec<T> = Vec::new();
        let mut row: usize = 0;
        while row < dim
            invariant
                row <= dim,
                data@.len() == dim * row,
                forall|r: int, c: int|
                    0 <= r < row && 0 <= c < dim ==> {
                        let k = #[trigger] cell(dim as int, r, c);
                        0 <= k < data@.len() && data@[k] == unit_entry(zero, one, r, c)
                    },
            decreases dim - row,
        {
            let ghost base = data@.len() as int;
            let mut col: usize = 0;
            while col < dim
                invariant
                    row < dim,
                    col <= dim,
                    base == dim * row,
                    data@.len() == base + col,
                    forall|r: int, c: int|
                        0 <= r < row && 0 <= c < dim ==> {
                            let k = #[trigger] cell(dim as int, r, c);
                            0 <= k < base && data@[k] == unit_entry(zero, one, r, c)
                        },
                    forall|k: int|
                        base <= k < base + col ==> (#[trigger] data@[k]) == unit_entry(
                            zero,
                            one,
                            row as int,
                            k - base,
                        ),
                decreases dim - col,
            {
                let value = if row == col {
                    one
                } else {
                    zero
                };
                data.push(value);
                col += 1;
            }
            proof {
                assert(dim * (row + 1) == dim * row + dim) by (nonlinear_arith);
                assert forall|r: int, c: int| 0 <= r < row + 1 && 0 <= c < dim implies {
                    let k = #[trigger] cell(dim as int, r, c);
                    0 <= k < data@.len() && data@[k] == unit_entry(zero, one, r, c)
                } by {
                    if r == row {
                        assert(cell(dim as int, r, c) == base + c);
                    }
                }
            }
            row += 1;
        }
        MatNxNf { dim, data }
    }

    /// The number of rows.
    pub fn dim(&self) -> (n: usize)
        ensures
            n == self.size(),
    {
        self.dim
    }

    /// The entry in row `row` and column `col`.
    pub fn get(&self, row: usize, col: usize) -> (value: T)
        requires
            self.wf(),
            row < self.size(),
            col < self.size(),
        ensures
            value == self.at(row as int, col as int),
    {
        let len = self.data.len();
        proof {
            lemma_cell_bounds(self.size(), self.size(), row as int, col as int);
            assert(cell(self.size(), row as int, col as int) < len);
        }
        self.data[self.dim * row + col]
    }

    /// Puts `value` in row `row` and column `col`.
    pub fn set(&mut self, row: usize, col: usize, value: T)
        requires
            old(self).wf(),
            row < old(self).size(),
            col < old(self).size(),
        ensures
            final(self).wf(),
            final(self).size() == old(self).size(),
            final(self).entries() == old(self).entries().update(
                cell(old(self).size(), row as int, col as int),
                value,
            ),
    {
        let len = self.data.len();
        proof {
            lemma_cell_bounds(self.size(), self.size(), row as int, col as int);
            assert(cell(self.size(), row as int, col as int) < len);
        }
        self.data.set(self.dim * row + col, value);
    }
}

impl<T: Copy> MatNxMf<T> {
    /// The number of rows.
    pub closed spec fn height(&self) -> int {
        self.rows as int
    }

    /// The number of columns.
    pub closed spec fn width(&self) -> int {
        self.cols as int
    }

    /// The entries, row after row.
    pub closed spec fn entries(&self) -> Seq<T> {
        self.data@
    }

    /// The matrix holds as many entries as its rows and columns ask for.
    pub open spec fn wf(&self) -> bool {
        self.height() * self.width() == self.entries().len()
    }

    /// The entry in row `row` and column `col`.
    pub open spec fn at(&self, row: int, col: int) -> T {
        self.entries()[cell(self.width(), row, col)]
    }

    /// The matrix of `rows` rows and `cols` columns of the given entries,
    /// row after row.
    pub fn new(rows: usize, cols: usize, data: Vec<T>) -> (m: Self)
        requires
            rows * cols == data@.len(),
        ensures
            m.wf(),
            m.height() == rows,
            m.width() == cols,
            m.entries() == data@,
    {
        MatNxMf { rows, cols, data }
    }

    /// The square matrix `mat` with the identity to its right: `one` on
    /// the diagonal of the right half and `zero` on the rest of it.
    pub fn augmented(mat: &MatNxNf<T>, zero: T, one: T) -> (m: Self)
        requires
            mat.wf(),
            2 * mat.size() * mat.size() <= usize::MAX,
        ensures
            m.wf(),
            m.height() == mat.size(),
            m.width() == 2 * mat.size(),
            forall|row: int, col: int|
                0 <= row < mat.size() && 0 <= col < mat.size() ==> (#[trigger] m.at(row, col))
                    == mat.at(row, col),
            forall|row: int, col: int|
                0 <= row < mat.size() && 0 <= col < mat.size() ==> (#[trigger] m.at(
                    row,
                    mat.size() + col,
                )) == unit_entry(zero, one, row, col),
    {
        let n = mat.dim();
        proof {
            assert(2 * n <= usize::MAX) by (nonlinear_arith)
                requires
                    2 * n * n <= usize::MAX,
                    0 <= n,
            ;
        }
        let cols = 2 * n;
        let mut data: Vec<T> = Vec::new();
        let mut row: usize = 0;
        while row < n
            invariant
                mat.wf(),
                n == mat.size(),
                cols == 2 * n,
                row <= n,
                data@.len() == cols * row,
                forall|r: int, c: int|
                    0 <= r < row && 0 <= c < cols ==> {
                        let k = #[trigger] cell(cols as int, r, c);
                        0 <= k < data@.len() && data@[k] == mat.beside_unit(zero, one, r, c)
                    },
            decreases n - row,
        {
            let ghost base = data@.len() as int;
            let mut col: usize = 0;
            while col < n
                invariant
                    mat.wf(),
                    n == mat.size(),
                    cols == 2 * n,
                    row < n,
                    col <= n,
                    base == cols * row,
                    data@.len() == base + col,
                    forall|r: int, c: int|
                        0 <= r < row && 0 <= c < cols ==> {
                            let k = #[trigger] cell(cols as int, r, c);
                            0 <= k < base && data@[k] == mat.beside_unit(zero, one, r, c)
                        },
                    forall|k: int|
                        base <= k < base + col ==> (#[trigger] data@[k]) == mat.beside_unit(
                            zero,
                            one,
                            row as int,
                            k - base,
                        ),
                decreases n - col,
            {
                data.push(mat.get(row, col));
                col += 1;
            }
            let mut col: usize = 0;
            while col < n
                invariant
                    mat.wf(),
                    n == mat.size(),
                    cols == 2 * n,
                    row < n,
                    col <= n,
                    base == cols * row,
                    data@.len() == base + n + col,
                    forall|r: int, c: int|
                        0 <= r < row && 0 <= c < cols ==> {
                            let k = #[trigger] cell(cols as int, r, c);
                            0 <= k < base && data@[k] == mat.beside_unit(zero, one, r, c)
                        },
                    forall|k: int|
                        base <= k < base + n + col ==> (#[trigger] data@[k]) == mat.beside_unit(
                            zero,
                            one,
                            row as int,
                            k - base,
                        ),
                decreases n - col,
            {
                let value = if row == col {
                    one
                } else {
                    zero
                };
                data.push(value);
                col += 1;
            }
            proof {
                assert(cols * (row + 1) == cols * row + cols) by (nonlinear_arith);
                assert forall|r: int, c: int| 0 <= r < row + 1 && 0 <= c < cols implies {
                    let k = #[trigger] cell(cols as int, r, c);
                    0 <= k < data@.len() && data@[k] == mat.beside_unit(zero, one, r, c)
                } by {
                    if r == row {
                        assert(cell(cols as int, r, c) == base + c);
                    }
                }
            }
            row += 1;
        }
        let m = MatNxMf { rows: n, cols, data };
        proof {
            assert(n * cols == cols * n) by (nonlinear_arith);
            assert forall|r: int, c: int| 0 <= r < n && 0 <= c < n implies (#[trigger] m.at(
                r,
                n + c,
            )) == unit_entry(zero, one, r, c) by {
                assert(m.at(r, n + c) == data@[cell(cols as int, r, n + c)]);
            }
            assert forall|r: int, c: int| 0 <= r < n && 0 <= c < n implies (#[trigger] m.at(r, c))
                == mat.at(r, c) by {
                assert(m.at(r, c) == data@[cell(cols as int, r, c)]);
            }
        }
        m
    }

    /// The entry in row `row` and column `col`.
    pub fn get(&self, row: usize, col: usize) -> (value: T)
        requires
            self.wf(),
            row < self.height(),
            col < self.width(),
        ensures
            value == self.at(row as int, col as int),
    {
        let len = self.data.len();
        proof {
            lemma_cell_bounds(self.height(), self.width(), row as int, col as int);
            assert(cell(self.width(), row as int, col as int) < len);
        }
        self.data[self.cols * row + col]
    }

    /// Puts `value` in row `row` and column `col`.
    pub fn set(&mut self, row: usize, col: usize, value: T)
        requires
            old(self).wf(),
            row < old(self).height(),
            col < old(self).width(),
        ensures
            final(self).wf(),
            final(self).height() == old(self).height(),
            final(self).width() == old(self).width(),
            final(self).entries() == old(self).entries().update(
                cell(old(self).width(), row as int, col as int),
                value,
            ),
    {
        let len = self.data.len();
        proof {
            lemma_cell_bounds(self.height(), self.width(), row as int, col as int);
            assert(cell(self.width(), row as int, col as int) < len);
        }
        self.data.set(self.cols * row + col, value);
    }

    /// Exchanges the rows `row1` and `row2`.
    pub fn swap_rows(&mut self, row1: usize, row2: usize)
        requires
            old(self).wf(),
            row1 < old(self).height(),
            row2 < old(self).height(),
        ensures
            final(self).wf(),
            final(self).height() == old(self).height(),
            final(self).width() == old(self).width(),
            forall|row: int, col: int|
                0 <= row < old(self).height() && 0 <= col < old(self).width()
                    ==> (#[trigger] final(self).at(row, col)) == old(self).at(
                    exchanged(row, row1 as int, row2 as int),
                    col,
                ),
    {
        let cols = self.cols;
        let size = self.data.len();
        let ghost before = self.data@;
        proof {
            if cols > 0 {
                lemma_cell_bounds(self.height(), self.width(), row1 as int, 0);
                lemma_cell_bounds(self.height(), self.width(), row2 as int, 0);
                if row1 < row2 {
                    lemma_rows_apart(cols as int, row1 as int, row2 as int);
                } else if row2 < row1 {
                    lemma_rows_apart(cols as int, row2 as int, row1 as int);
                }
            }
        }
        if cols == 0 {
            return ;
        }
        let base1 = cols * row1;
        let base2 = cols * row2;
        let mut col: usize = 0;
        while col < cols
            invariant
                col <= cols,
                self.cols == cols,
                self.rows == old(self).rows,
                self.data@.len() == size,
                before.len() == size,
                base1 + cols <= size,
                base2 + cols <= size,
                base1 == base2 || base1 + cols <= base2 || base2 + cols <= base1,
                forall|k: int|
                    0 <= k < size ==> (#[trigger] self.data@[k]) == if base1 <= k < base1 + col {
                        before[k - base1 + base2]
                    } else if base2 <= k < base2 + col {
                        before[k - base2 + base1]
                    } else {
                        before[k]
                    },
            decreases cols - col,
        {
            let first = self.data[base1 + col];
            let second = self.data[base2 + col];
            self.data.set(base1 + col, second);
            self.data.set(base2 + col, first);
            col += 1;
        }
        proof {
            assert forall|row: int, col: int|
                0 <= row < old(self).height() && 0 <= col < old(self).width() implies (
            #[trigger] self.at(row, col)) == old(self).at(
                exchanged(row, row1 as int, row2 as int),
                col,
            ) by {
                lemma_cell_bounds(old(self).height(), cols as int, row, col);
                if row < row1 {
                    lemma_rows_apart(cols as int, row, row1 as int);
                } else if row > row1 {
                    lemma_rows_apart(cols as int, row1 as int, row);
                }
                if row < row2 {
                    lemma_rows_apart(cols as int, row, row2 as int);
                } else if row > row2 {
                    lemma_rows_apart(cols as int, row2 as int, row);
                }
            }
        }
    }

    /// The right half of a matrix that is twice as wide as it is high.
    pub fn right_half(&self) -> (m: MatNxNf<T>)
        requires
            self.wf(),
            self.width() == 2 * self.height(),
        ensures
            m.wf(),
            m.size() == self.height(),
            forall|row: int, col: int|
                0 <= row < self.height() && 0 <= col < self.height() ==> (#[trigger] m.at(
                    row,
                    col,
                )) == self.at(row, self.height() + col),
    {
        let n = self.rows;
        let mut data: Vec<T> = Vec::new();
        let mut row: usize = 0;
        while row < n
            invariant
                self.wf(),
                n == self.height(),
                self.width() == 2 * n,
                row <= n,
                data@.len() == n * row,
                forall|r: int, c: int|
                    0 <= r < row && 0 <= c < n ==> {
                        let k = #[trigger] cell(n as int, r, c);
                        0 <= k < data@.len() && data@[k] == self.at(r, n + c)
                    },
            decreases n - row,
        {
            let ghost base = data@.len() as int;
            let mut col: usize = 0;
            while col < n
                invariant
                    self.wf(),
                    n == self.height(),
                    self.width() == 2 * n,
                    row < n,
                    col <= n,
                    base == n * row,
                    data@.len() == base + col,
                    forall|r: int, c: int|
                        0 <= r < row && 0 <= c < n ==> {
                            let k = #[trigger] cell(n as int, r, c);
                            0 <= k < base && data@[k] == self.at(r, n + c)
                        },
                    forall|k: int|
                        base <= k < base + col ==> (#[trigger] data@[k]) == self.at(
                            row as int,
                            n + k - base,
                        ),
                decreases n - col,
            {
                data.push(self.get(row, n + col));
                col += 1;
            }
            proof {
                assert(n * (row + 1) == n * row + n) by (nonlinear_arith);
                assert forall|r: int, c: int| 0 <= r < row + 1 && 0 <= c < n implies {
                    let k = #[trigger] cell(n as int, r, c);
                    0 <= k < data@.len() && data@[k] == self.at(r, n + c)
                } by {
                    if r == row {
                        assert(cell(n as int, r, c) == base + c);
                    }
                }
            }
            row += 1;
        }
        MatNxNf { dim: n, data }
    }
}

} // verus!
