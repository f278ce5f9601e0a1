//! Matrices as grids of numbers: their shapes, the moves that only rearrange
//! entries, and the builders of the affine transformations.

use vstd::prelude::*;
use crate::error::GeometryError;
use crate::scalar::Scalar;
use crate::vector::{Point, Vec4, ONE};

verus! {

/// A grid of numbers, row by row.
#[derive(Debug)]
pub struct Matrix(pub Vec<Vec<Scalar>>);

impl View for Matrix {
    type V = Seq<Seq<Scalar>>;

    /// The rows from the top, each from the left.
    open spec fn view(&self) -> Seq<Seq<Scalar>> {
        Seq::new(self.0@.len(), |i: int| self.0@[i]@)
    }
}

/// The grid `m` with the entry in row `i`, column `j` replaced by `v`.
pub open spec fn with_entry(m: Seq<Seq<Scalar>>, i: int, j: int, v: Scalar) -> Seq<Seq<Scalar>> {
    m.update(i, m[i].update(j, v))
}

/// The index in a sequence that the `i`-th element of it without its
/// `gone`-th element came from.
pub open spec fn skipping(i: int, gone: int) -> int {
    if i < gone {
        i
    } else {
        i + 1
    }
}

/// Every row of `m` has `cols` entries.
pub open spec fn rectangular(m: Seq<Seq<Scalar>>, cols: int) -> bool {
    forall|i: int| 0 <= i < m.len() ==> (#[trigger] m[i]).len() == cols
}

/// The grid of `rows` by `cols` whose every entry is positive zero.
pub open spec fn zero_grid(rows: int, cols: int) -> Seq<Seq<Scalar>> {
    Seq::new(rows as nat, |i: int| Seq::new(cols as nat, |j: int| Scalar { bits: 0 }))
}

/// The four by four grid with ones on the diagonal and positive zeros elsewhere.
pub open spec fn identity_grid() -> Seq<Seq<Scalar>> {
    Seq::new(
        4,
        |i: int|
            Seq::new(
                4,
                |j: int|
                    if i == j {
                        Scalar { bits: ONE }
                    } else {
                        Scalar { bits: 0 }
                    },
            ),
    )
}

/// The grid `m` mirrored at its diagonal: `cols` rows, one for each column of `m`.
pub open spec fn transposed(m: Seq<Seq<Scalar>>, cols: int) -> Seq<Seq<Scalar>> {
    Seq::new(cols as nat, |j: int| Seq::new(m.len(), |i: int| m[i][j]))
}

/// The grid `m`, of `cols` columns, without row `row` and column `col`.
pub open spec fn without(m: Seq<Seq<Scalar>>, cols: int, row: int, col: int) -> Seq<Seq<Scalar>> {
    Seq::new(
        (m.len() - 1) as nat,
        |i: int| Seq::new((cols - 1) as nat, |j: int| m[skipping(i, row)][skipping(j, col)]),
    )
}

impl Matrix {
    /// The number of columns: the length of the first row, 0 without one.
    pub open spec fn width(&self) -> int {
        if self@.len() == 0 {
            0
        } else {
            self@[0].len() as int
        }
    }

    /// All rows are as long as the first.
    pub open spec fn wf(&self) -> bool {
        rectangular(self@, self.width())
    }

    /// The grid is `size` by `size`.
    pub open spec fn square(&self, size: int) -> bool {
        self@.len() == size && self.width() == size
    }

    pub fn identity_4x4() -> (m: Matrix)
        ensures
            m@ == identity_grid(),
            m.wf(),
            m.square(4),
    {
        let o = Scalar { bits: 0 };
        let l = Scalar { bits: ONE };
        let m = Matrix(vec![vec![l, o, o, o], vec![o, l, o, o], vec![o, o, l, o], vec![o, o, o, l]]);
        assert(m@ =~~= identity_grid());
        m
    }

    pub fn zero(row: usize, col: usize) -> (m: Matrix)
        ensures
            m@ == zero_grid(row as int, col as int),
            m.wf(),
            m@.len() == row,
            row > 0 ==> m.width() == col,
    {
        let mut res: Vec<Vec<Scalar>> = Vec::new();
        let mut i: usize = 0;
        while i < row
            invariant
                i <= row,
                res@.len() == i,
                forall|k: int| 0 <= k < i ==> (#[trigger] res@[k])@ == Seq::new(col as nat, |j: int| Scalar { bits: 0 }),
            decreases row - i,
        {
            let mut temp: Vec<Scalar> = Vec::new();
            let mut j: usize = 0;
            while j < col
                invariant
                    j <= col,
                    temp@.len() == j,
                    forall|k: int| 0 <= k < j ==> #[trigger] temp@[k] == (Scalar { bits: 0 }),
                decreases col - j,
            {
                temp.push(Scalar { bits: 0 });
                j += 1;
            }
            assert(temp@ =~= Seq::new(col as nat, |j: int| Scalar { bits: 0 }));
            res.push(temp);
            i += 1;
        }
        let m = Matrix(res);
        assert(m@ =~~= zero_grid(row as int, col as int));
        m
    }

    pub fn rows(&self) -> (n: usize)
        ensures
            n == self@.len(),
    {
        self.0.len()
    }

    /// The number of columns: the length of the first row, 0 without one.
    pub fn cols(&self) -> (n: usize)
        ensures
            n == self.width(),
    {
        if self.0.len() == 0 {
            0
        } else {
            self.0[0].len()
        }
    }

    /// Whether all rows are as long as the first.
    pub fn is_rectangular(&self) -> (r: bool)
        ensures
            r == self.wf(),
    {
        let cols = self.cols();
        let mut i: usize = 0;
        while i < self.0.len()
            invariant
                i <= self@.len(),
                cols == self.width(),
                forall|k: int| 0 <= k < i ==> (#[trigger] self@[k]).len() == cols,
            decreases self@.len() - i,
        {
            if self.0[i].len() != cols {
                assert(self@[i as int].len() != self.width());
                return false;
            }
            i += 1;
        }
        true
    }

    /// Whether the matrix is `size` by `size`.
    pub fn check_size(&self, size: usize) -> (r: bool)
        ensures
            r == self.square(size as int),
    {
        if self.rows() != size || self.cols() != size {
            false
        } else {
            true
        }
    }

    /// The matrix mirrored at its diagonal.
    pub fn transpose(&self) -> (t: Matrix)
        requires
            self.wf(),
        ensures
            t@ == transposed(self@, self.width()),
            t.wf(),
            t@.len() == self.width(),
            self.width() > 0 ==> t.width() == self@.len(),
    {
        let rows = self.rows();
        let cols = self.cols();
        let mut res: Vec<Vec<Scalar>> = Vec::new();
        let mut j: usize = 0;
        while j < cols
            invariant
                self.wf(),
                rows == self@.len(),
                cols == self.width(),
                j <= cols,
                res@.len() == j,
                forall|k: int| 0 <= k < j ==> (#[trigger] res@[k])@ == Seq::new(rows as nat, |i: int| self@[i][k]),
            decreases cols - j,
        {
            let mut column: Vec<Scalar> = Vec::new();
            let mut i: usize = 0;
            while i < rows
                invariant
                    self.wf(),
                    rows == self@.len(),
                    cols == self.width(),
                    j < cols,
                    i <= rows,
                    column@.len() == i,
                    forall|k: int| 0 <= k < i ==> #[trigger] column@[k] == self@[k][j as int],
                decreases rows - i,
            {
                assert(self@[i as int].len() == cols);
                column.push(self.0[i][j]);
                i += 1;
            }
            assert(column@ =~= Seq::new(rows as nat, |i: int| self@[i][j as int]));
            res.push(column);
            j += 1;
        }
        let t = Matrix(res);
        assert(t@ =~~= transposed(self@, self.width()));
        t
    }

    /// The matrix without row `row` and column `col`.
    pub fn submatrix(&self, row: usize, col: usize) -> (sub: Matrix)
        requires
            self.wf(),
            row < self@.len(),
            col < self.width(),
        ensures
            sub@ == without(self@, self.width(), row as int, col as int),
            sub.wf(),
            sub@.len() == self@.len() - 1,
            sub@.len() > 0 ==> sub.width() == self.width() - 1,
    {
        let rows = self.rows();
        let cols = self.cols();
        let mut res: Vec<Vec<Scalar>> = Vec::new();
        let mut i: usize = 0;
        while i < rows - 1
            invariant
                self.wf(),
                rows == self@.len(),
                cols == self.width(),
                row < rows,
                col < cols,
                i <= rows - 1,
                res@.len() == i,
                forall|k: int|
                    0 <= k < i ==> (#[trigger] res@[k])@ == Seq::new(
                        (cols - 1) as nat,
                        |j: int| self@[skipping(k, row as int)][skipping(j, col as int)],
                    ),
            decreases rows - 1 - i,
        {
            let from: usize = if i < row {
                i
            } else {
                i + 1
            };
            assert(self@[from as int].len() == cols);
            let mut line: Vec<Scalar> = Vec::new();
            let mut j: usize = 0;
            while j < cols - 1
                invariant
                    from < rows,
                    rows == self@.len(),
                    self@[from as int].len() == cols,
                    col < cols,
                    j <= cols - 1,
                    line@.len() == j,
                    forall|k: int| 0 <= k < j ==> #[trigger] line@[k] == self@[from as int][skipping(k, col as int)],
                decreases cols - 1 - j,
            {
                let at: usize = if j < col {
                    j
                } else {
                    j + 1
                };
                line.push(self.0[from][at]);
                j += 1;
            }
            assert(line@ =~= Seq::new(
                (cols - 1) as nat,
                |j: int| self@[skipping(i as int, row as int)][skipping(j, col as int)],
            ));
            res.push(line);
            i += 1;
        }
        let sub = Matrix(res);
        assert(sub@ =~~= without(self@, self.width(), row as int, col as int));
        sub
    }
}

/// The grid of a translation by `(x, y, z)`: the identity with the
/// displacement in its last column.
pub open spec fn translation_grid(x: Scalar, y: Scalar, z: Scalar) -> Seq<Seq<Scalar>> {
    with_entry(with_entry(with_entry(identity_grid(), 0, 3, x), 1, 3, y), 2, 3, z)
}

/// The grid of a scaling by `(x, y, z)`: the identity with the factors on
/// its diagonal.
pub open spec fn scaling_grid(x: Scalar, y: Scalar, z: Scalar) -> Seq<Seq<Scalar>> {
    with_entry(with_entry(with_entry(identity_grid(), 0, 0, x), 1, 1, y), 2, 2, z)
}

/// The grid of a rotation about the x axis by the angle with the given
/// cosine and sine.
pub open spec fn rotation_x_grid(cos: Scalar, sin: Scalar) -> Seq<Seq<Scalar>> {
    with_entry(
        with_entry(with_entry(with_entry(identity_grid(), 1, 1, cos), 1, 2, sin.negated()), 2, 1, sin),
        2,
        2,
        cos,
    )
}

/// The grid of a rotation about the y axis by the angle with the given
/// cosine and sine.
pub open spec fn rotation_y_grid(cos: Scalar, sin: Scalar) -> Seq<Seq<Scalar>> {
    with_entry(
        with_entry(with_entry(with_entry(identity_grid(), 0, 0, cos), 0, 2, sin), 2, 0, sin.negated()),
        2,
        2,
        cos,
    )
}

/// The grid of a rotation about the z axis by the angle with the given
/// cosine and sine.
pub open spec fn rotation_z_grid(cos: Scalar, sin: Scalar) -> Seq<Seq<Scalar>> {
    with_entry(
        with_entry(with_entry(with_entry(identity_grid(), 0, 0, cos), 0, 1, sin.negated()), 1, 0, sin),
        1,
        1,
        cos,
    )
}

/// The grid of a shearing: the identity with, off the diagonal of its upper
/// left three by three, how much each coordinate moves in proportion to
/// each other one.
pub open spec fn shearing_grid(
    xy: Scalar,
    xz: Scalar,
    yx: Scalar,
    yz: Scalar,
    zx: Scalar,
    zy: Scalar,
) -> Seq<Seq<Scalar>> {
    with_entry(
        with_entry(
            with_entry(
                with_entry(with_entry(with_entry(identity_grid(), 0, 1, xy), 0, 2, xz), 1, 0, yx),
                1,
                2,
                yz,
            ),
            2,
            0,
            zx,
        ),
        2,
        1,
        zy,
    )
}

/// The grid that turns the world to face a viewer who looks along
/// `forward`, with `left` to the left and `true_up` overhead. Seen from the
/// viewer, x runs to the right, y up and z backward: the rows are the
/// reverse of `left`, `true_up` and the reverse of `forward`, over the last
/// row of a transformation.
pub open spec fn orientation_grid(left: Vec4, true_up: Vec4, forward: Vec4) -> Seq<Seq<Scalar>> {
    seq![
        seq![left.0.negated(), left.1.negated(), left.2.negated(), Scalar { bits: 0 }],
        seq![true_up.0, true_up.1, true_up.2, Scalar { bits: 0 }],
        seq![forward.0.negated(), forward.1.negated(), forward.2.negated(), Scalar { bits: 0 }],
        seq![Scalar { bits: 0 }, Scalar { bits: 0 }, Scalar { bits: 0 }, Scalar { bits: ONE }],
    ]
}

/// A minor under the sign of its place: itself where row and column add
/// up even, its negative where they add up odd.
pub open spec fn signed(minor: Scalar, row: int, col: int) -> Scalar {
    if (row + col) % 2 == 0 {
        minor
    } else {
        minor.negated()
    }
}

/// The grid of the cofactors that belong to the grid of minors `m`,
/// mirrored at the diagonal.
pub open spec fn adjugate_grid(m: Seq<Seq<Scalar>>, cols: int) -> Seq<Seq<Scalar>> {
    Seq::new(cols as nat, |j: int| Seq::new(m.len(), |i: int| signed(m[i][j], i, j)))
}

/// The grid of one column that holds the four given numbers.
pub open spec fn column_grid(x: Scalar, y: Scalar, z: Scalar, w: Scalar) -> Seq<Seq<Scalar>> {
    seq![seq![x], seq![y], seq![z], seq![w]]
}

impl Matrix {
    pub fn translation_mat_4x4(x: Scalar, y: Scalar, z: Scalar) -> (m: Matrix)
        ensures
            m@ == translation_grid(x, y, z),
            m.wf(),
            m.square(4),
    {
        let o = Scalar { bits: 0 };
        let l = Scalar { bits: ONE };
        let m = Matrix(vec![vec![l, o, o, x], vec![o, l, o, y], vec![o, o, l, z], vec![o, o, o, l]]);
        assert(m@ =~~= translation_grid(x, y, z));
        m
    }

    pub fn scaling_mat_4x4(x: Scalar, y: Scalar, z: Scalar) -> (m: Matrix)
        ensures
            m@ == scaling_grid(x, y, z),
            m.wf(),
            m.square(4),
    {
        let o = Scalar { bits: 0 };
        let l = Scalar { bits: ONE };
        let m = Matrix(vec![vec![x, o, o, o], vec![o, y, o, o], vec![o, o, z, o], vec![o, o, o, l]]);
        assert(m@ =~~= scaling_grid(x, y, z));
        m
    }

    /// The rotation about the x axis by the angle whose cosine and sine
    /// are given.
    pub fn rotation_x_mat_4x4(cos: Scalar, sin: Scalar) -> (m: Matrix)
        ensures
            m@ == rotation_x_grid(cos, sin),
            m.wf(),
            m.square(4),
    {
        let o = Scalar { bits: 0 };
        let l = Scalar { bits: ONE };
        let m = Matrix(
            vec![vec![l, o, o, o], vec![o, cos, sin.neg(), o], vec![o, sin, cos, o], vec![o, o, o, l]],
        );
        assert(m@ =~~= rotation_x_grid(cos, sin));
        m
    }

    /// The rotation about the y axis by the angle whose cosine and sine
    /// are given.
    pub fn rotation_y_mat_4x4(cos: Scalar, sin: Scalar) -> (m: Matrix)
        ensures
            m@ == rotation_y_grid(cos, sin),
            m.wf(),
            m.square(4),
    {
        let o = Scalar { bits: 0 };
        let l = Scalar { bits: ONE };
        let m = Matrix(
            vec![vec![cos, o, sin, o], vec![o, l, o, o], vec![sin.neg(), o, cos, o], vec![o, o, o, l]],
        );
        assert(m@ =~~= rotation_y_grid(cos, sin));
        m
    }

    /// The rotation about the z axis by the angle whose cosine and sine
    /// are given.
    pub fn rotation_z_mat_4x4(cos: Scalar, sin: Scalar) -> (m: Matrix)
        ensures
            m@ == rotation_z_grid(cos, sin),
            m.wf(),
            m.square(4),
    {
        let o = Scalar { bits: 0 };
        let l = Scalar { bits: ONE };
        let m = Matrix(
            vec![vec![cos, sin.neg(), o, o], vec![sin, cos, o, o], vec![o, o, l, o], vec![o, o, o, l]],
        );
        assert(m@ =~~= rotation_z_grid(cos, sin));
        m
    }

    /// The shearing that moves each coordinate in proportion to the two
    /// others; read `xy` as x in proportion to y.
    pub fn shearing(xy: Scalar, xz: Scalar, yx: Scalar, yz: Scalar, zx: Scalar, zy: Scalar) -> (m: Matrix)
        ensures
            m@ == shearing_grid(xy, xz, yx, yz, zx, zy),
            m.wf(),
            m.square(4),
    {
        let o = Scalar { bits: 0 };
        let l = Scalar { bits: ONE };
        let m = Matrix(vec![vec![l, xy, xz, o], vec![yx, l, yz, o], vec![zx, zy, l, o], vec![o, o, o, l]]);
        assert(m@ =~~= shearing_grid(xy, xz, yx, yz, zx, zy));
        m
    }

    /// The orientation of a viewer who looks along `forward`, with `left`
    /// to the left and `true_up` overhead.
    pub fn orientation(left: &Vec4, true_up: &Vec4, forward: &Vec4) -> (m: Matrix)
        ensures
            m@ == orientation_grid(*left, *true_up, *forward),
            m.wf(),
            m.square(4),
    {
        let o = Scalar { bits: 0 };
        let l = Scalar { bits: ONE };
        let m = Matrix(
            vec![
                vec![left.0.neg(), left.1.neg(), left.2.neg(), o],
                vec![true_up.0, true_up.1, true_up.2, o],
                vec![forward.0.neg(), forward.1.neg(), forward.2.neg(), o],
                vec![o, o, o, l],
            ],
        );
        assert(m@ =~~= orientation_grid(*left, *true_up, *forward));
        m
    }

    /// Whether `self * rhs` is defined: `self` must have as many columns as
    /// `rhs` has rows.
    pub fn conformable(&self, rhs: &Matrix) -> (r: Result<(), GeometryError>)
        ensures
            r == if self.width() == rhs@.len() {
                Ok::<(), GeometryError>(())
            } else {
                Err(GeometryError::DimensionMismatch)
            },
    {
        if self.cols() == rhs.rows() {
            Ok(())
        } else {
            Err(GeometryError::DimensionMismatch)
        }
    }

    /// Whether a matrix with the given determinant has an inverse: one
    /// whose determinant is zero has none.
    pub fn invertible(determinant: Scalar) -> (r: Result<(), GeometryError>)
        ensures
            r == if determinant.zero() {
                Err::<(), GeometryError>(GeometryError::NotInvertible)
            } else {
                Ok(())
            },
    {
        if determinant.is_zero() {
            Err(GeometryError::NotInvertible)
        } else {
            Ok(())
        }
    }

    /// The cofactor at `(row, col)` from the minor there: the minor where
    /// `row + col` is even, its negative where it is odd.
    pub fn cofactor(minor: Scalar, row: usize, col: usize) -> (c: Scalar)
        ensures
            c == signed(minor, row as int, col as int),
    {
        if (row % 2 + col % 2) % 2 == 0 {
            minor
        } else {
            minor.neg()
        }
    }

    /// The adjugate of a matrix from its minors: the cofactors, mirrored
    /// at the diagonal. Divided by the determinant it is the inverse.
    pub fn adjugate(minors: &Matrix) -> (adj: Matrix)
        requires
            minors.wf(),
        ensures
            adj@ == adjugate_grid(minors@, minors.width()),
            adj.wf(),
            adj@.len() == minors.width(),
            minors.width() > 0 ==> adj.width() == minors@.len(),
    {
        let rows = minors.rows();
        let cols = minors.cols();
        let mut res: Vec<Vec<Scalar>> = Vec::new();
        let mut j: usize = 0;
        while j < cols
            invariant
                minors.wf(),
                rows == minors@.len(),
                cols == minors.width(),
                j <= cols,
                res@.len() == j,
                forall|k: int|
                    0 <= k < j ==> (#[trigger] res@[k])@ == Seq::new(
                        rows as nat,
                        |i: int| signed(minors@[i][k], i, k),
                    ),
            decreases cols - j,
        {
            let mut column: Vec<Scalar> = Vec::new();
            let mut i: usize = 0;
            while i < rows
                invariant
                    minors.wf(),
                    rows == minors@.len(),
                    cols == minors.width(),
                    j < cols,
                    i <= rows,
                    column@.len() == i,
                    forall|k: int| 0 <= k < i ==> #[trigger] column@[k] == signed(minors@[k][j as int], k, j as int),
                decreases rows - i,
            {
                assert(minors@[i as int].len() == cols);
                column.push(Matrix::cofactor(minors.0[i][j], i, j));
                i += 1;
            }
            assert(column@ =~= Seq::new(rows as nat, |i: int| signed(minors@[i][j as int], i, j as int)));
            res.push(column);
            j += 1;
        }
        let adj = Matrix(res);
        assert(adj@ =~~= adjugate_grid(minors@, minors.width()));
        adj
    }
}

impl From<[[Scalar; 4]; 4]> for Matrix {
    fn from(value: [[Scalar; 4]; 4]) -> (m: Matrix)
        ensures
            m@ == Seq::new(4, |i: int| value@[i]@),
    {
        let mut res: Vec<Vec<Scalar>> = Vec::new();
        let mut i: usize = 0;
        while i < 4
            invariant
                i <= 4,
                res@.len() == i,
                forall|k: int| 0 <= k < i ==> (#[trigger] res@[k])@ == value@[k]@,
            decreases 4 - i,
        {
            let line = vec![value[i][0], value[i][1], value[i][2], value[i][3]];
            assert(line@ =~= value@[i as int]@);
            res.push(line);
            i += 1;
        }
        let m = Matrix(res);
        assert(m@ =~~= Seq::new(4, |i: int| value@[i]@));
        m
    }
}

impl vstd::std_specs::convert::FromSpecImpl<[[Scalar; 4]; 4]> for Matrix {
    /// A matrix is told by its grid alone, so the conversions state their
    /// results as grids, in their own `ensures`.
    open spec fn obeys_from_spec() -> bool {
        false
    }

    open spec fn from_spec(value: [[Scalar; 4]; 4]) -> Matrix {
        arbitrary()
    }
}

impl From<[[Scalar; 3]; 3]> for Matrix {
    fn from(value: [[Scalar; 3]; 3]) -> (m: Matrix)
        ensures
            m@ == Seq::new(3, |i: int| value@[i]@),
    {
        let mut res: Vec<Vec<Scalar>> = Vec::new();
        let mut i: usize = 0;
        while i < 3
            invariant
                i <= 3,
                res@.len() == i,
                forall|k: int| 0 <= k < i ==> (#[trigger] res@[k])@ == value@[k]@,
            decreases 3 - i,
        {
            let line = vec![value[i][0], value[i][1], value[i][2]];
            assert(line@ =~= value@[i as int]@);
            res.push(line);
            i += 1;
        }
        let m = Matrix(res);
        assert(m@ =~~= Seq::new(3, |i: int| value@[i]@));
        m
    }
}

impl vstd::std_specs::convert::FromSpecImpl<[[Scalar; 3]; 3]> for Matrix {
    open spec fn obeys_from_spec() -> bool {
        false
    }

    open spec fn from_spec(value: [[Scalar; 3]; 3]) -> Matrix {
        arbitrary()
    }
}

impl From<[[Scalar; 2]; 2]> for Matrix {
    fn from(value: [[Scalar; 2]; 2]) -> (m: Matrix)
        ensures
            m@ == Seq::new(2, |i: int| value@[i]@),
    {
        let mut res: Vec<Vec<Scalar>> = Vec::new();
        let mut i: usize = 0;
        while i < 2
            invariant
                i <= 2,
                res@.len() == i,
                forall|k: int| 0 <= k < i ==> (#[trigger] res@[k])@ == value@[k]@,
            decreases 2 - i,
        {
            let line = vec![value[i][0], value[i][1]];
            assert(line@ =~= value@[i as int]@);
            res.push(line);
            i += 1;
        }
        let m = Matrix(res);
        assert(m@ =~~= Seq::new(2, |i: int| value@[i]@));
        m
    }
}

impl vstd::std_specs::convert::FromSpecImpl<[[Scalar; 2]; 2]> for Matrix {
    open spec fn obeys_from_spec() -> bool {
        false
    }

    open spec fn from_spec(value: [[Scalar; 2]; 2]) -> Matrix {
        arbitrary()
    }
}

impl From<Vec4> for Matrix {
    fn from(value: Vec4) -> (m: Matrix)
        ensures
            m@ == column_grid(value.0, value.1, value.2, value.3),
    {
        let m = Matrix(vec![vec![value.0], vec![value.1], vec![value.2], vec![value.3]]);
        assert(m@ =~~= column_grid(value.0, value.1, value.2, value.3));
        m
    }
}

impl vstd::std_specs::convert::FromSpecImpl<Vec4> for Matrix {
    /// A matrix is told by its grid alone, so the conversions state their
    /// results as grids, in their own `ensures`.
    open spec fn obeys_from_spec() -> bool {
        false
    }

    open spec fn from_spec(value: Vec4) -> Matrix {
        arbitrary()
    }
}

impl From<Point> for Matrix {
    fn from(value: Point) -> (m: Matrix)
        ensures
            m@ == column_grid(value.0, value.1, value.2, value.3),
    {
        let m = Matrix(vec![vec![value.0], vec![value.1], vec![value.2], vec![value.3]]);
        assert(m@ =~~= column_grid(value.0, value.1, value.2, value.3));
        m
    }
}

impl vstd::std_specs::convert::FromSpecImpl<Point> for Matrix {
    /// A matrix is told by its grid alone, so the conversions state their
    /// results as grids, in their own `ensures`.
    open spec fn obeys_from_spec() -> bool {
        false
    }

    open spec fn from_spec(value: Point) -> Matrix {
        arbitrary()
    }
}

/// A grid that is mirrored twice is as it was.
pub proof fn law_transposed_twice(m: Seq<Seq<Scalar>>, cols: int)
    requires
        rectangular(m, cols),
        cols > 0 || m.len() == 0,
    ensures
        transposed(transposed(m, cols), m.len() as int) == m,
{
    assert(transposed(transposed(m, cols), m.len() as int) =~~= m);
}

/// The adjugate is the mirror image of the grid of cofactors.
pub proof fn law_adjugate_mirrors_cofactors(m: Seq<Seq<Scalar>>, cols: int)
    requires
        rectangular(m, cols),
    ensures
        adjugate_grid(m, cols) == transposed(
            Seq::new(m.len(), |i: int| Seq::new(cols as nat, |j: int| signed(m[i][j], i, j))),
            cols,
        ),
{
    assert(adjugate_grid(m, cols) =~~= transposed(
        Seq::new(m.len(), |i: int| Seq::new(cols as nat, |j: int| signed(m[i][j], i, j))),
        cols,
    ));
}

/// The identity is its own mirror image.
pub proof fn law_identity_is_symmetric()
    ensures
        transposed(identity_grid(), 4) == identity_grid(),
{
    assert(transposed(identity_grid(), 4) =~~= identity_grid());
}

/// Taking out a row and a column leaves a grid with one row and one
/// column less, in which every entry stands where it stood, moved up or
/// left by one where it came after what was taken out.
pub proof fn law_without_keeps_the_rest(m: Seq<Seq<Scalar>>, cols: int, row: int, col: int, i: int, j: int)
    requires
        rectangular(m, cols),
        0 <= row < m.len(),
        0 <= col < cols,
        0 <= i < m.len(),
        0 <= j < cols,
        i != row,
        j != col,
    ensures
        without(m, cols, row, col).len() == m.len() - 1,
        rectangular(without(m, cols, row, col), cols - 1),
        without(m, cols, row, col)[if i < row {
            i
        } else {
            i - 1
        }][if j < col {
            j
        } else {
            j - 1
        }] == m[i][j],
{
}

impl Clone for Matrix {
    fn clone(&self) -> (m: Matrix)
        ensures
            m@ == self@,
    {
        let mut res: Vec<Vec<Scalar>> = Vec::new();
        let mut i: usize = 0;
        while i < self.0.len()
            invariant
                i <= self.0@.len(),
                res@.len() == i,
                forall|k: int| 0 <= k < i ==> (#[trigger] res@[k])@ == self@[k],
            decreases self.0@.len() - i,
        {
            let mut line: Vec<Scalar> = Vec::new();
            let mut j: usize = 0;
            while j < self.0[i].len()
                invariant
                    i < self.0@.len(),
                    j <= self.0@[i as int]@.len(),
                    line@.len() == j,
                    forall|k: int| 0 <= k < j ==> #[trigger] line@[k] == self@[i as int][k],
                decreases self.0@[i as int]@.len() - j,
            {
                line.push(self.0[i][j]);
                j += 1;
            }
            assert(line@ =~= self@[i as int]);
            res.push(line);
            i += 1;
        }
        let m = Matrix(res);
        assert(m@ =~~= self@);
        m
    }
}

} // verus!
