use vstd::prelude::*;
use crate::numeric::Numeric;
use crate::math_types::vector::Vector;
use crate::text::{decimal_digits, fmt_usize, has_tag3, parse_usize, split_sp, split_spaces, usize_of_text};

verus! {

/// A dense matrix: a list of row vectors with declared row and column
/// counts. Every row carries exactly the declared column count; a zero
/// row or column count marks the distinguished error matrix.
#[derive(Clone, Debug, PartialEq)]
pub struct Matrix<N: Numeric> {
    val: Vec<Vector<N>>,
    m: usize,
    n: usize,
}

impl<N: Numeric> View for Matrix<N> {
    type V = Seq<Seq<N>>;

    closed spec fn view(&self) -> Seq<Seq<N>> {
        self.val@.map_values(|v: Vector<N>| v@)
    }
}

impl<N: Numeric> Matrix<N> {
    /// The declared shape matches the stored rows.
    pub closed spec fn wf(&self) -> bool {
        &&& self.val@.len() == self.m
        &&& forall|i: int| 0 <= i < self.val@.len() ==> (#[trigger] self.val@[i]).wf()
        &&& forall|i: int| 0 <= i < self.val@.len() ==> (#[trigger] self.val@[i])@.len() == self.n
    }

    /// The declared column count; spoken of separately because an error
    /// matrix may declare columns while holding no row.
    pub closed spec fn scols(&self) -> nat {
        self.n as nat
    }

    /// A zero-filled matrix of the given shape; a zero row or column count
    /// gives a rowless matrix that still declares its column count.
    pub fn new(m: usize, n: usize) -> (r: Self)
        ensures
            r.wf(),
            m != 0 && n != 0 ==> r@.len() == m,
            m == 0 || n == 0 ==> r@.len() == 0,
            r.scols() == n,
            forall|i: int| 0 <= i < r@.len() ==> #[trigger] r@[i].len() == n,
    {
        let mut result: Vec<Vector<N>> = Vec::new();
        if m != 0 && n != 0 {
            let mut i: usize = 0;
            while i < m
                invariant
                    0 <= i <= m,
                    result@.len() == i,
                    forall|k: int| 0 <= k < i ==> (#[trigger] result@[k]).wf(),
                    forall|k: int| 0 <= k < i ==> (#[trigger] result@[k])@.len() == n,
                decreases m - i,
            {
                result.push(Vector::new(n));
                i = i + 1;
            }
            Matrix { val: result, m, n }
        } else {
            Matrix { val: result, m: 0, n }
        }
    }

    pub fn get_entry(&self, i: usize, j: usize) -> (r: N)
        requires
            self.wf(),
            i < self@.len(),
            j < self.scols(),
        ensures
            r == self@[i as int][j as int],
    {
        self.val[i].get(j)
    }

    pub fn set_entry(&mut self, i: usize, j: usize, value: N)
        requires
            old(self).wf(),
            i < old(self)@.len(),
            j < old(self).scols(),
        ensures
            final(self).wf(),
            final(self).scols() == old(self).scols(),
            final(self)@ == old(self)@.update(i as int, old(self)@[i as int].update(j as int, value)),
    {
        self.val[i].set(j, value);
        proof {
            assert(self@ =~~= old(self)@.update(
                i as int,
                old(self)@[i as int].update(j as int, value),
            ));
        }
    }

    /// The distinguished invalid matrix.
    pub fn error_matrix() -> (r: Self)
        ensures
            r.wf(),
            r@.len() == 0,
            r.scols() == 0,
    {
        Matrix { val: Vec::new(), m: 0, n: 0 }
    }

    /// The square matrix with ones on the diagonal and zeros elsewhere.
    pub fn identity_matrix(d: usize) -> (r: Self)
        ensures
            r.wf(),
            r@.len() == d,
            r.scols() == d,
    {
        let mut result = Self::new(d, d);
        let mut i: usize = 0;
        while i < d
            invariant
                result.wf(),
                result@.len() == d,
                result.scols() == d,
                0 <= i <= d,
            decreases d - i,
        {
            result.set_entry(i, i, N::one());
            i = i + 1;
        }
        result
    }

    /// Despite its name, reports that the matrix is a computable one: both
    /// declared counts nonzero.
    pub fn is_error(&self) -> (b: bool)
        requires
            self.wf(),
        ensures
            b == (self@.len() != 0 && self.scols() != 0),
    {
        self.m != 0 && self.n != 0
    }

    pub fn rows(&self) -> (r: usize)
        requires
            self.wf(),
        ensures
            r == self@.len(),
    {
        self.m
    }

    pub fn cols(&self) -> (r: usize)
        requires
            self.wf(),
        ensures
            r == self.scols(),
    {
        self.n
    }

    /// An exact copy, row by row.
    pub fn duplicate(&self) -> (r: Self)
        requires
            self.wf(),
        ensures
            r.wf(),
            r@ == self@,
            r.scols() == self.scols(),
    {
        let mut rows: Vec<Vector<N>> = Vec::new();
        let mut i: usize = 0;
        while i < self.m
            invariant
                self.wf(),
                0 <= i <= self@.len(),
                rows@.len() == i,
                forall|k: int| 0 <= k < i ==> (#[trigger] rows@[k]).wf(),
                forall|k: int| 0 <= k < i ==> (#[trigger] rows@[k])@ == self@[k],
            decreases self@.len() - i,
        {
            let mut rowv: Vec<N> = Vec::new();
            let mut j: usize = 0;
            while j < self.n
                invariant
                    self.wf(),
                    i < self@.len(),
                    0 <= j <= self.scols(),
                    rowv@.len() == j,
                    forall|c: int| 0 <= c < j ==> rowv@[c] == self@[i as int][c],
                decreases self.scols() - j,
            {
                rowv.push(self.get_entry(i, j));
                j = j + 1;
            }
            rows.push(Vector::from_list(rowv));
            proof {
                assert(rows@[i as int]@ =~= self@[i as int]);
            }
            i = i + 1;
        }
        let r = Matrix { val: rows, m: self.m, n: self.n };
        proof {
            assert(r@ =~~= self@);
        }
        r
    }

    /// Swaps two rows in place; out-of-range indices and equal indices
    /// leave the matrix unchanged.
    pub fn row_swap(&mut self, orig_row: usize, new_row: usize)
        requires
            old(self).wf(),
        ensures
            final(self).wf(),
            final(self).scols() == old(self).scols(),
            (orig_row == new_row || orig_row >= old(self)@.len() || new_row >= old(self)@.len())
                ==> final(self)@ == old(self)@,
            (orig_row != new_row && orig_row < old(self)@.len() && new_row < old(self)@.len())
                ==> final(self)@ == old(self)@.update(orig_row as int, old(self)@[new_row as int]).update(
                new_row as int,
                old(self)@[orig_row as int],
            ),
    {
        if orig_row == new_row || orig_row >= self.m || new_row >= self.m {
            return;
        }
        let cols = self.n;
        let mut j: usize = 0;
        while j < cols
            invariant
                self.wf(),
                self.scols() == old(self).scols() == cols,
                self@.len() == old(self)@.len(),
                orig_row != new_row,
                orig_row < old(self)@.len(),
                new_row < old(self)@.len(),
                0 <= j <= cols,
                forall|k: int|
                    0 <= k < old(self)@.len() && k != orig_row && k != new_row
                        ==> #[trigger] self@[k] == old(self)@[k],
                self@[orig_row as int].len() == cols,
                self@[new_row as int].len() == cols,
                old(self)@[orig_row as int].len() == cols,
                old(self)@[new_row as int].len() == cols,
                forall|c: int|
                    0 <= c < j ==> #[trigger] self@[orig_row as int][c] == old(self)@[new_row as int][c],
                forall|c: int|
                    0 <= c < j ==> #[trigger] self@[new_row as int][c] == old(self)@[orig_row as int][c],
                forall|c: int|
                    j <= c < cols ==> #[trigger] self@[orig_row as int][c] == old(self)@[orig_row as int][c],
                forall|c: int|
                    j <= c < cols ==> #[trigger] self@[new_row as int][c] == old(self)@[new_row as int][c],
            decreases cols - j,
        {
            let a = self.get_entry(orig_row, j);
            let b = self.get_entry(new_row, j);
            self.set_entry(orig_row, j, b);
            self.set_entry(new_row, j, a);
            j = j + 1;
        }
        proof {
            assert(self@ =~~= old(self)@.update(
                orig_row as int,
                old(self)@[new_row as int],
            ).update(new_row as int, old(self)@[orig_row as int]));
        }
    }

    /// Adds a multiple of one row into another, in place. Rows other than
    /// the target never change; a zero factor or an out-of-range index
    /// leaves everything unchanged.
    pub fn row_add(&mut self, orig_row: usize, fac: N, target_row: usize)
        requires
            old(self).wf(),
        ensures
            final(self).wf(),
            final(self).scols() == old(self).scols(),
            final(self)@.len() == old(self)@.len(),
            forall|k: int|
                0 <= k < old(self)@.len() && k != target_row ==> #[trigger] final(self)@[k]
                    == old(self)@[k],
            (orig_row >= old(self)@.len() || target_row >= old(self)@.len()) ==> final(self)@
                == old(self)@,
    {
        if orig_row >= self.m || target_row >= self.m {
            return;
        }
        if fac.eq_num(&N::zero()) {
            return;
        }
        let cols = self.n;
        let mut j: usize = 0;
        while j < cols
            invariant
                self.wf(),
                self.scols() == old(self).scols() == cols,
                self@.len() == old(self)@.len(),
                orig_row < old(self)@.len(),
                target_row < old(self)@.len(),
                0 <= j <= cols,
                forall|k: int|
                    0 <= k < old(self)@.len() && k != target_row ==> #[trigger] self@[k]
                        == old(self)@[k],
            decreases cols - j,
        {
            let source = self.get_entry(orig_row, j);
            let current = self.get_entry(target_row, j);
            self.set_entry(target_row, j, current.add(&source.mul(&fac)));
            j = j + 1;
        }
    }

    /// The matrix with rows and columns exchanged; an empty shape gives
    /// the error matrix.
    pub fn transpose(&self) -> (r: Matrix<N>)
        requires
            self.wf(),
        ensures
            r.wf(),
            r.scols() == self@.len(),
            self@.len() == 0 || self.scols() == 0 ==> r@.len() == 0,
            self@.len() > 0 && self.scols() > 0 ==> {
                &&& r@.len() == self.scols()
                &&& forall|i: int, j: int|
                    0 <= i < self@.len() && 0 <= j < self.scols() ==> r@[j][i] == #[trigger] self@[i][j]
            },
    {
        let mut result = Self::new(self.n, self.m);
        if self.m == 0 || self.n == 0 {
            return result;
        }
        let mut i: usize = 0;
        while i < self.m
            invariant
                self.wf(),
                result.wf(),
                self@.len() > 0,
                self.scols() > 0,
                result@.len() == self.scols(),
                result.scols() == self@.len(),
                0 <= i <= self@.len(),
                forall|a: int, b: int|
                    0 <= a < i && 0 <= b < self.scols() ==> result@[b][a] == #[trigger] self@[a][b],
            decreases self@.len() - i,
        {
            let mut j: usize = 0;
            while j < self.n
                invariant
                    self.wf(),
                    result.wf(),
                    self@.len() > 0,
                    self.scols() > 0,
                    result@.len() == self.scols(),
                    result.scols() == self@.len(),
                    i < self@.len(),
                    0 <= j <= self.scols(),
                    forall|a: int, b: int|
                        0 <= a < i && 0 <= b < self.scols() ==> result@[b][a] == #[trigger] self@[a][b],
                    forall|b: int| 0 <= b < j ==> result@[b][i as int] == #[trigger] self@[i as int][b],
                decreases self.scols() - j,
            {
                let v = self.get_entry(i, j);
                result.set_entry(j, i, v);
                j = j + 1;
            }
            i = i + 1;
        }
        result
    }

    /// Horizontal concatenation: the rows of the argument are appended to
    /// the right of this matrix's rows. The row counts must agree.
    pub fn augment(&self, obj: &Self) -> (r: Result<Matrix<N>, String>)
        requires
            self.wf(),
            obj.wf(),
            self.scols() + obj.scols() <= usize::MAX,
        ensures
            self@.len() != obj@.len() ==> r is Err,
            self@.len() == obj@.len() ==> r is Ok,
            r matches Ok(a) ==> {
                &&& a.wf()
                &&& self@.len() > 0 && self.scols() + obj.scols() > 0 ==> {
                    &&& a@.len() == self@.len()
                    &&& a.scols() == self.scols() + obj.scols()
                    &&& forall|i: int, j: int|
                        0 <= i < self@.len() && 0 <= j < self.scols() ==> a@[i][j] == #[trigger] self@[i][j]
                    &&& forall|i: int, j: int|
                        0 <= i < self@.len() && 0 <= j < obj.scols() ==> a@[i][self.scols() + j]
                            == #[trigger] obj@[i][j]
                }
            },
    {
        if self.m != obj.m {
            return Err(
                "The dimensions for the matrices are not compatible for augmentation.".to_string(),
            );
        }
        let rows = self.m;
        let cols1 = self.n;
        let cols2 = obj.n;
        let mut result = Self::new(rows, cols1 + cols2);
        if rows == 0 || cols1 + cols2 == 0 {
            return Ok(result);
        }
        let mut i: usize = 0;
        while i < rows
            invariant
                self.wf(),
                obj.wf(),
                result.wf(),
                rows == self@.len() == obj@.len(),
                cols1 == self.scols(),
                cols2 == obj.scols(),
                rows > 0,
                cols1 + cols2 > 0,
                result@.len() == rows,
                result.scols() == cols1 + cols2,
                0 <= i <= rows,
                forall|a: int, b: int|
                    0 <= a < i && 0 <= b < cols1 ==> result@[a][b] == #[trigger] self@[a][b],
                forall|a: int, b: int|
                    0 <= a < i && 0 <= b < cols2 ==> result@[a][cols1 + b] == #[trigger] obj@[a][b],
            decreases rows - i,
        {
            let mut j: usize = 0;
            while j < cols1
                invariant
                    self.wf(),
                    obj.wf(),
                    result.wf(),
                    rows == self@.len() == obj@.len(),
                    cols1 == self.scols(),
                    cols2 == obj.scols(),
                    result@.len() == rows,
                    result.scols() == cols1 + cols2,
                    i < rows,
                    0 <= j <= cols1,
                    forall|a: int, b: int|
                        0 <= a < i && 0 <= b < cols1 ==> result@[a][b] == #[trigger] self@[a][b],
                    forall|a: int, b: int|
                        0 <= a < i && 0 <= b < cols2 ==> result@[a][cols1 + b] == #[trigger] obj@[a][b],
                    forall|b: int| 0 <= b < j ==> result@[i as int][b] == #[trigger] self@[i as int][b],
                decreases cols1 - j,
            {
                let v = self.get_entry(i, j);
                result.set_entry(i, j, v);
                j = j + 1;
            }
            let mut k: usize = 0;
            while k < cols2
                invariant
                    self.wf(),
                    obj.wf(),
                    result.wf(),
                    rows == self@.len() == obj@.len(),
                    cols1 == self.scols(),
                    cols2 == obj.scols(),
                    result@.len() == rows,
                    result.scols() == cols1 + cols2,
                    i < rows,
                    0 <= k <= cols2,
                    forall|a: int, b: int|
                        0 <= a < i && 0 <= b < cols1 ==> result@[a][b] == #[trigger] self@[a][b],
                    forall|a: int, b: int|
                        0 <= a < i && 0 <= b < cols2 ==> result@[a][cols1 + b] == #[trigger] obj@[a][b],
                    forall|b: int| 0 <= b < cols1 ==> result@[i as int][b] == #[trigger] self@[i as int][b],
                    forall|b: int|
                        0 <= b < k ==> result@[i as int][cols1 + b] == #[trigger] obj@[i as int][b],
                decreases cols2 - k,
            {
                let v = obj.get_entry(i, k);
                result.set_entry(i, cols1 + k, v);
                k = k + 1;
            }
            i = i + 1;
        }
        Ok(result)
    }

    /// The submatrix of the given row and column ranges; an empty range in
    /// either direction gives the error matrix.
    pub fn extract(&self, rows: core::ops::Range<usize>, cols: core::ops::Range<usize>) -> (r:
        Matrix<N>)
        requires
            self.wf(),
            rows.end <= self@.len(),
            cols.end <= self.scols(),
        ensures
            r.wf(),
            rows.start >= rows.end || cols.start >= cols.end ==> r@.len() == 0,
            rows.start < rows.end && cols.start < cols.end ==> {
                &&& r@.len() == rows.end - rows.start
                &&& r.scols() == cols.end - cols.start
                &&& forall|i: int, j: int|
                    0 <= i < r@.len() && 0 <= j < r.scols() ==> r@[i][j] == #[trigger] self@[rows.start
                        + i][cols.start + j]
            },
    {
        let r0 = rows.start;
        let r1 = rows.end;
        let c0 = cols.start;
        let c1 = cols.end;
        if r0 >= r1 || c0 >= c1 {
            return Matrix::error_matrix();
        }
        let mut result = Self::new(r1 - r0, c1 - c0);
        let mut i: usize = 0;
        while i < r1 - r0
            invariant
                self.wf(),
                result.wf(),
                r0 < r1 <= self@.len(),
                c0 < c1 <= self.scols(),
                result@.len() == r1 - r0,
                result.scols() == c1 - c0,
                0 <= i <= r1 - r0,
                forall|a: int, b: int|
                    0 <= a < i && 0 <= b < c1 - c0 ==> result@[a][b] == #[trigger] self@[r0 + a][c0
                        + b],
            decreases r1 - r0 - i,
        {
            let mut j: usize = 0;
            while j < c1 - c0
                invariant
                    self.wf(),
                    result.wf(),
                    r0 < r1 <= self@.len(),
                    c0 < c1 <= self.scols(),
                    result@.len() == r1 - r0,
                    result.scols() == c1 - c0,
                    i < r1 - r0,
                    0 <= j <= c1 - c0,
                    forall|a: int, b: int|
                        0 <= a < i && 0 <= b < c1 - c0 ==> result@[a][b] == #[trigger] self@[r0 + a][c0
                            + b],
                    forall|b: int|
                        0 <= b < j ==> result@[i as int][b] == #[trigger] self@[r0 + i][c0 + b],
                decreases c1 - c0 - j,
            {
                let v = self.get_entry(r0 + i, c0 + j);
                result.set_entry(i, j, v);
                j = j + 1;
            }
            i = i + 1;
        }
        result
    }

    /// The determinant by Gaussian elimination with partial pivoting on a
    /// working copy: the column's largest-magnitude candidate becomes the
    /// pivot, a row swap flips the sign of the running product, and a
    /// pivot below the negligibility threshold settles the matrix as
    /// singular with determinant zero. Defined for square matrices only;
    /// which element comes back is the element arithmetic's affair.
    pub fn determinant(&self) -> (r: Option<N>)
        requires
            self.wf(),
            self@.len() == self.scols(),
        ensures
            r is Some,
    {
        let mut mat = self.duplicate();
        let size = self.n;
        let mut det = N::one();
        let mut i: usize = 0;
        while i < size
            invariant
                mat.wf(),
                mat@.len() == size,
                mat.scols() == size,
                0 <= i <= size,
            decreases size - i,
        {
            // choose the largest-magnitude pivot at or below row i
            let mut max_row: usize = i;
            let mut j: usize = i + 1;
            while j < size
                invariant
                    mat.wf(),
                    mat@.len() == size,
                    mat.scols() == size,
                    i < size,
                    i <= max_row < size,
                    i + 1 <= j <= size,
                decreases size - j,
            {
                if mat.get_entry(j, i).abs_gt(&mat.get_entry(max_row, i)) {
                    max_row = j;
                }
                j = j + 1;
            }
            if max_row != i {
                mat.row_swap(i, max_row);
                det = N::zero().sub(&det);
            }
            if mat.get_entry(i, i).is_negligible() {
                return Some(N::zero());
            }
            det = det.mul(&mat.get_entry(i, i));
            // eliminate below the pivot
            let mut k: usize = i + 1;
            while k < size
                invariant
                    mat.wf(),
                    mat@.len() == size,
                    mat.scols() == size,
                    i < size,
                    i + 1 <= k <= size,
                decreases size - k,
            {
                let factor = mat.get_entry(k, i).div(&mat.get_entry(i, i));
                let mut c: usize = i;
                while c < size
                    invariant
                        mat.wf(),
                        mat@.len() == size,
                        mat.scols() == size,
                        i < size,
                        k < size,
                        i <= c <= size,
                    decreases size - c,
                {
                    let updated = mat.get_entry(k, c).sub(&factor.mul(&mat.get_entry(i, c)));
                    mat.set_entry(k, c, updated);
                    c = c + 1;
                }
                k = k + 1;
            }
            i = i + 1;
        }
        Some(det)
    }

    /// Whether an entry equals the zero element, as the element type
    /// decides.
    fn zero_at(&self, i: usize, j: usize) -> bool
        requires
            self.wf(),
            i < self@.len(),
            j < self.scols(),
    {
        self.get_entry(i, j).eq_num(&N::zero())
    }

    /// Forward elimination with pivoting, in place: for each column the
    /// first row at or below the current pivot row with a nonzero entry is
    /// swapped into place, normalized to a unit pivot, and used to clear
    /// the entries below; a column with no candidate is skipped. The shape
    /// never changes.
    pub fn row_echelon_form(&mut self)
        requires
            old(self).wf(),
        ensures
            final(self).wf(),
            final(self)@.len() == old(self)@.len(),
            final(self).scols() == old(self).scols(),
    {
        let rows = self.m;
        let cols = self.n;
        let mut current_row: usize = 0;
        let mut current_col: usize = 0;
        while current_col < cols
            invariant
                self.wf(),
                self@.len() == old(self)@.len() == rows,
                self.scols() == old(self).scols() == cols,
                0 <= current_col <= cols,
                0 <= current_row <= rows,
            decreases cols - current_col,
        {
            let mut pivot_row = current_row;
            while pivot_row < rows && self.zero_at(pivot_row, current_col)
                invariant
                    self.wf(),
                    self@.len() == old(self)@.len() == rows,
                    self.scols() == old(self).scols() == cols,
                    current_col < cols,
                    current_row <= pivot_row <= rows,
                decreases rows - pivot_row,
            {
                pivot_row = pivot_row + 1;
            }
            if pivot_row < rows {
                self.row_swap(current_row, pivot_row);
                // normalize the pivot row
                let pivot_value = self.get_entry(current_row, current_col);
                let mut col: usize = current_col;
                while col < cols
                    invariant
                        self.wf(),
                        self@.len() == old(self)@.len() == rows,
                        self.scols() == old(self).scols() == cols,
                        current_row < rows,
                        current_col <= col <= cols,
                    decreases cols - col,
                {
                    let updated = self.get_entry(current_row, col).div(&pivot_value);
                    self.set_entry(current_row, col, updated);
                    col = col + 1;
                }
                // eliminate the entries below the pivot
                let mut row: usize = current_row + 1;
                while row < rows
                    invariant
                        self.wf(),
                        self@.len() == old(self)@.len() == rows,
                        self.scols() == old(self).scols() == cols,
                        current_row < rows,
                        current_col < cols,
                        current_row + 1 <= row <= rows,
                    decreases rows - row,
                {
                    let multiplier = self.get_entry(row, current_col);
                    let mut col2: usize = current_col;
                    while col2 < cols
                        invariant
                            self.wf(),
                            self@.len() == old(self)@.len() == rows,
                            self.scols() == old(self).scols() == cols,
                            current_row < rows,
                            row < rows,
                            current_col <= col2 <= cols,
                        decreases cols - col2,
                    {
                        let updated = self.get_entry(row, col2).sub(
                            &multiplier.mul(&self.get_entry(current_row, col2)),
                        );
                        self.set_entry(row, col2, updated);
                        col2 = col2 + 1;
                    }
                    row = row + 1;
                }
                current_row = current_row + 1;
            }
            current_col = current_col + 1;
        }
    }

    /// Row echelon form followed by back substitution: each pivot becomes
    /// exactly one and every entry above and below it is cleared. The
    /// shape never changes.
    pub fn reduced_row_echelon_form(&mut self)
        requires
            old(self).wf(),
        ensures
            final(self).wf(),
            final(self)@.len() == old(self)@.len(),
            final(self).scols() == old(self).scols(),
    {
        self.row_echelon_form();
        let rows = self.m;
        let cols = self.n;
        let mut lead: usize = 0;
        let mut r: usize = 0;
        while r < rows
            invariant
                self.wf(),
                self@.len() == old(self)@.len() == rows,
                self.scols() == old(self).scols() == cols,
                0 <= r <= rows,
            decreases rows - r,
        {
            if lead >= cols {
                break;
            }
            let mut i: usize = r;
            while i < rows && lead < cols && self.zero_at(i, lead)
                invariant
                    self.wf(),
                    self@.len() == old(self)@.len() == rows,
                    self.scols() == old(self).scols() == cols,
                    r < rows,
                    r <= i <= rows,
                    lead <= cols,
                decreases cols - lead, rows - i,
            {
                i = i + 1;
                if i == rows {
                    i = r;
                    lead = lead + 1;
                    if lead == cols {
                        break;
                    }
                }
            }
            if lead < cols {
                self.row_swap(i, r);
                let divisor = self.get_entry(r, lead);
                if !divisor.eq_num(&N::zero()) {
                    let mut j: usize = 0;
                    while j < cols
                        invariant
                            self.wf(),
                            self@.len() == old(self)@.len() == rows,
                            self.scols() == old(self).scols() == cols,
                            r < rows,
                            0 <= j <= cols,
                        decreases cols - j,
                    {
                        let updated = self.get_entry(r, j).div(&divisor);
                        self.set_entry(r, j, updated);
                        j = j + 1;
                    }
                }
                let mut k: usize = 0;
                while k < rows
                    invariant
                        self.wf(),
                        self@.len() == old(self)@.len() == rows,
                        self.scols() == old(self).scols() == cols,
                        r < rows,
                        lead < cols,
                        0 <= k <= rows,
                    decreases rows - k,
                {
                    if k != r {
                        let factor = self.get_entry(k, lead);
                        let mut j: usize = 0;
                        while j < cols
                            invariant
                                self.wf(),
                                self@.len() == old(self)@.len() == rows,
                                self.scols() == old(self).scols() == cols,
                                r < rows,
                                k < rows,
                                0 <= j <= cols,
                            decreases cols - j,
                        {
                            let updated = self.get_entry(k, j).sub(
                                &factor.mul(&self.get_entry(r, j)),
                            );
                            self.set_entry(k, j, updated);
                            j = j + 1;
                        }
                    }
                    k = k + 1;
                }
            }
            if lead < cols {
                lead = lead + 1;
            }
            r = r + 1;
        }
    }

    /// The inverse by elimination on the augmented pair: the matrix beside
    /// the identity, fully reduced; when the left half comes out as the
    /// identity the right half is the inverse, and otherwise the matrix is
    /// singular and `None` comes back. Only square matrices are invertible;
    /// whether a given matrix is singular is the element arithmetic's
    /// affair.
    pub fn invert(&self) -> (r: Option<Matrix<N>>)
        requires
            self.wf(),
            self@.len() <= usize::MAX / 2,
            self.scols() <= usize::MAX / 2,
        ensures
            self@.len() != self.scols() ==> r is None,
            r matches Some(inv) ==> inv.wf() && self@.len() == self.scols() && (self@.len() > 0
                ==> inv@.len() == self@.len() && inv.scols() == self.scols()),
    {
        if self.m != self.n {
            return None;
        }
        let size = self.m;
        let id = Self::identity_matrix(size);
        let aug = self.augment(&id);
        match aug {
            Ok(mut a) => {
                if size == 0 {
                    return Some(Matrix::error_matrix());
                }
                a.reduced_row_echelon_form();
                let left = a.extract(0..size, 0..size);
                let right = a.extract(0..size, size..(size * 2));
                if left.val_eq(&id) {
                    Some(right)
                } else {
                    None
                }
            },
            Err(_) => None,
        }
    }

    /// Elementwise equality of the stored rows, as the element type
    /// defines it; stops at the first difference.
    pub fn val_eq(&self, obj: &Self) -> (b: bool)
        requires
            self.wf(),
            obj.wf(),
        ensures
            b ==> self@.len() == obj@.len(),
    {
        if self.val.len() != obj.val.len() {
            return false;
        }
        let mut i: usize = 0;
        while i < self.val.len()
            invariant
                self.wf(),
                obj.wf(),
                self@.len() == obj@.len(),
                0 <= i <= self@.len(),
            decreases self@.len() - i,
        {
            if !self.val[i].val_eq(&obj.val[i]) {
                return false;
            }
            i = i + 1;
        }
        true
    }

    pub fn get_val(&self) -> (r: &Vec<Vector<N>>)
        ensures
            r@.len() == self@.len(),
            forall|i: int| 0 <= i < r@.len() ==> (#[trigger] r@[i])@ == self@[i],
    {
        &self.val
    }

    /// Replaces the stored rows. The rows must all share one dimension, or
    /// nothing changes; empty data, or rows of dimension zero, turn the
    /// value into the error matrix. Otherwise the declared shape and the
    /// stored elements follow the new data exactly.
    pub fn set_val(&mut self, new_data: Vec<Vector<N>>) -> (r: Result<(), String>)
        requires
            old(self).wf(),
            forall|i: int| 0 <= i < new_data@.len() ==> (#[trigger] new_data@[i]).wf(),
        ensures
            final(self).wf(),
            r is Ok <==> (new_data@.len() == 0 || (forall|i: int|
                0 <= i < new_data@.len() ==> (#[trigger] new_data@[i])@.len()
                    == new_data@[0]@.len())),
            r is Err ==> final(self)@ == old(self)@ && final(self).scols() == old(self).scols(),
            r is Ok ==> final(self)@.len() == (if new_data@.len() > 0 && new_data@[0]@.len() > 0 {
                new_data@.len()
            } else {
                0
            }),
            r is Ok && new_data@.len() > 0 && new_data@[0]@.len() > 0 ==> final(self).scols()
                == new_data@[0]@.len() && (forall|i: int|
                0 <= i < new_data@.len() ==> final(self)@[i] == (#[trigger] new_data@[i])@),
            r is Ok && !(new_data@.len() > 0 && new_data@[0]@.len() > 0) ==> final(self).scols()
                == 0,
    {
        if new_data.len() == 0 {
            self.val = Vec::new();
            self.m = 0;
            self.n = 0;
            return Ok(());
        }
        let dim = new_data[0].dim();
        let mut i: usize = 1;
        while i < new_data.len()
            invariant
                self == old(self),
                self.wf(),
                forall|k: int| 0 <= k < new_data@.len() ==> (#[trigger] new_data@[k]).wf(),
                new_data@.len() > 0,
                dim == new_data@[0]@.len(),
                1 <= i <= new_data@.len(),
                forall|k: int| 0 <= k < i ==> (#[trigger] new_data@[k])@.len() == dim,
            decreases new_data@.len() - i,
        {
            if new_data[i].dim() != dim {
                return Err("At a row, there is a dimension mismatch.".to_string());
            }
            i = i + 1;
        }
        if dim == 0 {
            self.val = Vec::new();
            self.m = 0;
            self.n = 0;
            return Ok(());
        }
        self.m = new_data.len();
        self.n = dim;
        self.val = new_data;
        Ok(())
    }

    /// Elementwise sum; the shapes must agree.
    pub fn add(&self, rhs: &Self) -> (r: Result<Self, String>)
        requires
            self.wf(),
            rhs.wf(),
        ensures
            (self@.len() != rhs@.len() || self.scols() != rhs.scols()) ==> r is Err,
            self@.len() == rhs@.len() && self.scols() == rhs.scols() ==> (r matches Ok(v) && v.wf()
                && v@.len() == (if self@.len() > 0 && self.scols() > 0 {
                self@.len()
            } else {
                0
            }) && v.scols() == (if self@.len() > 0 && self.scols() > 0 {
                self.scols()
            } else {
                self.scols()
            })),
    {
        if self.m == rhs.m && self.n == rhs.n {
            let mut result = Self::new(self.m, self.n);
            if self.m == 0 || self.n == 0 {
                return Ok(result);
            }
            let mut row: usize = 0;
            while row < self.m
                invariant
                    self.wf(),
                    rhs.wf(),
                    result.wf(),
                    self@.len() == rhs@.len(),
                    self.scols() == rhs.scols(),
                    self@.len() > 0,
                    self.scols() > 0,
                    result@.len() == self@.len(),
                    result.scols() == self.scols(),
                    0 <= row <= self@.len(),
                decreases self@.len() - row,
            {
                let mut col: usize = 0;
                while col < self.n
                    invariant
                        self.wf(),
                        rhs.wf(),
                        result.wf(),
                        self@.len() == rhs@.len(),
                        self.scols() == rhs.scols(),
                        result@.len() == self@.len(),
                        result.scols() == self.scols(),
                        row < self@.len(),
                        0 <= col <= self.scols(),
                    decreases self.scols() - col,
                {
                    let v = self.get_entry(row, col).add(&rhs.get_entry(row, col));
                    result.set_entry(row, col, v);
                    col = col + 1;
                }
                row = row + 1;
            }
            Ok(result)
        } else {
            Err("Dimension Mismatch".to_string())
        }
    }

    /// Elementwise difference; the shapes must agree.
    pub fn sub(&self, rhs: &Self) -> (r: Result<Self, String>)
        requires
            self.wf(),
            rhs.wf(),
        ensures
            (self@.len() != rhs@.len() || self.scols() != rhs.scols()) ==> r is Err,
            self@.len() == rhs@.len() && self.scols() == rhs.scols() ==> (r matches Ok(v) && v.wf()
                && v@.len() == (if self@.len() > 0 && self.scols() > 0 {
                self@.len()
            } else {
                0
            }) && v.scols() == self.scols()),
    {
        if self.m == rhs.m && self.n == rhs.n {
            let mut result = Self::new(self.m, self.n);
            if self.m == 0 || self.n == 0 {
                return Ok(result);
            }
            let mut row: usize = 0;
            while row < self.m
                invariant
                    self.wf(),
                    rhs.wf(),
                    result.wf(),
                    self@.len() == rhs@.len(),
                    self.scols() == rhs.scols(),
                    self@.len() > 0,
                    self.scols() > 0,
                    result@.len() == self@.len(),
                    result.scols() == self.scols(),
                    0 <= row <= self@.len(),
                decreases self@.len() - row,
            {
                let mut col: usize = 0;
                while col < self.n
                    invariant
                        self.wf(),
                        rhs.wf(),
                        result.wf(),
                        self@.len() == rhs@.len(),
                        self.scols() == rhs.scols(),
                        result@.len() == self@.len(),
                        result.scols() == self.scols(),
                        row < self@.len(),
                        0 <= col <= self.scols(),
                    decreases self.scols() - col,
                {
                    let v = self.get_entry(row, col).sub(&rhs.get_entry(row, col));
                    result.set_entry(row, col, v);
                    col = col + 1;
                }
                row = row + 1;
            }
            Ok(result)
        } else {
            Err("Dimension Mismatch".to_string())
        }
    }

    /// The matrix product: defined when this matrix's column count equals
    /// the other's row count and neither is an error matrix; the result
    /// has this matrix's rows and the other's columns.
    pub fn mul(&self, rhs: &Self) -> (r: Result<Self, String>)
        requires
            self.wf(),
            rhs.wf(),
        ensures
            (self.scols() != rhs@.len() || self@.len() == 0 || self.scols() == 0 || rhs@.len() == 0
                || rhs.scols() == 0) ==> r is Err,
            (self.scols() == rhs@.len() && self@.len() > 0 && self.scols() > 0 && rhs@.len() > 0
                && rhs.scols() > 0) ==> (r matches Ok(v) && v.wf() && v@.len() == self@.len()
                && v.scols() == rhs.scols()),
    {
        if self.n != rhs.m || self.m == 0 || self.n == 0 || rhs.m == 0 || rhs.n == 0 {
            return Err("Dimensional mismatch, or one matrix is empty.".to_string());
        }
        let r_count = self.m;
        let c_count = rhs.n;
        let inner = rhs.m;
        let mut result = Self::new(r_count, c_count);
        let mut i: usize = 0;
        while i < r_count
            invariant
                self.wf(),
                rhs.wf(),
                result.wf(),
                r_count == self@.len(),
                c_count == rhs.scols(),
                inner == rhs@.len() == self.scols(),
                r_count > 0 && c_count > 0 && inner > 0,
                result@.len() == r_count,
                result.scols() == c_count,
                0 <= i <= r_count,
            decreases r_count - i,
        {
            let mut j: usize = 0;
            while j < c_count
                invariant
                    self.wf(),
                    rhs.wf(),
                    result.wf(),
                    r_count == self@.len(),
                    c_count == rhs.scols(),
                    inner == rhs@.len() == self.scols(),
                    result@.len() == r_count,
                    result.scols() == c_count,
                    i < r_count,
                    0 <= j <= c_count,
                decreases c_count - j,
            {
                let mut acc = N::zero();
                let mut k: usize = 0;
                while k < inner
                    invariant
                        self.wf(),
                        rhs.wf(),
                        r_count == self@.len(),
                        inner == rhs@.len() == self.scols(),
                        c_count == rhs.scols(),
                        i < r_count,
                        j < c_count,
                        0 <= k <= inner,
                    decreases inner - k,
                {
                    acc = acc.add(&self.get_entry(i, k).mul(&rhs.get_entry(k, j)));
                    k = k + 1;
                }
                result.set_entry(i, j, acc);
                j = j + 1;
            }
            i = i + 1;
        }
        Ok(result)
    }

    /// Writes the value in the storage encoding: the type tag, the row and
    /// column counts, then every element's text in row-major order, all
    /// space-separated with one trailing space.
    pub fn sterilize(&self) -> (r: String)
        requires
            self.wf(),
        ensures
            r@.len() >= 4,
            r@.subrange(0, 4) == "MAT "@,
            ({
                let p = "MAT "@ + decimal_digits(self@.len() as nat) + seq![' ']
                    + decimal_digits(self.scols()) + seq![' '];
                r@.len() >= p.len() && r@.subrange(0, p.len() as int) == p
            }),
    {
        let ghost p = "MAT "@ + decimal_digits(self@.len() as nat) + seq![' '] + decimal_digits(
            self.scols(),
        ) + seq![' '];
        let mut out = String::from_str("MAT ");
        let m_text = fmt_usize(self.m);
        out.append(m_text.as_str());
        out.append(" ");
        let n_text = fmt_usize(self.n);
        out.append(n_text.as_str());
        out.append(" ");
        proof {
            reveal_strlit("MAT ");
            reveal_strlit(" ");
            assert(out@ =~= p);
        }
        let mut i: usize = 0;
        while i < self.m
            invariant
                self.wf(),
                0 <= i <= self@.len(),
                p == "MAT "@ + decimal_digits(self@.len() as nat) + seq![' '] + decimal_digits(
                    self.scols(),
                ) + seq![' '],
                out@.len() >= p.len(),
                out@.subrange(0, p.len() as int) == p,
            decreases self@.len() - i,
        {
            let mut j: usize = 0;
            while j < self.n
                invariant
                    self.wf(),
                    i < self@.len(),
                    0 <= j <= self.scols(),
                    p == "MAT "@ + decimal_digits(self@.len() as nat) + seq![' ']
                        + decimal_digits(self.scols()) + seq![' '],
                    out@.len() >= p.len(),
                    out@.subrange(0, p.len() as int) == p,
                decreases self.scols() - j,
            {
                let ghost before = out@;
                let text = self.get_entry(i, j).to_text();
                out.append(text.as_str());
                out.append(" ");
                proof {
                    assert(out@.subrange(0, p.len() as int) =~= before.subrange(
                        0,
                        p.len() as int,
                    ));
                }
                j = j + 1;
            }
            i = i + 1;
        }
        proof {
            reveal_strlit("MAT ");
            assert(p.len() >= 4);
            assert(out@.subrange(0, 4) =~= p.subrange(0, 4));
            assert(p.subrange(0, 4) =~= "MAT "@);
        }
        out
    }

    /// Reads a value back from the storage encoding. The text is split on
    /// spaces; the tag must be the matrix one, the next two tokens name the
    /// row and column counts, and that many element texts must follow in
    /// row-major order, each accepted by the element type. A read value
    /// always carries its declared shape.
    pub fn from_sterilize(input: &str) -> (r: Result<Self, String>)
        ensures
            input@.len() < 3 ==> r is Err,
            input@.len() >= 3 && input@.subrange(0, 3) != "MAT"@ ==> r is Err,
            input@.len() >= 3 && input@.subrange(0, 3) == "MAT"@ && split_sp(input@).len() < 3
                ==> r is Err,
            input@.len() >= 3 && input@.subrange(0, 3) == "MAT"@ && split_sp(input@).len() >= 3 && (
            usize_of_text(split_sp(input@)[1]) is None || usize_of_text(split_sp(input@)[2]) is None)
                ==> r is Err,
            (input@.len() >= 3 && input@.subrange(0, 3) == "MAT"@ && split_sp(input@).len() >= 3
                && usize_of_text(split_sp(input@)[1]) is Some && usize_of_text(
                split_sp(input@)[2],
            ) is Some && (usize_of_text(split_sp(input@)[1])->Some_0 == 0 || usize_of_text(
                split_sp(input@)[2],
            )->Some_0 == 0)) ==> (r matches Ok(v) && v@.len() == usize_of_text(
                split_sp(input@)[1],
            )->Some_0 && v.scols() == usize_of_text(split_sp(input@)[2])->Some_0),
            r matches Ok(v) ==> {
                &&& input@.len() >= 3
                &&& input@.subrange(0, 3) == "MAT"@
                &&& split_sp(input@).len() >= 3
                &&& usize_of_text(split_sp(input@)[1]) == Some(v@.len() as usize)
                &&& usize_of_text(split_sp(input@)[2]) == Some(v.scols() as usize)
                &&& v.wf()
            },
    {
        let ln = input.unicode_len();
        if ln < 3 {
            return Err("Input string not long enough.".to_string());
        }
        proof {
            reveal_strlit("MAT");
            assert("MAT"@ =~= seq!['M', 'A', 'T']);
        }
        if !has_tag3(input, 'M', 'A', 'T') {
            return Err("Input string not long enough.".to_string());
        }
        let splits = split_spaces(input);
        if splits.len() < 3 {
            return Err("The input string does not contain enough information.".to_string());
        }
        let m: usize = match parse_usize(splits[1]) {
            Some(x) => x,
            None => {
                return Err("The dimensions could not be resolved.".to_string());
            },
        };
        let n: usize = match parse_usize(splits[2]) {
            Some(x) => x,
            None => {
                return Err("The dimensions could not be resolved.".to_string());
            },
        };
        let mut rows_v: Vec<Vector<N>> = Vec::new();
        let mut k: usize = 0;
        let mut i: usize = 0;
        while i < m
            invariant
                0 <= i <= m,
                rows_v@.len() == i,
                forall|a: int| 0 <= a < i ==> (#[trigger] rows_v@[a]).wf(),
                forall|a: int| 0 <= a < i ==> (#[trigger] rows_v@[a])@.len() == n,
                k <= splits@.len(),
                input@.len() >= 3,
                input@.subrange(0, 3) == "MAT"@,
                splits@.len() == split_sp(input@).len(),
                splits@.len() >= 3,
                usize_of_text(split_sp(input@)[1]) == Some(m),
                usize_of_text(split_sp(input@)[2]) == Some(n),
            decreases m - i,
        {
            let mut rowv: Vec<N> = Vec::new();
            let mut j: usize = 0;
            while j < n
                invariant
                    0 < m,
                    0 <= j <= n,
                    rowv@.len() == j,
                    k <= splits@.len(),
                    input@.len() >= 3,
                    input@.subrange(0, 3) == "MAT"@,
                    splits@.len() == split_sp(input@).len(),
                    splits@.len() >= 3,
                    usize_of_text(split_sp(input@)[1]) == Some(m),
                    usize_of_text(split_sp(input@)[2]) == Some(n),
                decreases n - j,
            {
                if splits.len() - 3 <= k {
                    return Err(
                        "There are more numbers expected, but not enough were given.".to_string(),
                    );
                }
                let target = splits[k + 3];
                match N::from_text(target) {
                    Some(t) => rowv.push(t),
                    None => {
                        return Err(
                            "A value is not a proper number and could not be resolved.".to_string(),
                        );
                    },
                }
                k = k + 1;
                j = j + 1;
            }
            rows_v.push(Vector::from_list(rowv));
            i = i + 1;
        }
        Ok(Matrix { val: rows_v, m, n })
    }
}

} // verus!
