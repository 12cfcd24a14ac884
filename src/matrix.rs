//! The two-dimensional arrays that hold an obstacle layout and its movement
//! mask, kept as `ndarray` arrays and described by the contents they hold.

use ndarray::{Array2, Axis, Slice};
use vstd::prelude::*;

verus! {

// The arrays sit in opaque structs of this crate: `ndarray::ArrayBase` cannot
// be declared to Verus, which does not know its `RawData` bound. What the
// structs hold is given by the names below, and every access goes through
// the functions of this module.

/// A matrix of signed cell codes, indexed `[[x, y]]`.
#[verifier::external_body]
#[derive(Debug, Hash)]
pub struct CodeMatrix {
    array: Array2<i8>,
}

/// A matrix of passability values, indexed `[[x, y]]`.
#[verifier::external_body]
#[derive(Debug, Hash)]
pub struct PassMatrix {
    array: Array2<u8>,
}

/// The entries of a code matrix: `code_cells(a)[i][j]` is the entry at `[[i, j]]`.
pub uninterp spec fn code_cells(a: CodeMatrix) -> Seq<Seq<i8>>;

/// The shape, as `(axis 0 length, axis 1 length)`, of a code matrix.
pub uninterp spec fn code_shape(a: CodeMatrix) -> (nat, nat);

/// The entries of a passability matrix: `pass_cells(a)[i][j]` is the entry at `[[i, j]]`.
pub uninterp spec fn pass_cells(a: PassMatrix) -> Seq<Seq<u8>>;

/// The shape, as `(axis 0 length, axis 1 length)`, of a passability matrix.
pub uninterp spec fn pass_shape(a: PassMatrix) -> (nat, nat);

/// `m` is a `rows` by `cols` matrix, given as a sequence of rows.
pub open spec fn is_shaped<T>(m: Seq<Seq<T>>, rows: nat, cols: nat) -> bool {
    &&& m.len() == rows
    &&& forall|i: int| 0 <= i < rows ==> (#[trigger] m[i]).len() == cols
}

/// A `rows` by `cols` matrix with every entry `v`.
pub open spec fn filled<T>(rows: nat, cols: nat, v: T) -> Seq<Seq<T>> {
    Seq::new(rows, |i: int| Seq::new(cols, |j: int| v))
}

/// `m` with the entry at `(i, j)` replaced by `v`.
pub open spec fn updated<T>(m: Seq<Seq<T>>, i: int, j: int, v: T) -> Seq<Seq<T>> {
    m.update(i, m[i].update(j, v))
}

/// `big` with `small` copied into the block whose corner is `(r0, c0)`; the
/// other entries are those of `big`.
pub open spec fn placed<T>(big: Seq<Seq<T>>, small: Seq<Seq<T>>, r0: int, c0: int) -> Seq<Seq<T>> {
    Seq::new(
        big.len(),
        |i: int|
            Seq::new(
                big[i].len(),
                |j: int|
                    if r0 <= i < r0 + small.len() && c0 <= j < c0 + small[i - r0].len() {
                        small[i - r0][j - c0]
                    } else {
                        big[i][j]
                    },
            ),
    )
}

/// `ndarray` accepts `(rows, cols)` as the shape of a new array: each axis
/// length, and the product of the non-zero ones, fits an `isize`.
pub open spec fn allocatable(rows: int, cols: int) -> bool {
    &&& 0 <= rows <= isize::MAX
    &&& 0 <= cols <= isize::MAX
    &&& rows * cols <= isize::MAX
}

/// Relies on `ArrayBase::dim`: the shape of the array, whose entries form a
/// matrix of that shape.
#[verifier::external_body]
pub(crate) fn code_dim(a: &CodeMatrix) -> (r: (usize, usize))
    ensures
        code_shape(*a) == (r.0 as nat, r.1 as nat),
        is_shaped(code_cells(*a), r.0 as nat, r.1 as nat),
{
    a.array.dim()
}

/// Relies on `Index<[usize; 2]>` of `ArrayBase`: the entry at `(i, j)`,
/// which must lie within the shape.
#[verifier::external_body]
pub(crate) fn code_at(a: &CodeMatrix, i: usize, j: usize) -> (r: i8)
    requires
        i < code_shape(*a).0,
        j < code_shape(*a).1,
    ensures
        r == code_cells(*a)[i as int][j as int],
{
    a.array[[i, j]]
}

/// Relies on `IndexMut<[usize; 2]>` of `ArrayBase`: writes the entry at
/// `(i, j)`, which must lie within the shape; the shape and the other entries
/// are kept.
#[verifier::external_body]
pub(crate) fn set_code(a: &mut CodeMatrix, i: usize, j: usize, v: i8)
    requires
        i < code_shape(*old(a)).0,
        j < code_shape(*old(a)).1,
    ensures
        code_shape(*final(a)) == code_shape(*old(a)),
        code_cells(*final(a)) == updated(code_cells(*old(a)), i as int, j as int, v),
{
    a.array[[i, j]] = v;
}

/// Relies on `Array2::ones` for `i8`: a `rows` by `cols` array of ones.
#[verifier::external_body]
pub(crate) fn code_ones(rows: usize, cols: usize) -> (r: CodeMatrix)
    requires
        allocatable(rows as int, cols as int),
    ensures
        code_shape(r) == (rows as nat, cols as nat),
        code_cells(r) == filled(rows as nat, cols as nat, 1i8),
{
    CodeMatrix { array: Array2::<i8>::ones((rows, cols)) }
}

/// Relies on `Array2::zeros` for `u8`: a `rows` by `cols` array of zeros.
#[verifier::external_body]
pub(crate) fn pass_zeros(rows: usize, cols: usize) -> (r: PassMatrix)
    requires
        allocatable(rows as int, cols as int),
    ensures
        pass_shape(r) == (rows as nat, cols as nat),
        pass_cells(r) == filled(rows as nat, cols as nat, 0u8),
{
    PassMatrix { array: Array2::<u8>::zeros((rows, cols)) }
}

/// Relies on `Array2::ones` for `u8`: a `rows` by `cols` array of ones.
#[verifier::external_body]
pub(crate) fn pass_ones(rows: usize, cols: usize) -> (r: PassMatrix)
    requires
        allocatable(rows as int, cols as int),
    ensures
        pass_shape(r) == (rows as nat, cols as nat),
        pass_cells(r) == filled(rows as nat, cols as nat, 1u8),
{
    PassMatrix { array: Array2::<u8>::ones((rows, cols)) }
}

/// Relies on `Index<[usize; 2]>` of `ArrayBase`: the entry at `(i, j)`,
/// which must lie within the shape.
#[verifier::external_body]
pub(crate) fn pass_at(a: &PassMatrix, i: usize, j: usize) -> (r: u8)
    requires
        i < pass_shape(*a).0,
        j < pass_shape(*a).1,
    ensures
        r == pass_cells(*a)[i as int][j as int],
{
    a.array[[i, j]]
}

/// Relies on `IndexMut<[usize; 2]>` of `ArrayBase`: writes the entry at
/// `(i, j)`, which must lie within the shape; the shape and the other entries
/// are kept.
#[verifier::external_body]
pub(crate) fn set_pass(a: &mut PassMatrix, i: usize, j: usize, v: u8)
    requires
        i < pass_shape(*old(a)).0,
        j < pass_shape(*old(a)).1,
    ensures
        pass_shape(*final(a)) == pass_shape(*old(a)),
        pass_cells(*final(a)) == updated(pass_cells(*old(a)), i as int, j as int, v),
{
    a.array[[i, j]] = v;
}

/// Relies on `ArrayBase::view_mut`, `ArrayBase::slice_axis_inplace` and
/// `ArrayBase::assign`: narrows a mutable view of `big` to the rows
/// `row_start..row_end` and the columns `col_start..col_end`, which must lie
/// within `big` and have the shape of `small`, and copies `small` into it.
#[verifier::external_body]
pub(crate) fn assign_block(
    big: &mut PassMatrix,
    row_start: usize,
    row_end: usize,
    col_start: usize,
    col_end: usize,
    small: &PassMatrix,
)
    requires
        row_start <= row_end <= pass_shape(*old(big)).0,
        col_start <= col_end <= pass_shape(*old(big)).1,
        row_end - row_start == pass_shape(*small).0,
        col_end - col_start == pass_shape(*small).1,
    ensures
        pass_shape(*final(big)) == pass_shape(*old(big)),
        pass_cells(*final(big)) == placed(
            pass_cells(*old(big)),
            pass_cells(*small),
            row_start as int,
            col_start as int,
        ),
{
    let mut block = big.array.view_mut();
    block.slice_axis_inplace(Axis(0), Slice::from(row_start..row_end));
    block.slice_axis_inplace(Axis(1), Slice::from(col_start..col_end));
    block.assign(&small.array);
}

/// The rows of `rows`, as sequences.
pub open spec fn rows_view(rows: Seq<Vec<i8>>) -> Seq<Seq<i8>> {
    rows.map_values(|r: Vec<i8>| r@)
}

/// Length shared by all rows, read from the first one (0 when there are
/// none).
pub open spec fn row_length(rows: Seq<Vec<i8>>) -> nat {
    if rows.len() > 0 {
        rows[0]@.len()
    } else {
        0
    }
}

/// Every row has the length of the first.
pub open spec fn is_rectangular(rows: Seq<Vec<i8>>) -> bool {
    forall|i: int| 0 <= i < rows.len() ==> (#[trigger] rows[i])@.len() == row_length(rows)
}

/// A `rows` by `cols` matrix that holds the entries of `m` at the cells
/// before `(i, j)` in scan order (by row, then by column) and 1 elsewhere.
pub open spec fn copied_before(m: Seq<Seq<i8>>, rows: nat, cols: nat, i: int, j: int) -> Seq<Seq<i8>> {
    Seq::new(
        rows,
        |a: int| Seq::new(cols, |b: int| if a < i || (a == i && b < j) { m[a][b] } else { 1i8 }),
    )
}

impl CodeMatrix {
    /// A code matrix whose entry `[[i, j]]` is `rows[i][j]`. Gives `None`
    /// when the rows differ in length, or when there are more entries than
    /// an array can hold.
    pub fn from_rows(rows: &Vec<Vec<i8>>) -> (r: Option<CodeMatrix>)
        ensures
            r.is_some() <==> is_rectangular(rows@) && allocatable(rows@.len() as int, row_length(rows@) as int),
            r matches Some(m) ==> code_shape(m) == (rows@.len(), row_length(rows@)) && code_cells(m)
                == rows_view(rows@),
    {
        let n = rows.len();
        let cols: usize = if n > 0 {
            rows[0].len()
        } else {
            0
        };
        let mut k: usize = 0;
        while k < n
            invariant
                k <= n,
                n == rows@.len(),
                cols == row_length(rows@),
                forall|i: int| 0 <= i < k ==> (#[trigger] rows@[i])@.len() == cols,
            decreases n - k,
        {
            if rows[k].len() != cols {
                return None;
            }
            k = k + 1;
        }
        if n > isize::MAX as usize || cols > isize::MAX as usize {
            return None;
        }
        match n.checked_mul(cols) {
            None => {
                return None;
            },
            Some(total) => {
                if total > isize::MAX as usize {
                    return None;
                }
            },
        }
        let mut m = code_ones(n, cols);
        let ghost view = rows_view(rows@);
        let mut i: usize = 0;
        assert(code_cells(m) =~~= copied_before(view, n as nat, cols as nat, 0, 0));
        while i < n
            invariant
                i <= n,
                n == rows@.len(),
                cols == row_length(rows@),
                is_rectangular(rows@),
                view == rows_view(rows@),
                code_shape(m) == (n as nat, cols as nat),
                code_cells(m) == copied_before(view, n as nat, cols as nat, i as int, 0),
            decreases n - i,
        {
            let row = &rows[i];
            let mut j: usize = 0;
            while j < cols
                invariant
                    i < n,
                    j <= cols,
                    n == rows@.len(),
                    cols == row_length(rows@),
                    is_rectangular(rows@),
                    view == rows_view(rows@),
                    row@ == view[i as int],
                    code_shape(m) == (n as nat, cols as nat),
                    code_cells(m) == copied_before(view, n as nat, cols as nat, i as int, j as int),
                decreases cols - j,
            {
                set_code(&mut m, i, j, row[j]);
                assert(code_cells(m) =~~= copied_before(view, n as nat, cols as nat, i as int, j + 1));
                j = j + 1;
            }
            assert(code_cells(m) =~~= copied_before(view, n as nat, cols as nat, i + 1, 0));
            i = i + 1;
        }
        assert(code_cells(m) =~~= view);
        Some(m)
    }
}

} // verus!
