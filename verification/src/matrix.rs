use vstd::prelude::*;

verus! {

/// A fixed-size matrix of integers, generic in its row and column counts,
/// stored row-major in a single buffer.
#[derive(Debug, Clone)]
pub struct Matrix<const R: usize, const C: usize> {
    data: Vec<i64>,
}

pub type Matrix22 = Matrix<2, 2>;

pub type Matrix33 = Matrix<3, 3>;

/// A row-major position lies inside the buffer of an `R` by `C` matrix.
pub proof fn lemma_row_major_index(row: int, col: int, r: int, c: int)
    by (nonlinear_arith)
    requires
        0 <= row < r,
        0 <= col < c,
    ensures
        0 <= row * c + col < r * c,
{
}

impl<const R: usize, const C: usize> Matrix<R, C> {
    /// The buffer, row by row.
    pub closed spec fn spec_data(self) -> Seq<i64> {
        self.data@
    }

    /// The buffer holds exactly one element per matrix position.
    pub open spec fn wf(self) -> bool {
        self.spec_data().len() == R * C
    }

    /// The element at a row/column position.
    pub open spec fn spec_index(self, row: int, col: int) -> i64 {
        self.spec_data()[row * C + col]
    }

    /// Build a matrix from a row-major buffer; fails exactly when the
    /// buffer's length does not match the dimensions.
    pub fn new(data: Vec<i64>) -> (r: Option<Matrix<R, C>>)
        ensures
            r is Some <==> data@.len() == R * C,
            r is Some ==> r.unwrap().wf() && r.unwrap().spec_data() == data@,
    {
        proof {
            crate::vector2::lemma_u64_mul_fits(R as int, C as int);
        }
        if (data.len() as u128) == (R as u128) * (C as u128) {
            Some(Matrix { data })
        } else {
            None
        }
    }

    pub fn get(&self, row: usize, col: usize) -> (r: i64)
        requires
            self.wf(),
            row < R,
            col < C,
        ensures
            r == self.spec_index(row as int, col as int),
    {
        let n: usize = self.data.len();
        proof {
            lemma_row_major_index(row as int, col as int, R as int, C as int);
        }
        self.data[row * C + col]
    }

    /// Mutable access to one element; writing through the borrow updates
    /// exactly that row-major position.
    pub fn get_mut(&mut self, row: usize, col: usize) -> (r: &mut i64)
        requires
            old(self).wf(),
            row < R,
            col < C,
        ensures
            *r == old(self).spec_index(row as int, col as int),
            final(self).wf(),
            final(self).spec_data() == old(self).spec_data().update(
                row as int * C + col as int,
                *final(r),
            ),
    {
        let n: usize = self.data.len();
        proof {
            lemma_row_major_index(row as int, col as int, R as int, C as int);
        }
        &mut self.data[row * C + col]
    }

    pub fn set(&mut self, row: usize, col: usize, value: i64)
        requires
            old(self).wf(),
            row < R,
            col < C,
        ensures
            final(self).wf(),
            final(self).spec_data() == old(self).spec_data().update(
                row as int * C + col as int,
                value,
            ),
    {
        let n: usize = self.data.len();
        proof {
            lemma_row_major_index(row as int, col as int, R as int, C as int);
        }
        self.data[row * C + col] = value;
    }
}

impl<const R: usize, const C: usize> PartialEq for Matrix<R, C> {
    /// Matrices are equal when their buffers agree elementwise.
    fn eq(&self, other: &Matrix<R, C>) -> (r: bool) {
        let r = self.data == other.data;
        proof {
            if r {
                assert(self.data@ =~= other.data@);
            }
        }
        r
    }
}

impl<const R: usize, const C: usize> vstd::std_specs::cmp::PartialEqSpecImpl for Matrix<R, C> {
    open spec fn obeys_eq_spec() -> bool {
        true
    }

    open spec fn eq_spec(&self, other: &Matrix<R, C>) -> bool {
        self.spec_data() == other.spec_data()
    }
}

} // verus!
