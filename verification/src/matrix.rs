use vstd::prelude::*;

verus! {

use crate::rational::Rat;
use crate::rational::Ratio;
use crate::rational::rwf;
use crate::rational::req;
use crate::rational::rzero;
use crate::rational::rone;
use crate::rational::radd;
use crate::rational::rmul;
use crate::rational::rneg;
use crate::rational::rsub;
use crate::rational::rdiv;
use crate::rational::rinv;
use crate::rational::rabs;
use crate::rational::rlt;
use crate::rational::reps;
use crate::rational::rapprox;
use crate::rational::rcanon;
use crate::rational::rtrunc;
use crate::rational::lemma_rcanon;
use crate::rational::lemma_pos_mul;
use crate::rational::lemma_radd_cong;
use crate::rational::lemma_rmul_cong;
use crate::rational::lemma_rneg_cong;
use crate::rational::lemma_req_sym;
use crate::rational::lemma_req_trans;
use crate::rational::lemma_rle_cong;
use crate::rational::in_caps;
use crate::rational::gcd_spec;
use crate::rational::NUM_CAP;
use crate::rational::DEN_CAP;
use crate::rational::iabs;
use crate::tuple::Tuple;
use crate::tuple::TupleV;
use crate::tuple::lemma_rdiv_wf;
use crate::rational::lemma_rdiv_cong;
use crate::TraceError;
use vstd::arithmetic::div_mod::lemma_fundamental_div_mod_converse_div;
use vstd::arithmetic::div_mod::lemma_fundamental_div_mod_converse_mod;

/// The matrix has `rows` rows of `cols` entries each.
pub open spec fn mdims(m: Seq<Seq<Ratio>>, rows: int, cols: int) -> bool {
    &&& m.len() == rows
    &&& forall|i: int| 0 <= i < rows ==> (#[trigger] m[i]).len() == cols
}

/// Every entry is a well-formed ratio.
pub open spec fn mwf(m: Seq<Seq<Ratio>>) -> bool {
    forall|i: int, j: int|
        0 <= i < m.len() && 0 <= j < m[i].len() ==> rwf(#[trigger] m[i][j])
}

/// A square matrix with at least one row.
pub open spec fn msquare(m: Seq<Seq<Ratio>>) -> bool {
    m.len() >= 1 && mdims(m, m.len() as int, m.len() as int)
}

/// The submatrix with row `i` and column `j` removed.
pub open spec fn msub(m: Seq<Seq<Ratio>>, i: int, j: int) -> Seq<Seq<Ratio>> {
    m.remove(i).map_values(|row: Seq<Ratio>| row.remove(j))
}

/// Laplace expansion of the determinant along row zero.
pub open spec fn det_s(m: Seq<Seq<Ratio>>) -> Ratio
    decreases m.len(), m.len() + 3,
{
    if m.len() == 0 {
        rone()
    } else if m.len() == 1 {
        m[0][0]
    } else {
        det_row_sum(m, m.len() as int)
    }
}

/// The first `j` terms of the Laplace expansion along row zero.
pub open spec fn det_row_sum(m: Seq<Seq<Ratio>>, j: int) -> Ratio
    decreases m.len(), (if j >= 0 { j + 2 } else { 0 }),
    when m.len() >= 1
{
    if j <= 0 {
        rzero()
    } else {
        radd(det_row_sum(m, j - 1), rmul(m[0][j - 1], cof_s(m, 0, j - 1)))
    }
}

/// The minor: the determinant of the submatrix.
pub open spec fn minor_s(m: Seq<Seq<Ratio>>, i: int, j: int) -> Ratio
    decreases m.len(), 0int,
    when 0 <= i < m.len()
{
    det_s(msub(m, i, j))
}

/// The cofactor: the minor with the checkerboard sign applied.
pub open spec fn cof_s(m: Seq<Seq<Ratio>>, i: int, j: int) -> Ratio
    decreases m.len(), 1int,
    when 0 <= i < m.len()
{
    if (i + j) % 2 == 0 {
        minor_s(m, i, j)
    } else {
        rneg(minor_s(m, i, j))
    }
}

/// The inverse: the transposed cofactors, each divided by the determinant.
pub open spec fn inv_entry_s(m: Seq<Seq<Ratio>>, i: int, j: int) -> Ratio {
    rdiv(cof_s(m, j, i), det_s(m))
}

/// The first `k` terms of a row-times-column product.
pub open spec fn dot_k(a: Seq<Seq<Ratio>>, b: Seq<Seq<Ratio>>, i: int, j: int, k: int) -> Ratio
    decreases (if k >= 0 { k } else { 0 }),
{
    if k <= 0 {
        rzero()
    } else {
        radd(dot_k(a, b, i, j, k - 1), rmul(a[i][k - 1], b[k - 1][j]))
    }
}

/// Entry `(i, j)` of the matrix product.
pub open spec fn mul_entry(a: Seq<Seq<Ratio>>, b: Seq<Seq<Ratio>>, i: int, j: int) -> Ratio {
    dot_k(a, b, i, j, a[i].len() as int)
}

/// The representative the executable product accumulates for the first
/// `k` terms of a row-column inner product.
pub open spec fn dot_c(a: Seq<Seq<Ratio>>, b: Seq<Seq<Ratio>>, i: int, j: int, k: int) -> Ratio
    decreases (if k >= 0 { k } else { 0 }),
{
    if k <= 0 {
        rzero()
    } else {
        rcanon(radd(dot_c(a, b, i, j, k - 1), rcanon(rmul(a[i][k - 1], b[k - 1][j]))))
    }
}

/// Every step of the executable matrix product stays representable.
pub open spec fn mul_defined(
    a: Seq<Seq<Ratio>>,
    b: Seq<Seq<Ratio>>,
    rows: int,
    cols: int,
    inner: int,
) -> bool {
    forall|i: int, j: int, k: int|
        0 <= i < rows && 0 <= j < cols && 0 <= k < inner ==> in_caps(
            #[trigger] rcanon(rmul(a[i][k], b[k][j])),
        ) && in_caps(rcanon(radd(dot_c(a, b, i, j, k), rcanon(rmul(a[i][k], b[k][j])))))
}

/// Equal shape, and entries equal within the shared tolerance.
pub open spec fn mapprox(a: Seq<Seq<Ratio>>, b: Seq<Seq<Ratio>>) -> bool {
    &&& a.len() == b.len()
    &&& forall|i: int| 0 <= i < a.len() ==> (#[trigger] a[i]).len() == b[i].len()
    &&& forall|i: int, j: int|
        0 <= i < a.len() && 0 <= j < a[i].len() ==> rapprox(#[trigger] a[i][j], b[i][j])
}

/// Entries that are small integers: denominator one and numerator within
/// the builder bound.  Determinants, cofactors and inverses of such
/// matrices (up to the sizes this domain uses) never leave the
/// representable range.
pub open spec fn int_entries(m: Seq<Seq<Ratio>>) -> bool {
    forall|i: int, j: int|
        0 <= i < m.len() && 0 <= j < m[i].len() ==> (#[trigger] m[i][j]).d == 1 && iabs(
            m[i][j].n,
        ) <= 4000
}

/// The largest determinant magnitude an integer matrix of the given side
/// can reach under the entry bound.
pub open spec fn det_cap(n: int) -> int
    decreases (if n >= 1 { n } else { 0 }),
{
    if n <= 1 {
        4000
    } else {
        n * 4000 * det_cap(n - 1)
    }
}

proof fn lemma_det_cap_values()
    ensures
        det_cap(0) == 4000,
        det_cap(1) == 4000,
        det_cap(2) == 32_000_000,
        det_cap(3) == 384_000_000_000,
        det_cap(4) == 6_144_000_000_000_000,
{
    assert(det_cap(2) == 2 * 4000 * det_cap(1));
    assert(det_cap(3) == 3 * 4000 * det_cap(2));
    assert(det_cap(4) == 4 * 4000 * det_cap(3));
}

/// An integer value is its own canonical representative.
pub proof fn lemma_canon_int(x: Ratio)
    requires
        x.d == 1,
    ensures
        rcanon(x) == x,
{
    let a = iabs(x.n);
    vstd::arithmetic::div_mod::lemma_mod_division_less_than_divisor(a, 1);
    assert(a % 1 == 0);
    assert(gcd_spec(a, 1) == gcd_spec(1, 0));
    assert(gcd_spec(iabs(x.n), x.d) == 1);
    vstd::arithmetic::div_mod::lemma_div_multiples_vanish(x.n, 1);
    assert(1 * x.n == x.n);
    assert(x.n / 1 == x.n);
    assert(x.d / 1 == 1) by {
        vstd::arithmetic::div_mod::lemma_div_multiples_vanish(1, 1);
    }
}

/// The submatrix of a small-integer matrix is a small-integer matrix.
proof fn lemma_msub_int(m: Seq<Seq<Ratio>>, n: int, c: int, i: int, j: int)
    requires
        mdims(m, n, c),
        mwf(m),
        int_entries(m),
        0 <= i < n,
        0 <= j < c,
    ensures
        int_entries(msub(m, i, j)),
{
    lemma_msub_props(m, n, c, i, j);
    let s = msub(m, i, j);
    assert forall|i2: int, j2: int|
        0 <= i2 < s.len() && 0 <= j2 < s[i2].len() implies (#[trigger] s[i2][j2]).d == 1 && iabs(
        s[i2][j2].n,
    ) <= 4000 by {
        assert(s[i2][j2] == m[if i2 < i {
            i2
        } else {
            i2 + 1
        }][
            if j2 < j {
                j2
            } else {
                j2 + 1
            }
        ]);
    }
}

/// The product of two bounded integer values is a bounded integer value
/// that the scalars can represent.
proof fn lemma_int_mul_fits(a: Ratio, b: Ratio, ba: int, bb: int)
    requires
        a.d == 1,
        b.d == 1,
        iabs(a.n) <= ba,
        iabs(b.n) <= bb,
        0 <= ba,
        0 <= bb,
        ba * bb <= NUM_CAP as int,
    ensures
        rmul(a, b).d == 1,
        iabs(rmul(a, b).n) <= ba * bb,
        rcanon(rmul(a, b)) == rmul(a, b),
        in_caps(rcanon(rmul(a, b))),
{
    crate::rational::lemma_mul_abs_bound(a.n, b.n, ba, bb);
    lemma_canon_int(rmul(a, b));
}

/// The sum of two bounded integer values is a bounded integer value that
/// the scalars can represent.
proof fn lemma_int_add_fits(a: Ratio, b: Ratio, ba: int, bb: int)
    requires
        a.d == 1,
        b.d == 1,
        iabs(a.n) <= ba,
        iabs(b.n) <= bb,
        0 <= ba,
        0 <= bb,
        ba + bb <= NUM_CAP as int,
    ensures
        radd(a, b).d == 1,
        iabs(radd(a, b).n) <= ba + bb,
        rcanon(radd(a, b)) == radd(a, b),
        in_caps(rcanon(radd(a, b))),
{
    assert(radd(a, b).n == a.n + b.n);
    lemma_canon_int(radd(a, b));
}

/// The difference of two bounded integer values is a bounded integer value
/// that the scalars can represent.
proof fn lemma_int_sub_fits(a: Ratio, b: Ratio, ba: int, bb: int)
    requires
        a.d == 1,
        b.d == 1,
        iabs(a.n) <= ba,
        iabs(b.n) <= bb,
        0 <= ba,
        0 <= bb,
        ba + bb <= NUM_CAP as int,
    ensures
        rsub(a, b).d == 1,
        iabs(rsub(a, b).n) <= ba + bb,
        rcanon(rsub(a, b)) == rsub(a, b),
        in_caps(rcanon(rsub(a, b))),
{
    assert(rsub(a, b).n == a.n + (-b.n));
    lemma_canon_int(rsub(a, b));
}

/// The quotient of two bounded integer values is representable.
proof fn lemma_int_div_fits(a: Ratio, b: Ratio, ba: int)
    requires
        a.d == 1,
        b.d == 1,
        iabs(a.n) <= ba,
        0 <= ba <= NUM_CAP as int,
        b.n != 0,
        iabs(b.n) <= DEN_CAP as int,
    ensures
        rwf(rdiv(a, b)),
        in_caps(rcanon(rdiv(a, b))),
{
    assert(rdiv(a, b).d == iabs(b.n) && iabs(rdiv(a, b).n) == iabs(a.n) && rwf(rdiv(a, b))) by (
    nonlinear_arith)
        requires
            a.d == 1,
            b.d == 1,
            b.n != 0,
    ;
    crate::rational::lemma_canon_in_caps(rdiv(a, b));
}

/// Quotient and remainder of a flat index by the column count.
pub proof fn lemma_flat_divmod(i: int, j: int, c: int)
    requires
        0 <= i,
        0 <= j < c,
    ensures
        (i * c + j) / c == i,
        (i * c + j) % c == j,
{
    lemma_fundamental_div_mod_converse_div(i * c + j, c, i, j);
    lemma_fundamental_div_mod_converse_mod(i * c + j, c, i, j);
}

/// A flat index stays below the matrix size.
pub proof fn lemma_flat_bound(i: int, j: int, r: int, c: int)
    by (nonlinear_arith)
    requires
        0 <= i < r,
        0 <= j < c,
    ensures
        0 <= i * c + j < r * c,
{
}

/// A dense row-major matrix of exact scalars.
#[derive(Debug)]
pub struct Matrix {
    values: Vec<Rat>,
    rows: usize,
    columns: usize,
}

impl View for Matrix {
    type V = Seq<Seq<Ratio>>;

    closed spec fn view(&self) -> Seq<Seq<Ratio>> {
        Seq::new(
            self.rows as nat,
            |i: int| Seq::new(self.columns as nat, |j: int| self.values@[i * self.columns + j]@),
        )
    }
}

impl Matrix {
    /// The flat value buffer covers exactly `rows` by `columns` entries of
    /// representable scalars.
    #[verifier::type_invariant]
    closed spec fn shape_inv(self) -> bool {
        &&& self.values@.len() == self.rows * self.columns
        &&& self.rows * self.columns <= usize::MAX
        &&& forall|k: int| 0 <= k < self.values@.len() ==> in_caps((#[trigger] self.values@[k])@)
    }

    /// Builds a matrix from its values in row-major order.
    pub fn new(values: Vec<Rat>, rows: usize, columns: usize) -> (r: Matrix)
        requires
            values@.len() == rows * columns,
            forall|k: int| 0 <= k < values@.len() ==> in_caps((#[trigger] values@[k])@),
        ensures
            mdims(r@, rows as int, columns as int),
            r.cols_spec() == columns,
            forall|i: int, j: int|
                0 <= i < rows && 0 <= j < columns ==> #[trigger] r@[i][j] == values@[i * columns
                    + j]@,
            mwf(r@),
    {
        let n = values.len();
        let r = Matrix { values, rows, columns };
        proof {
            assert forall|i: int, j: int|
                0 <= i < rows && 0 <= j < columns implies rwf(#[trigger] r@[i][j]) by {
                lemma_flat_bound(i, j, rows as int, columns as int);
            }
        }
        r
    }

    /// Every entry of a matrix is a representable, well-formed ratio.
    pub fn entries_wf(&self) -> (r: bool)
        ensures
            r,
            mwf(self@),
            mdims(self@, self@.len() as int, self.cols_spec()),
            forall|i: int, j: int|
                0 <= i < self@.len() && 0 <= j < self@[i].len() ==> in_caps(
                    #[trigger] self@[i][j],
                ),
    {
        proof {
            use_type_invariant(self);
            assert forall|i: int, j: int|
                0 <= i < self@.len() && 0 <= j < self@[i].len() implies rwf(#[trigger] self@[i][j])
                && in_caps(self@[i][j]) by {
                lemma_flat_bound(i, j, self.rows as int, self.columns as int);
            }
        }
        true
    }

    /// The column count, visible to specifications.
    pub closed spec fn cols_spec(&self) -> int {
        self.columns as int
    }

    /// The number of rows.
    pub fn nrows(&self) -> (r: usize)
        ensures
            r == self@.len(),
    {
        self.rows
    }

    /// The number of columns.
    pub fn ncols(&self) -> (r: usize)
        ensures
            self@.len() > 0 ==> r == self@[0].len(),
            mdims(self@, self@.len() as int, r as int),
    {
        proof {
            use_type_invariant(self);
        }
        self.columns
    }

    /// The entry at row `i`, column `j`.
    pub fn get(&self, i: usize, j: usize) -> (r: Rat)
        requires
            i < self@.len(),
            j < self@[i as int].len(),
        ensures
            r@ == self@[i as int][j as int],
    {
        proof {
            use_type_invariant(self);
            lemma_flat_bound(i as int, j as int, self.rows as int, self.columns as int);
        }
        self.values[i * self.columns + j]
    }

    /// Replaces the entry at row `i`, column `j`.
    pub fn set(&mut self, i: usize, j: usize, value: Rat)
        requires
            i < old(self)@.len(),
            j < old(self)@[i as int].len(),
        ensures
            final(self)@.len() == old(self)@.len(),
            forall|i2: int| 0 <= i2 < final(self)@.len() ==> (#[trigger] final(self)@[i2]).len()
                == old(self)@[i2].len(),
            forall|i2: int, j2: int|
                0 <= i2 < old(self)@.len() && 0 <= j2 < old(self)@[i2].len() && !(i2 == i && j2
                    == j) ==> #[trigger] final(self)@[i2][j2] == old(self)@[i2][j2],
            final(self)@[i as int][j as int] == value@,
    {
        proof {
            use_type_invariant(&*self);
            lemma_flat_bound(i as int, j as int, self.rows as int, self.columns as int);
        }
        let idx = i * self.columns + j;
        proof {
            use_type_invariant(value);
        }
        let mut vals = self.values.clone();
        proof {
            assert(vals@ =~= self.values@);
        }
        vals[idx] = value;
        *self = Matrix { values: vals, rows: self.rows, columns: self.columns };
        proof {
            let c = self.columns as int;
            assert forall|i2: int, j2: int|
                0 <= i2 < old(self)@.len() && 0 <= j2 < old(self)@[i2].len() && !(i2 == i as int
                    && j2 == j as int) implies #[trigger] final(self)@[i2][j2] == old(
                self,
            )@[i2][j2] by {
                lemma_flat_bound(i2, j2, self.rows as int, c);
                if i2 * c + j2 == i as int * c + j as int {
                    lemma_flat_divmod(i2, j2, c);
                    lemma_flat_divmod(i as int, j as int, c);
                }
            }
        }
    }

    /// The identity matrix of the given dimension.
    pub fn identity(dim: usize) -> (r: Matrix)
        requires
            dim * dim <= usize::MAX,
        ensures
            mdims(r@, dim as int, dim as int),
            r.cols_spec() == dim,
            mwf(r@),
            forall|i: int, j: int|
                0 <= i < dim && 0 <= j < dim ==> #[trigger] r@[i][j] == (if i == j {
                    rone()
                } else {
                    rzero()
                }),
            dim >= 1 ==> msquare(r@),
    {
        let n: usize = dim * dim;
        proof {
            assert(dim >= 1 ==> n >= 1) by (nonlinear_arith)
                requires
                    n == dim * dim,
            ;
        }
        let mut values: Vec<Rat> = Vec::new();
        let mut k: usize = 0;
        while k < n
            invariant
                0 <= k <= n,
                n == dim * dim,
                values@.len() == k,
                forall|k2: int| 0 <= k2 < k ==> in_caps((#[trigger] values@[k2])@),
                forall|k2: int|
                    0 <= k2 < k ==> (#[trigger] values@[k2])@ == (if k2 / (dim as int) == k2 % (
                    dim as int) {
                        rone()
                    } else {
                        rzero()
                    }),
            decreases n - k,
        {
            proof {
                assert(dim >= 1) by (nonlinear_arith)
                    requires
                        k < n,
                        n == dim * dim,
                ;
            }
            let i = k / dim;
            let j = k % dim;
            let v = if i == j {
                Rat::one()
            } else {
                Rat::zero()
            };
            proof {
                use_type_invariant(v);
            }
            values.push(v);
            k = k + 1;
        }
        let r = Matrix { values, rows: dim, columns: dim };
        proof {
            assert forall|i: int, j: int|
                0 <= i < dim && 0 <= j < dim implies #[trigger] r@[i][j] == (if i == j {
                rone()
            } else {
                rzero()
            }) by {
                lemma_flat_bound(i, j, dim as int, dim as int);
                lemma_flat_divmod(i, j, dim as int);
            }
        }
        r
    }

    /// The transpose: entry `(i, j)` of the result is entry `(j, i)` of this
    /// matrix.
    pub fn transpose(&self) -> (r: Matrix)
        ensures
            r@.len() == self.cols_spec(),
            r.cols_spec() == self@.len(),
            mdims(self@, self@.len() as int, self.cols_spec()),
            forall|i2: int| 0 <= i2 < r@.len() ==> (#[trigger] r@[i2]).len() == self@.len(),
            forall|i2: int, j2: int|
                0 <= i2 < r@.len() && 0 <= j2 < self@.len() ==> #[trigger] r@[i2][j2]
                    == self@[j2][i2],
            mwf(r@),
    {
        proof {
            use_type_invariant(self);
            assert((self.columns as int) * (self.rows as int) == (self.rows as int) * (
            self.columns as int)) by (nonlinear_arith);
        }
        let rows2: usize = self.columns;
        let cols2: usize = self.rows;
        let n: usize = rows2 * cols2;
        let mut values: Vec<Rat> = Vec::new();
        let mut k: usize = 0;
        while k < n
            invariant
                0 <= k <= n,
                n == rows2 * cols2,
                rows2 == self.columns && cols2 == self.rows,
                self.shape_inv(),
                values@.len() == k,
                forall|k2: int| 0 <= k2 < k ==> in_caps((#[trigger] values@[k2])@),
                forall|k2: int|
                    0 <= k2 < k ==> (#[trigger] values@[k2])@ == self@[k2 % (cols2 as int)][k2 / (
                    cols2 as int)],
            decreases n - k,
        {
            proof {
                assert(cols2 >= 1 && rows2 >= 1) by (nonlinear_arith)
                    requires
                        k < n,
                        n == rows2 * cols2,
                ;
            }
            let i = k / cols2;
            let j = k % cols2;
            proof {
                assert(i < rows2) by {
                    assert((k as int) < (cols2 as int) * (rows2 as int)) by (nonlinear_arith)
                        requires
                            k < n,
                            n == rows2 * cols2,
                    ;
                    vstd::arithmetic::div_mod::lemma_multiply_divide_lt(
                        k as int,
                        cols2 as int,
                        rows2 as int,
                    );
                }
                lemma_flat_bound(j as int, i as int, self.rows as int, self.columns as int);
            }
            let v = self.values[j * self.columns + i];
            proof {
                use_type_invariant(v);
            }
            values.push(v);
            k = k + 1;
        }
        let r = Matrix { values, rows: rows2, columns: cols2 };
        proof {
            assert forall|i2: int, j2: int|
                0 <= i2 < r@.len() && 0 <= j2 < self@.len() implies #[trigger] r@[i2][j2]
                == self@[j2][i2] by {
                lemma_flat_bound(i2, j2, rows2 as int, cols2 as int);
                lemma_flat_divmod(i2, j2, cols2 as int);
            }
            assert forall|i2: int, j2: int|
                0 <= i2 < r@.len() && 0 <= j2 < r@[i2].len() implies rwf(#[trigger] r@[i2][j2]) by {
                lemma_flat_bound(i2, j2, rows2 as int, cols2 as int);
            }
        }
        r
    }
}

/// Shape, well-formedness and entries of a submatrix.
pub proof fn lemma_msub_props(m: Seq<Seq<Ratio>>, n: int, c: int, i: int, j: int)
    requires
        mdims(m, n, c),
        mwf(m),
        0 <= i < n,
        0 <= j < c,
    ensures
        mdims(msub(m, i, j), n - 1, c - 1),
        mwf(msub(m, i, j)),
        forall|i2: int, j2: int|
            0 <= i2 < n - 1 && 0 <= j2 < c - 1 ==> #[trigger] msub(m, i, j)[i2][j2] == m[if i2 < i {
                i2
            } else {
                i2 + 1
            }][
                if j2 < j {
                    j2
                } else {
                    j2 + 1
                }
            ],
{
    let s = msub(m, i, j);
    assert(m.remove(i).len() == n - 1);
    assert forall|i2: int| 0 <= i2 < n - 1 implies (#[trigger] s[i2]).len() == c - 1
        && s[i2] == m[if i2 < i { i2 } else { i2 + 1 }].remove(j) by {
        assert(m.remove(i)[i2] == m[if i2 < i {
            i2
        } else {
            i2 + 1
        }]);
    }
    assert forall|i2: int, j2: int|
        0 <= i2 < n - 1 && 0 <= j2 < c - 1 implies #[trigger] s[i2][j2] == m[if i2 < i {
        i2
    } else {
        i2 + 1
    }][
        if j2 < j {
            j2
        } else {
            j2 + 1
        }
    ] by {
        let row = m[if i2 < i {
            i2
        } else {
            i2 + 1
        }];
        assert(row.remove(j)[j2] == row[if j2 < j {
            j2
        } else {
            j2 + 1
        }]);
    }
}

/// The determinant and every partial expansion of a well-formed square
/// matrix are well formed.
pub proof fn lemma_det_wf(m: Seq<Seq<Ratio>>)
    requires
        mdims(m, m.len() as int, m.len() as int),
        mwf(m),
    ensures
        rwf(det_s(m)),
        m.len() >= 2 ==> forall|j: int| 0 <= j <= m.len() ==> rwf(#[trigger] det_row_sum(m, j)),
        forall|i: int, j: int|
            0 <= i < m.len() && 0 <= j < m.len() && m.len() >= 2 ==> rwf(#[trigger] cof_s(m, i, j))
                && rwf(minor_s(m, i, j)),
    decreases m.len(),
{
    let n = m.len() as int;
    if n == 1 {
        assert(rwf(m[0][0]));
    }
    if n >= 2 {
        assert forall|i: int, j: int| 0 <= i < n && 0 <= j < n implies rwf(
            #[trigger] cof_s(m, i, j),
        ) && rwf(minor_s(m, i, j)) by {
            lemma_msub_props(m, n, n, i, j);
            lemma_det_wf(msub(m, i, j));
        }
        assert forall|j: int| 0 <= j <= n implies rwf(#[trigger] det_row_sum(m, j)) by {
            lemma_det_row_sum_wf(m, j);
        }
        assert(det_s(m) == det_row_sum(m, n));
        assert(rwf(det_row_sum(m, n)));
    }
}

proof fn lemma_det_row_sum_wf(m: Seq<Seq<Ratio>>, j: int)
    requires
        mdims(m, m.len() as int, m.len() as int),
        mwf(m),
        m.len() >= 2,
        0 <= j <= m.len(),
        forall|j2: int| 0 <= j2 < m.len() ==> rwf(#[trigger] cof_s(m, 0, j2)),
    ensures
        rwf(det_row_sum(m, j)),
    decreases j,
{
    if j > 0 {
        lemma_det_row_sum_wf(m, j - 1);
        lemma_pos_mul(m[0][j - 1].d, cof_s(m, 0, j - 1).d);
        lemma_pos_mul(det_row_sum(m, j - 1).d, rmul(m[0][j - 1], cof_s(m, 0, j - 1)).d);
    }
}

/// Adding the zero ratio changes nothing.
pub proof fn lemma_radd_zero(x: Ratio)
    by (nonlinear_arith)
    requires
        rwf(x),
    ensures
        req(radd(rzero(), x), x),
        rwf(radd(rzero(), x)),
{
}

/// Negation moves through a product.
pub proof fn lemma_rmul_neg(a: Ratio, b: Ratio)
    by (nonlinear_arith)
    ensures
        rmul(a, rneg(b)) == rneg(rmul(a, b)),
{
}

impl Matrix {
    /// The matrix with the given row removed.
    pub fn remove_row(&self, row: usize) -> (r: Matrix)
        requires
            row < self@.len(),
        ensures
            r@.len() == self@.len() - 1,
            r.cols_spec() == self.cols_spec(),
            mdims(r@, self@.len() - 1, self.cols_spec()),
            mdims(self@, self@.len() as int, self.cols_spec()),
            mwf(r@),
            forall|i2: int, j2: int|
                0 <= i2 < r@.len() && 0 <= j2 < self.cols_spec() ==> #[trigger] r@[i2][j2]
                    == self@[if i2 < row { i2 } else { i2 + 1 }][j2],
    {
        proof {
            use_type_invariant(self);
            assert((self.rows - 1) * self.columns <= self.rows * self.columns) by (
            nonlinear_arith)
                requires
                    self.rows >= 1,
            ;
        }
        let rows2: usize = self.rows - 1;
        let c: usize = self.columns;
        let n: usize = rows2 * c;
        let mut values: Vec<Rat> = Vec::new();
        let mut k: usize = 0;
        while k < n
            invariant
                0 <= k <= n,
                n == rows2 * c,
                rows2 == self.rows - 1,
                c == self.columns,
                row < self.rows,
                self.shape_inv(),
                values@.len() == k,
                forall|k2: int| 0 <= k2 < k ==> in_caps((#[trigger] values@[k2])@),
                forall|k2: int|
                    0 <= k2 < k ==> (#[trigger] values@[k2])@ == self@[if k2 / (c as int) < row {
                        k2 / (c as int)
                    } else {
                        k2 / (c as int) + 1
                    }][k2 % (c as int)],
            decreases n - k,
        {
            proof {
                assert(c >= 1 && rows2 >= 1) by (nonlinear_arith)
                    requires
                        k < n,
                        n == rows2 * c,
                ;
                assert((k as int) < (c as int) * (rows2 as int)) by (nonlinear_arith)
                    requires
                        k < n,
                        n == rows2 * c,
                ;
                vstd::arithmetic::div_mod::lemma_multiply_divide_lt(
                    k as int,
                    c as int,
                    rows2 as int,
                );
            }
            let i = k / c;
            let j = k % c;
            let src = if i < row {
                i
            } else {
                i + 1
            };
            proof {
                lemma_flat_bound(src as int, j as int, self.rows as int, c as int);
            }
            let v = self.values[src * c + j];
            proof {
                use_type_invariant(v);
            }
            values.push(v);
            k = k + 1;
        }
        let r = Matrix { values, rows: rows2, columns: c };
        proof {
            assert forall|i2: int, j2: int|
                0 <= i2 < r@.len() && 0 <= j2 < c implies #[trigger] r@[i2][j2] == self@[if i2
                < row {
                i2
            } else {
                i2 + 1
            }][j2] by {
                lemma_flat_bound(i2, j2, rows2 as int, c as int);
                lemma_flat_divmod(i2, j2, c as int);
            }
            assert forall|i2: int, j2: int|
                0 <= i2 < r@.len() && 0 <= j2 < r@[i2].len() implies rwf(#[trigger] r@[i2][j2]) by {
                lemma_flat_bound(i2, j2, rows2 as int, c as int);
            }
        }
        r
    }

    /// The matrix with the given column removed.
    pub fn remove_column(&self, column: usize) -> (r: Matrix)
        requires
            column < self.cols_spec(),
        ensures
            r@.len() == self@.len(),
            r.cols_spec() == self.cols_spec() - 1,
            mdims(r@, self@.len() as int, self.cols_spec() - 1),
            mdims(self@, self@.len() as int, self.cols_spec()),
            mwf(r@),
            forall|i2: int, j2: int|
                0 <= i2 < r@.len() && 0 <= j2 < self.cols_spec() - 1 ==> #[trigger] r@[i2][j2]
                    == self@[i2][if j2 < column { j2 } else { j2 + 1 }],
    {
        proof {
            use_type_invariant(self);
            assert(self.rows * (self.columns - 1) <= self.rows * self.columns) by (
            nonlinear_arith)
                requires
                    self.columns >= 1,
            ;
        }
        let c2: usize = self.columns - 1;
        let n: usize = self.rows * c2;
        let mut values: Vec<Rat> = Vec::new();
        let mut k: usize = 0;
        while k < n
            invariant
                0 <= k <= n,
                n == self.rows * c2,
                c2 == self.columns - 1,
                column < self.columns,
                self.shape_inv(),
                values@.len() == k,
                forall|k2: int| 0 <= k2 < k ==> in_caps((#[trigger] values@[k2])@),
                forall|k2: int|
                    0 <= k2 < k ==> (#[trigger] values@[k2])@ == self@[k2 / (c2 as int)][
                        if k2 % (c2 as int) < column {
                            k2 % (c2 as int)
                        } else {
                            k2 % (c2 as int) + 1
                        }
                    ],
            decreases n - k,
        {
            proof {
                assert(c2 >= 1 && self.rows >= 1) by (nonlinear_arith)
                    requires
                        k < n,
                        n == self.rows * c2,
                ;
                assert((k as int) < (c2 as int) * (self.rows as int)) by (nonlinear_arith)
                    requires
                        k < n,
                        n == self.rows * c2,
                ;
                vstd::arithmetic::div_mod::lemma_multiply_divide_lt(
                    k as int,
                    c2 as int,
                    self.rows as int,
                );
            }
            let i = k / c2;
            let j = k % c2;
            let src = if j < column {
                j
            } else {
                j + 1
            };
            proof {
                lemma_flat_bound(i as int, src as int, self.rows as int, self.columns as int);
            }
            let v = self.values[i * self.columns + src];
            proof {
                use_type_invariant(v);
            }
            values.push(v);
            k = k + 1;
        }
        let r = Matrix { values, rows: self.rows, columns: c2 };
        proof {
            assert forall|i2: int, j2: int|
                0 <= i2 < r@.len() && 0 <= j2 < c2 implies #[trigger] r@[i2][j2] == self@[i2][
            if j2 < column {
                j2
            } else {
                j2 + 1
            }] by {
                lemma_flat_bound(i2, j2, self.rows as int, c2 as int);
                lemma_flat_divmod(i2, j2, c2 as int);
            }
            assert forall|i2: int, j2: int|
                0 <= i2 < r@.len() && 0 <= j2 < r@[i2].len() implies rwf(#[trigger] r@[i2][j2]) by {
                lemma_flat_bound(i2, j2, self.rows as int, c2 as int);
            }
        }
        r
    }

    /// The submatrix with one row and one column removed.
    pub fn submatrix(&self, row: usize, column: usize) -> (r: Matrix)
        requires
            row < self@.len(),
            column < self.cols_spec(),
        ensures
            r@ == msub(self@, row as int, column as int),
            r.cols_spec() == self.cols_spec() - 1,
            mdims(r@, self@.len() - 1, self.cols_spec() - 1),
            mdims(self@, self@.len() as int, self.cols_spec()),
            mwf(r@),
    {
        let _ = self.entries_wf();
        let r = self.remove_row(row).remove_column(column);
        proof {
            lemma_msub_props(
                self@,
                self@.len() as int,
                self.cols_spec(),
                row as int,
                column as int,
            );
            let ms = msub(self@, row as int, column as int);
            assert forall|i2: int| 0 <= i2 < r@.len() implies r@[i2] =~= ms[i2] by {
                assert forall|j2: int| 0 <= j2 < self.cols_spec() - 1 implies r@[i2][j2]
                    == ms[i2][j2] by {
                    assert(r@[i2][j2] == self@[if i2 < row {
                        i2
                    } else {
                        i2 + 1
                    }][
                        if j2 < column {
                            j2
                        } else {
                            j2 + 1
                        }
                    ]);
                }
            }
            assert(r@ =~~= ms);
        }
        r
    }
}

/// Equivalence of ratios is respected by the absolute value.
pub proof fn lemma_rabs_cong(a: Ratio, b: Ratio)
    by (nonlinear_arith)
    requires
        rwf(a),
        rwf(b),
        req(a, b),
    ensures
        req(rabs(a), rabs(b)),
        rwf(rabs(a)),
        rwf(rabs(b)),
{
}

/// The two-by-two determinant is the familiar closed form.
proof fn lemma_det2_unfold(m: Seq<Seq<Ratio>>)
    requires
        mdims(m, 2, 2),
        mwf(m),
    ensures
        req(det_s(m), rsub(rmul(m[0][0], m[1][1]), rmul(m[0][1], m[1][0]))),
        rwf(det_s(m)),
        rwf(rsub(rmul(m[0][0], m[1][1]), rmul(m[0][1], m[1][0]))),
{
    lemma_msub_props(m, 2, 2, 0, 0);
    lemma_msub_props(m, 2, 2, 0, 1);
    assert(msub(m, 0, 0)[0][0] == m[1][1]);
    assert(msub(m, 0, 1)[0][0] == m[1][0]);
    assert(det_s(msub(m, 0, 0)) == m[1][1]);
    assert(det_s(msub(m, 0, 1)) == m[1][0]);
    assert(cof_s(m, 0, 0) == m[1][1]);
    assert(cof_s(m, 0, 1) == rneg(m[1][0]));
    let p = rmul(m[0][0], m[1][1]);
    let q = rmul(m[0][1], m[1][0]);
    lemma_pos_mul(m[0][0].d, m[1][1].d);
    lemma_pos_mul(m[0][1].d, m[1][0].d);
    assert(det_s(m) == radd(radd(rzero(), p), rmul(m[0][1], rneg(m[1][0]))));
    lemma_rmul_neg(m[0][1], m[1][0]);
    lemma_radd_zero(p);
    lemma_radd_cong(radd(rzero(), p), rneg(q), p, rneg(q));
    lemma_pos_mul(radd(rzero(), p).d, q.d);
    lemma_pos_mul(p.d, q.d);
}

impl Matrix {
    /// The determinant: the closed form for two-by-two matrices, and the
    /// Laplace expansion along row zero otherwise.  Fails only when an
    /// intermediate value leaves the representable range.
    pub fn det(&self) -> (r: Result<Rat, TraceError>)
        requires
            msquare(self@),
        ensures
            r matches Ok(v) ==> req(v@, det_s(self@)),
            r matches Err(e) ==> e == TraceError::Overflow,
            int_entries(self@) && self@.len() <= 4 ==> r is Ok,
            int_entries(self@) && self@.len() <= 4 ==> (r matches Ok(v) ==> v@.d == 1 && iabs(
                v@.n,
            ) <= det_cap(self@.len() as int)),
        decreases self@.len(), 2int,
    {
        let ghost gi = int_entries(self@) && self@.len() <= 4;
        proof {
            lemma_det_cap_values();
        }
        let _ = self.entries_wf();
        if self.rows == 2 && self.columns == 2 {
            let a = self.get(0, 0);
            let b = self.get(0, 1);
            let c = self.get(1, 0);
            let d = self.get(1, 1);
            let p1 = match a.mul(&d) {
                Some(v) => v,
                None => {
                    proof {
                        if gi {
                            lemma_int_mul_fits(a@, d@, 4000, 4000);
                        }
                    }
                    return Err(TraceError::Overflow);
                },
            };
            let p2 = match b.mul(&c) {
                Some(v) => v,
                None => {
                    proof {
                        if gi {
                            lemma_int_mul_fits(b@, c@, 4000, 4000);
                        }
                    }
                    return Err(TraceError::Overflow);
                },
            };
            proof {
                if gi {
                    lemma_int_mul_fits(a@, d@, 4000, 4000);
                    lemma_int_mul_fits(b@, c@, 4000, 4000);
                    lemma_int_sub_fits(p1@, p2@, 16_000_000, 16_000_000);
                }
            }
            let out = match p1.sub(&p2) {
                Some(v) => v,
                None => {
                    return Err(TraceError::Overflow);
                },
            };
            proof {
                use_type_invariant(p1);
                use_type_invariant(p2);
                use_type_invariant(out);
                let mm = self@;
                let ip = rmul(mm[0][0], mm[1][1]);
                let iq = rmul(mm[0][1], mm[1][0]);
                lemma_pos_mul(mm[0][0].d, mm[1][1].d);
                lemma_pos_mul(mm[0][1].d, mm[1][0].d);
                lemma_rcanon(ip);
                lemma_rcanon(iq);
                lemma_pos_mul(p1@.d, p2@.d);
                lemma_rcanon(rsub(p1@, p2@));
                lemma_rneg_cong(p2@, iq);
                lemma_radd_cong(p1@, rneg(p2@), ip, rneg(iq));
                lemma_pos_mul(ip.d, iq.d);
                lemma_req_trans(out@, rsub(p1@, p2@), rsub(ip, iq));
                lemma_det2_unfold(mm);
                lemma_req_sym(det_s(mm), rsub(ip, iq));
                lemma_req_trans(out@, rsub(ip, iq), det_s(mm));
                if gi {
                    lemma_int_mul_fits(a@, d@, 4000, 4000);
                    lemma_int_mul_fits(b@, c@, 4000, 4000);
                    lemma_int_sub_fits(p1@, p2@, 16_000_000, 16_000_000);
                    assert(out@.d == 1 && iabs(out@.n) <= det_cap(2));
                }
            }
            Ok(out)
        } else if self.rows == 1 {
            let v = self.get(0, 0);
            proof {
                if gi {
                    assert(self@[0][0].d == 1 && iabs(self@[0][0].n) <= 4000);
                }
            }
            Ok(v)
        } else {
            let mut acc = Rat::zero();
            let mut i: usize = 0;
            let n = self.columns;
            let ghost kbound = 4000 * det_cap(n as int - 1);
            proof {
                use_type_invariant(self);
                lemma_det_wf(self@);
                lemma_det_cap_values();
                assert(self@[0].len() == self.cols_spec());
                assert(self@[0].len() == self@.len());
                assert(self.rows == self.columns);
                assert(n >= 3);
            }
            while i < n
                invariant
                    0 <= i <= n,
                    n == self.cols_spec(),
                    n == self@.len(),
                    n >= 2,
                    msquare(self@),
                    mdims(self@, self@.len() as int, self.cols_spec()),
                    mwf(self@),
                    req(acc@, det_row_sum(self@, i as int)),
                    n >= 3,
                    gi == (int_entries(self@) && self@.len() <= 4),
                    kbound == 4000 * det_cap(n as int - 1),
                    gi ==> acc@.d == 1 && iabs(acc@.n) <= (i as int) * kbound,
                decreases n - i,
            {
                proof {
                    lemma_det_wf(self@);
                    lemma_det_cap_values();
                    if gi {
                        assert(n == 3 || n == 4);
                        assert(kbound <= 4000 * 384_000_000_000);
                    }
                }
                let cof = match self.cofactor(0, i) {
                    Ok(v) => v,
                    Err(e) => {
                        return Err(e);
                    },
                };
                let entry = self.get(0, i);
                proof {
                    if gi {
                        use_type_invariant(cof);
                        lemma_int_mul_fits(entry@, cof@, 4000, det_cap(n as int - 1));
                        assert(4000 * det_cap(n as int - 1) == kbound);
                    }
                }
                let t = match entry.mul(&cof) {
                    Some(v) => v,
                    None => {
                        return Err(TraceError::Overflow);
                    },
                };
                proof {
                    if gi {
                        lemma_int_mul_fits(entry@, cof@, 4000, det_cap(n as int - 1));
                        assert((i as int) * kbound + kbound <= (n as int) * kbound) by (
                        nonlinear_arith)
                            requires
                                (i as int) + 1 <= n as int,
                                kbound >= 0,
                        ;
                        assert((n as int) * kbound <= NUM_CAP as int) by (nonlinear_arith)
                            requires
                                n as int == 3 || n as int == 4,
                                kbound >= 0,
                                kbound <= 4000 * 384_000_000_000,
                        ;
                        lemma_int_add_fits(acc@, t@, (i as int) * kbound, kbound);
                    }
                }
                let acc2 = match acc.add(&t) {
                    Some(v) => v,
                    None => {
                        return Err(TraceError::Overflow);
                    },
                };
                proof {
                    use_type_invariant(acc);
                    use_type_invariant(cof);
                    use_type_invariant(t);
                    use_type_invariant(acc2);
                    let mm = self@;
                    let ideal_t = rmul(mm[0][i as int], cof_s(mm, 0, i as int));
                    lemma_pos_mul(entry@.d, cof@.d);
                    lemma_pos_mul(mm[0][i as int].d, cof_s(mm, 0, i as int).d);
                    lemma_rcanon(rmul(entry@, cof@));
                    lemma_rmul_cong(entry@, cof@, mm[0][i as int], cof_s(mm, 0, i as int));
                    lemma_req_trans(t@, rmul(entry@, cof@), ideal_t);
                    lemma_pos_mul(acc@.d, t@.d);
                    lemma_rcanon(radd(acc@, t@));
                    lemma_radd_cong(acc@, t@, det_row_sum(mm, i as int), ideal_t);
                    lemma_pos_mul(det_row_sum(mm, i as int).d, ideal_t.d);
                    lemma_req_trans(
                        acc2@,
                        radd(acc@, t@),
                        radd(det_row_sum(mm, i as int), ideal_t),
                    );
                }
                proof {
                    if gi {
                        assert(acc2@.d == 1 && iabs(acc2@.n) <= ((i as int) + 1) * kbound) by {
                            assert((i as int) * kbound + kbound == ((i as int) + 1) * kbound) by (
                            nonlinear_arith);
                        }
                    }
                }
                acc = acc2;
                i = i + 1;
            }
            proof {
                if gi {
                    assert((n as int) * kbound == det_cap(n as int)) by (nonlinear_arith)
                        requires
                            kbound == 4000 * det_cap(n as int - 1),
                            det_cap(n as int) == (n as int) * 4000 * det_cap(n as int - 1),
                    ;
                }
            }
            Ok(acc)
        }
    }

    /// The minor at `(i, j)`: the determinant of the submatrix.
    pub fn minor(&self, i: usize, j: usize) -> (r: Result<Rat, TraceError>)
        requires
            msquare(self@),
            self@.len() >= 2,
            i < self@.len(),
            j < self@.len(),
        ensures
            r matches Ok(v) ==> req(v@, minor_s(self@, i as int, j as int)),
            r matches Err(e) ==> e == TraceError::Overflow,
            int_entries(self@) && self@.len() <= 5 ==> r is Ok,
            int_entries(self@) && self@.len() <= 5 ==> (r matches Ok(v) ==> v@.d == 1 && iabs(
                v@.n,
            ) <= det_cap(self@.len() - 1)),
        decreases self@.len(), 0int,
    {
        let _ = self.entries_wf();
        proof {
            assert(self@[0].len() == self.cols_spec());
            assert(self@[0].len() == self@.len());
        }
        let sub = self.submatrix(i, j);
        proof {
            lemma_msub_props(
                self@,
                self@.len() as int,
                self@.len() as int,
                i as int,
                j as int,
            );
            if int_entries(self@) && self@.len() <= 5 {
                lemma_msub_int(
                    self@,
                    self@.len() as int,
                    self@.len() as int,
                    i as int,
                    j as int,
                );
            }
        }
        sub.det()
    }

    /// The cofactor at `(i, j)`: the minor with the checkerboard sign.
    pub fn cofactor(&self, i: usize, j: usize) -> (r: Result<Rat, TraceError>)
        requires
            msquare(self@),
            self@.len() >= 2,
            i < self@.len(),
            j < self@.len(),
        ensures
            r matches Ok(v) ==> req(v@, cof_s(self@, i as int, j as int)),
            r matches Err(e) ==> e == TraceError::Overflow,
            int_entries(self@) && self@.len() <= 5 ==> r is Ok,
            int_entries(self@) && self@.len() <= 5 ==> (r matches Ok(v) ==> v@.d == 1 && iabs(
                v@.n,
            ) <= det_cap(self@.len() - 1)),
        decreases self@.len(), 1int,
    {
        let m = match self.minor(i, j) {
            Ok(v) => v,
            Err(e) => {
                return Err(e);
            },
        };
        proof {
            use_type_invariant(self);
            assert(self@[0].len() == self.cols_spec());
            assert(i + j <= usize::MAX) by (nonlinear_arith)
                requires
                    (i as int) < (self.rows as int),
                    (j as int) < (self.rows as int),
                    (self.rows as int) * (self.columns as int) <= usize::MAX,
                    self.rows as int == self.columns as int,
                    self.rows >= 2,
            ;
        }
        if (i + j) % 2 == 1 {
            proof {
                lemma_rneg_cong(m@, minor_s(self@, i as int, j as int));
            }
            Ok(m.neg())
        } else {
            Ok(m)
        }
    }

    /// The matrix product.  The shapes must agree: this matrix's column
    /// count is the other's row count, else the dimension error is
    /// returned.  On success entry `(i, j)` denotes the inner product of
    /// row `i` with column `j`.
    pub fn mul(&self, other: &Matrix) -> (r: Result<Matrix, TraceError>)
        requires
            self@.len() * other.cols_spec() <= usize::MAX,
        ensures
            r is Err <==> (r matches Err(e) && (e == TraceError::DimensionMismatch
                <==> self.cols_spec() != other@.len())) || (r matches Err(e) && e
                == TraceError::Overflow && self.cols_spec() == other@.len()),
            r matches Ok(v) ==> {
                &&& self.cols_spec() == other@.len()
                &&& mdims(v@, self@.len() as int, other.cols_spec())
                &&& v.cols_spec() == other.cols_spec()
                &&& forall|i: int, j: int|
                    0 <= i < self@.len() && 0 <= j < other.cols_spec() ==> req(
                        #[trigger] v@[i][j],
                        mul_entry(self@, other@, i, j),
                    )
            },
            (self.cols_spec() == other@.len() && mul_defined(
                self@,
                other@,
                self@.len() as int,
                other.cols_spec(),
                other@.len() as int,
            )) ==> r is Ok,
    {
        let _ = self.entries_wf();
        let _ = other.entries_wf();
        if self.columns != other.rows {
            return Err(TraceError::DimensionMismatch);
        }
        let r1 = self.rows;
        let c2 = other.columns;
        let kk_max = self.columns;
        proof {
            use_type_invariant(self);
            use_type_invariant(other);
        }
        let n: usize = r1 * c2;
        let mut values: Vec<Rat> = Vec::new();
        let mut k: usize = 0;
        while k < n
            invariant
                0 <= k <= n,
                n == r1 * c2,
                r1 == self@.len(),
                c2 == other.cols_spec(),
                kk_max == self.cols_spec(),
                kk_max == other@.len(),
                mdims(self@, self@.len() as int, self.cols_spec()),
                mdims(other@, other@.len() as int, other.cols_spec()),
                mwf(self@),
                mwf(other@),
                values@.len() == k,
                forall|k2: int| 0 <= k2 < k ==> in_caps((#[trigger] values@[k2])@),
                forall|k2: int|
                    0 <= k2 < k ==> req(
                        (#[trigger] values@[k2])@,
                        mul_entry(self@, other@, k2 / (c2 as int), k2 % (c2 as int)),
                    ),
            decreases n - k,
        {
            proof {
                assert(c2 >= 1 && r1 >= 1) by (nonlinear_arith)
                    requires
                        k < n,
                        n == r1 * c2,
                ;
                assert((k as int) < (c2 as int) * (r1 as int)) by (nonlinear_arith)
                    requires
                        k < n,
                        n == r1 * c2,
                ;
                vstd::arithmetic::div_mod::lemma_multiply_divide_lt(
                    k as int,
                    c2 as int,
                    r1 as int,
                );
            }
            let i = k / c2;
            let j = k % c2;
            let mut sum = Rat::zero();
            let mut kk: usize = 0;
            while kk < kk_max
                invariant
                    0 <= kk <= kk_max,
                    i < self@.len(),
                    j < other.cols_spec(),
                    kk_max == self.cols_spec(),
                    kk_max == other@.len(),
                    mdims(self@, self@.len() as int, self.cols_spec()),
                    mdims(other@, other@.len() as int, other.cols_spec()),
                    mwf(self@),
                    mwf(other@),
                    r1 == self@.len(),
                    c2 == other.cols_spec(),
                    req(sum@, dot_k(self@, other@, i as int, j as int, kk as int)),
                    sum@ == dot_c(self@, other@, i as int, j as int, kk as int),
                decreases kk_max - kk,
            {
                let av = self.get(i, kk);
                let bv = other.get(kk, j);
                let t = match av.mul(&bv) {
                    Some(v) => v,
                    None => {
                        return Err(TraceError::Overflow);
                    },
                };
                let sum2 = match sum.add(&t) {
                    Some(v) => v,
                    None => {
                        return Err(TraceError::Overflow);
                    },
                };
                proof {
                    use_type_invariant(sum);
                    use_type_invariant(t);
                    use_type_invariant(sum2);
                    let ia = self@;
                    let ib = other@;
                    let ideal_t = rmul(ia[i as int][kk as int], ib[kk as int][j as int]);
                    lemma_pos_mul(av@.d, bv@.d);
                    lemma_rcanon(rmul(av@, bv@));
                    lemma_dot_k_wf(
                        ia,
                        ib,
                        i as int,
                        j as int,
                        kk as int,
                        kk_max as int,
                        other.cols_spec(),
                    );
                    lemma_pos_mul(sum@.d, t@.d);
                    lemma_rcanon(radd(sum@, t@));
                    lemma_radd_cong(
                        sum@,
                        t@,
                        dot_k(ia, ib, i as int, j as int, kk as int),
                        ideal_t,
                    );
                    lemma_pos_mul(dot_k(ia, ib, i as int, j as int, kk as int).d, ideal_t.d);
                    lemma_req_trans(
                        sum2@,
                        radd(sum@, t@),
                        radd(dot_k(ia, ib, i as int, j as int, kk as int), ideal_t),
                    );
                }
                sum = sum2;
                kk = kk + 1;
            }
            proof {
                use_type_invariant(sum);
                lemma_flat_divmod(i as int, j as int, c2 as int);
            }
            values.push(sum);
            k = k + 1;
        }
        let r = Matrix { values, rows: r1, columns: c2 };
        proof {
            assert forall|i: int, j: int|
                0 <= i < self@.len() && 0 <= j < other.cols_spec() implies req(
                #[trigger] r@[i][j],
                mul_entry(self@, other@, i, j),
            ) by {
                lemma_flat_bound(i, j, r1 as int, c2 as int);
                lemma_flat_divmod(i, j, c2 as int);
            }
        }
        Ok(r)
    }
}

/// A partial inner product of well-formed rows is well formed.
proof fn lemma_dot_k_wf(
    a: Seq<Seq<Ratio>>,
    b: Seq<Seq<Ratio>>,
    i: int,
    j: int,
    k: int,
    kk_max: int,
    b_cols: int,
)
    requires
        mwf(a),
        mwf(b),
        0 <= i < a.len(),
        0 <= k <= kk_max,
        kk_max == a[i].len(),
        kk_max == b.len(),
        mdims(b, kk_max, b_cols),
        0 <= j < b_cols,
    ensures
        rwf(dot_k(a, b, i, j, k)),
    decreases k,
{
    if k > 0 {
        lemma_dot_k_wf(a, b, i, j, k - 1, kk_max, b_cols);
        lemma_pos_mul(a[i][k - 1].d, b[k - 1][j].d);
        lemma_pos_mul(dot_k(a, b, i, j, k - 1).d, rmul(a[i][k - 1], b[k - 1][j]).d);
    }
}

/// The mathematical value of row `i` of a matrix applied to a tuple.
pub open spec fn mat_row_ideal(m: Seq<Seq<Ratio>>, t: TupleV, i: int) -> Ratio {
    radd(
        radd(radd(rmul(m[i][0], t.x), rmul(m[i][1], t.y)), rmul(m[i][2], t.z)),
        rmul(m[i][3], Ratio { n: t.w, d: 1 }),
    )
}

/// Every step of the executable row application stays representable.
pub open spec fn row_defined(m: Seq<Seq<Ratio>>, t: TupleV, i: int) -> bool {
    let p0 = rcanon(rmul(m[i][0], t.x));
    let p1 = rcanon(rmul(m[i][1], t.y));
    let p2 = rcanon(rmul(m[i][2], t.z));
    let p3 = rcanon(rmul(m[i][3], Ratio { n: t.w, d: 1 }));
    let s1 = rcanon(radd(p0, p1));
    let s2 = rcanon(radd(s1, p2));
    &&& in_caps(p0)
    &&& in_caps(p1)
    &&& in_caps(p2)
    &&& in_caps(p3)
    &&& in_caps(s1)
    &&& in_caps(s2)
    &&& in_caps(rcanon(radd(s2, p3)))
}

/// The representative the executable row application returns: each partial
/// result in canonical form, combined left to right.
pub open spec fn mat_row_c(m: Seq<Seq<Ratio>>, t: TupleV, i: int) -> Ratio {
    rcanon(
        radd(
            rcanon(
                radd(
                    rcanon(radd(rcanon(rmul(m[i][0], t.x)), rcanon(rmul(m[i][1], t.y)))),
                    rcanon(rmul(m[i][2], t.z)),
                ),
            ),
            rcanon(rmul(m[i][3], Ratio { n: t.w, d: 1 })),
        ),
    )
}

impl Matrix {
    /// The inverse.  A matrix whose determinant magnitude is below the
    /// shared tolerance is rejected as not invertible; on success, entry
    /// `(i, j)` denotes the cofactor at `(j, i)` divided by the
    /// determinant.
    pub fn inverse(&self) -> (r: Result<Matrix, TraceError>)
        requires
            msquare(self@),
        ensures
            r matches Ok(v) ==> {
                &&& mdims(v@, self@.len() as int, self@.len() as int)
                &&& v.cols_spec() == self@.len()
                &&& !rlt(rabs(det_s(self@)), reps())
                &&& det_s(self@).n != 0
                &&& forall|i: int, j: int|
                    0 <= i < self@.len() && 0 <= j < self@.len() ==> req(
                        #[trigger] v@[i][j],
                        inv_entry_s(self@, i, j),
                    )
            },
            r matches Err(e) && e == TraceError::NotInvertible ==> rlt(
                rabs(det_s(self@)),
                reps(),
            ),
            int_entries(self@) && self@.len() <= 4 && !rlt(rabs(det_s(self@)), reps())
                ==> r is Ok,
    {
        let ghost gi = int_entries(self@) && self@.len() <= 4;
        let _ = self.entries_wf();
        proof {
            assert(self@[0].len() == self.cols_spec());
            assert(self@[0].len() == self@.len());
            lemma_det_wf(self@);
            lemma_det_cap_values();
        }
        let det = match self.det() {
            Ok(v) => v,
            Err(e) => {
                return Err(e);
            },
        };
        let eps = Rat::new(1, 100_000);
        let below = det.abs().lt(&eps);
        proof {
            use_type_invariant(det);
            lemma_rabs_cong(det@, det_s(self@));
            lemma_rle_cong(rabs(det@), reps(), rabs(det_s(self@)), reps());
        }
        if below {
            return Err(TraceError::NotInvertible);
        }
        proof {
            assert(det@.n != 0) by (nonlinear_arith)
                requires
                    !rlt(rabs(det@), reps()),
                    rwf(det@),
            ;
            assert(det_s(self@).n != 0) by (nonlinear_arith)
                requires
                    req(det@, det_s(self@)),
                    det@.n != 0,
                    rwf(det@),
                    rwf(det_s(self@)),
            ;
        }
        let dim = self.rows;
        if dim == 1 {
            proof {
                if gi {
                    lemma_int_div_fits(rone(), det@, 1);
                }
            }
            let e = match Rat::one().div(&det) {
                Some(v) => v,
                None => {
                    return Err(TraceError::Overflow);
                },
            };
            let mut values: Vec<Rat> = Vec::new();
            proof {
                use_type_invariant(e);
            }
            values.push(e);
            let r = Matrix { values, rows: 1, columns: 1 };
            proof {
                let mm = self@;
                assert(msub(mm, 0, 0).len() == 0);
                assert(cof_s(mm, 0, 0) == rone());
                lemma_rdiv_wf(rone(), det@);
                lemma_rdiv_wf(rone(), det_s(mm));
                lemma_rdiv_cong(rone(), det@, rone(), det_s(mm));
                lemma_rcanon(rdiv(rone(), det@));
                use_type_invariant(&r);
                assert(r@[0][0] == e@);
                lemma_req_trans(r@[0][0], rdiv(rone(), det@), rdiv(rone(), det_s(mm)));
            }
            return Ok(r);
        }
        proof {
            use_type_invariant(self);
            assert(self@[0].len() == self.cols_spec());
            assert(self@[0].len() == self@.len());
            assert(self.columns == self.rows);
        }
        let n: usize = dim * dim;
        let mut values: Vec<Rat> = Vec::new();
        let mut k: usize = 0;
        while k < n
            invariant
                0 <= k <= n,
                n == dim * dim,
                dim >= 2,
                dim == self@.len(),
                dim == self.cols_spec(),
                msquare(self@),
                mdims(self@, self@.len() as int, self.cols_spec()),
                mwf(self@),
                req(det@, det_s(self@)),
                det@.n != 0,
                det_s(self@).n != 0,
                in_caps(det@),
                gi == (int_entries(self@) && self@.len() <= 4),
                gi ==> det@.d == 1 && iabs(det@.n) <= det_cap(dim as int),
                values@.len() == k,
                forall|k2: int| 0 <= k2 < k ==> in_caps((#[trigger] values@[k2])@),
                forall|k2: int|
                    0 <= k2 < k ==> req(
                        (#[trigger] values@[k2])@,
                        inv_entry_s(self@, k2 / (dim as int), k2 % (dim as int)),
                    ),
            decreases n - k,
        {
            proof {
                assert(dim >= 1) by (nonlinear_arith)
                    requires
                        k < n,
                        n == dim * dim,
                ;
                assert((k as int) < (dim as int) * (dim as int)) by (nonlinear_arith)
                    requires
                        k < n,
                        n == dim * dim,
                ;
                vstd::arithmetic::div_mod::lemma_multiply_divide_lt(
                    k as int,
                    dim as int,
                    dim as int,
                );
                lemma_det_wf(self@);
            }
            let i = k / dim;
            let j = k % dim;
            let cof = match self.cofactor(j, i) {
                Ok(v) => v,
                Err(e) => {
                    return Err(e);
                },
            };
            proof {
                if gi {
                    use_type_invariant(cof);
                    lemma_det_cap_values();
                    assert(iabs(cof@.n) <= 384_000_000_000) by {
                        assert(dim == 2 || dim == 3 || dim == 4);
                    }
                    lemma_int_div_fits(cof@, det@, 384_000_000_000);
                }
            }
            let e = match cof.div(&det) {
                Some(v) => v,
                None => {
                    return Err(TraceError::Overflow);
                },
            };
            proof {
                use_type_invariant(cof);
                use_type_invariant(e);
                let mm = self@;
                lemma_det_wf(mm);
                lemma_rdiv_wf(cof@, det@);
                lemma_rcanon(rdiv(cof@, det@));
                lemma_rdiv_cong(cof@, det@, cof_s(mm, j as int, i as int), det_s(mm));
                lemma_rdiv_wf(cof_s(mm, j as int, i as int), det_s(mm));
                lemma_req_trans(
                    e@,
                    rdiv(cof@, det@),
                    rdiv(cof_s(mm, j as int, i as int), det_s(mm)),
                );
            }
            values.push(e);
            k = k + 1;
        }
        let r = Matrix { values, rows: dim, columns: dim };
        proof {
            assert forall|i: int, j: int|
                0 <= i < self@.len() && 0 <= j < self@.len() implies req(
                #[trigger] r@[i][j],
                inv_entry_s(self@, i, j),
            ) by {
                lemma_flat_bound(i, j, dim as int, dim as int);
                lemma_flat_divmod(i, j, dim as int);
            }
        }
        Ok(r)
    }

    /// Applies the matrix to a homogeneous tuple: each coordinate of the
    /// result denotes the inner product of the matching row with the
    /// tuple, and the discriminator is the last row's product cut to an
    /// integer.
    pub fn mul_tuple(&self, t: &Tuple) -> (r: Result<Tuple, TraceError>)
        requires
            msquare(self@),
            self@.len() == 4,
        ensures
            r matches Ok(v) ==> {
                &&& v@.x == mat_row_c(self@, t@, 0)
                &&& v@.y == mat_row_c(self@, t@, 1)
                &&& v@.z == mat_row_c(self@, t@, 2)
                &&& req(v@.x, mat_row_ideal(self@, t@, 0))
                &&& req(v@.y, mat_row_ideal(self@, t@, 1))
                &&& req(v@.z, mat_row_ideal(self@, t@, 2))
                &&& v@.w == rtrunc(mat_row_c(self@, t@, 3))
                &&& 0 <= rtrunc(mat_row_c(self@, t@, 3)) <= 255
            },
            (row_defined(self@, t@, 0) && row_defined(self@, t@, 1) && row_defined(self@, t@, 2)
                && row_defined(self@, t@, 3) && 0 <= rtrunc(mat_row_c(self@, t@, 3)) <= 255)
                ==> r is Ok,
    {
        let _ = self.entries_wf();
        proof {
            assert(self@[0].len() == self.cols_spec());
            assert(self@[0].len() == self@.len());
        }
        let x = match self.row_dot_tuple(0, t) {
            Some(v) => v,
            None => {
                return Err(TraceError::Overflow);
            },
        };
        let y = match self.row_dot_tuple(1, t) {
            Some(v) => v,
            None => {
                return Err(TraceError::Overflow);
            },
        };
        let z = match self.row_dot_tuple(2, t) {
            Some(v) => v,
            None => {
                return Err(TraceError::Overflow);
            },
        };
        let wv = match self.row_dot_tuple(3, t) {
            Some(v) => v,
            None => {
                return Err(TraceError::Overflow);
            },
        };
        let wi = wv.trunc();
        if wi < 0 || wi > 255 {
            return Err(TraceError::Overflow);
        }
        Ok(Tuple { x, y, z, w: wi as u8 })
    }

    /// The inner product of one row with a tuple.
    fn row_dot_tuple(&self, i: usize, t: &Tuple) -> (r: Option<Rat>)
        requires
            i < self@.len(),
            mdims(self@, self@.len() as int, 4),
        ensures
            r matches Some(v) ==> v@ == mat_row_c(self@, t@, i as int) && req(
                v@,
                mat_row_ideal(self@, t@, i as int),
            ),
            row_defined(self@, t@, i as int) ==> r is Some,
    {
        let _ = self.entries_wf();
        proof {
            use_type_invariant(t.x);
            use_type_invariant(t.y);
            use_type_invariant(t.z);
        }
        let p0 = match self.get(i, 0).mul(&t.x) {
            Some(v) => v,
            None => {
                return None;
            },
        };
        let p1 = match self.get(i, 1).mul(&t.y) {
            Some(v) => v,
            None => {
                return None;
            },
        };
        let p2 = match self.get(i, 2).mul(&t.z) {
            Some(v) => v,
            None => {
                return None;
            },
        };
        let p3 = match self.get(i, 3).mul(&Rat::from_int(t.w as i64)) {
            Some(v) => v,
            None => {
                return None;
            },
        };
        let s1 = match p0.add(&p1) {
            Some(v) => v,
            None => {
                return None;
            },
        };
        let s2 = match s1.add(&p2) {
            Some(v) => v,
            None => {
                return None;
            },
        };
        let s3 = match s2.add(&p3) {
            Some(v) => v,
            None => {
                return None;
            },
        };
        proof {
            let mm = self@;
            let tv = t@;
            let ii = i as int;
            let m0 = rmul(mm[ii][0], tv.x);
            let m1 = rmul(mm[ii][1], tv.y);
            let m2 = rmul(mm[ii][2], tv.z);
            let m3 = rmul(mm[ii][3], Ratio { n: tv.w, d: 1 });
            lemma_pos_mul(mm[ii][0].d, tv.x.d);
            lemma_pos_mul(mm[ii][1].d, tv.y.d);
            lemma_pos_mul(mm[ii][2].d, tv.z.d);
            lemma_pos_mul(mm[ii][3].d, 1);
            lemma_rcanon(m0);
            lemma_rcanon(m1);
            lemma_rcanon(m2);
            lemma_rcanon(m3);
            lemma_pos_mul(m0.d, m1.d);
            lemma_pos_mul(radd(m0, m1).d, m2.d);
            lemma_pos_mul(radd(radd(m0, m1), m2).d, m3.d);
            let t1 = radd(rcanon(m0), rcanon(m1));
            lemma_radd_cong(rcanon(m0), rcanon(m1), m0, m1);
            lemma_rcanon(t1);
            lemma_req_trans(rcanon(t1), t1, radd(m0, m1));
            let t2 = radd(rcanon(t1), rcanon(m2));
            lemma_radd_cong(rcanon(t1), rcanon(m2), radd(m0, m1), m2);
            lemma_rcanon(t2);
            lemma_req_trans(rcanon(t2), t2, radd(radd(m0, m1), m2));
            let t3 = radd(rcanon(t2), rcanon(m3));
            lemma_radd_cong(rcanon(t2), rcanon(m3), radd(radd(m0, m1), m2), m3);
            lemma_rcanon(t3);
            lemma_req_trans(rcanon(t3), t3, radd(radd(radd(m0, m1), m2), m3));
            assert(s3@ == mat_row_c(mm, tv, ii));
        }
        Some(s3)
    }
}

/// Every entry coarsened to the precision grid.
pub open spec fn mcoarse_s(m: Seq<Seq<Ratio>>) -> Seq<Seq<Ratio>> {
    Seq::new(m.len(), |i: int| Seq::new(m[i].len(), |j: int| crate::rational::rfix(m[i][j])))
}

/// A matrix of values that can stand for the computed inverse of a
/// transform: four by four, representable, and entry by entry equivalent
/// to the ideal inverse.
pub open spec fn inv_rep_of(mi: Seq<Seq<Ratio>>, t: Seq<Seq<Ratio>>) -> bool {
    &&& mdims(mi, 4, 4)
    &&& forall|i: int, j: int| 0 <= i < 4 && 0 <= j < 4 ==> in_caps(#[trigger] mi[i][j])
    &&& forall|i: int, j: int|
        0 <= i < 4 && 0 <= j < 4 ==> req(#[trigger] mi[i][j], inv_entry_s(t, i, j))
}

/// The inverse as a whole matrix of entry values.
pub open spec fn minv_s(m: Seq<Seq<Ratio>>) -> Seq<Seq<Ratio>> {
    Seq::new(m.len(), |i: int| Seq::new(m.len(), |j: int| inv_entry_s(m, i, j)))
}

/// The transpose of a square matrix of values.
pub open spec fn mtrans_s(m: Seq<Seq<Ratio>>) -> Seq<Seq<Ratio>> {
    Seq::new(m.len(), |i: int| Seq::new(m.len(), |j: int| m[j][i]))
}

/// An affine matrix applied to a tuple: the three coordinate rows, the
/// discriminator kept (sound for matrices whose last row is the identity's).
pub open spec fn tapply(m: Seq<Seq<Ratio>>, t: TupleV) -> TupleV {
    TupleV {
        x: mat_row_ideal(m, t, 0),
        y: mat_row_ideal(m, t, 1),
        z: mat_row_ideal(m, t, 2),
        w: t.w,
    }
}

/// The tuple `out` denotes the application of the matrix `m` to the
/// tuple `t`, coordinate by coordinate.
pub open spec fn apply_rel(m: Seq<Seq<Ratio>>, t: TupleV, out: TupleV) -> bool {
    &&& req(out.x, mat_row_ideal(m, t, 0))
    &&& req(out.y, mat_row_ideal(m, t, 1))
    &&& req(out.z, mat_row_ideal(m, t, 2))
}

/// Applying rows with equivalent entries to one tuple gives equivalent
/// values.
pub proof fn lemma_mat_row_cong(m1: Seq<Seq<Ratio>>, m2: Seq<Seq<Ratio>>, t: TupleV, i: int)
    requires
        0 <= i < m1.len(),
        0 <= i < m2.len(),
        m1[i].len() >= 4,
        m2[i].len() >= 4,
        crate::tuple::twf(t),
        forall|j: int|
            0 <= j < 4 ==> req(#[trigger] m1[i][j], m2[i][j]) && rwf(m1[i][j]) && rwf(m2[i][j]),
    ensures
        req(mat_row_ideal(m1, t, i), mat_row_ideal(m2, t, i)),
        rwf(mat_row_ideal(m1, t, i)),
        rwf(mat_row_ideal(m2, t, i)),
{
    let w = Ratio { n: t.w, d: 1 };
    let a0 = rmul(m1[i][0], t.x);
    let a1 = rmul(m1[i][1], t.y);
    let a2 = rmul(m1[i][2], t.z);
    let a3 = rmul(m1[i][3], w);
    let b0 = rmul(m2[i][0], t.x);
    let b1 = rmul(m2[i][1], t.y);
    let b2 = rmul(m2[i][2], t.z);
    let b3 = rmul(m2[i][3], w);
    lemma_rmul_cong(m1[i][0], t.x, m2[i][0], t.x);
    lemma_rmul_cong(m1[i][1], t.y, m2[i][1], t.y);
    lemma_rmul_cong(m1[i][2], t.z, m2[i][2], t.z);
    lemma_rmul_cong(m1[i][3], w, m2[i][3], w);
    lemma_pos_mul(m2[i][0].d, t.x.d);
    lemma_pos_mul(m2[i][1].d, t.y.d);
    lemma_pos_mul(m2[i][2].d, t.z.d);
    lemma_pos_mul(m2[i][3].d, 1);
    lemma_radd_cong(a0, a1, b0, b1);
    lemma_pos_mul(b0.d, b1.d);
    lemma_radd_cong(radd(a0, a1), a2, radd(b0, b1), b2);
    lemma_pos_mul(radd(b0, b1).d, b2.d);
    lemma_radd_cong(radd(radd(a0, a1), a2), a3, radd(radd(b0, b1), b2), b3);
    lemma_pos_mul(radd(radd(b0, b1), b2).d, b3.d);
    lemma_pos_mul(radd(radd(a0, a1), a2).d, a3.d);
}

impl Matrix {
    /// Every entry coarsened to the precision grid.  Fails only when an
    /// entry's value leaves the range the grid can carry.
    pub fn coarsen(&self) -> (r: Result<Matrix, TraceError>)
        ensures
            r matches Ok(v) ==> {
                &&& v@ == mcoarse_s(self@)
                &&& v@.len() == self@.len()
                &&& v.cols_spec() == self.cols_spec()
                &&& mdims(v@, self@.len() as int, self.cols_spec())
            },
            (forall|i: int, j: int|
                0 <= i < self@.len() && 0 <= j < self.cols_spec() ==> in_caps(
                    #[trigger] crate::rational::rfix(self@[i][j]),
                )) ==> r is Ok,
    {
        proof {
            use_type_invariant(self);
        }
        let n = self.values.len();
        let mut values: Vec<Rat> = Vec::new();
        let mut k: usize = 0;
        while k < n
            invariant
                0 <= k <= n,
                n == self.values@.len(),
                self.shape_inv(),
                values@.len() == k,
                forall|k2: int| 0 <= k2 < k ==> in_caps((#[trigger] values@[k2])@),
                forall|k2: int|
                    0 <= k2 < k ==> (#[trigger] values@[k2])@ == crate::rational::rfix(
                        self.values@[k2]@,
                    ),
            decreases n - k,
        {
            let e = self.values[k];
            let c = match e.coarsen() {
                Some(v) => v,
                None => {
                    proof {
                        let ci = self.columns as int;
                        let ri = self.rows as int;
                        assert(ci >= 1 && ri >= 1) by (nonlinear_arith)
                            requires
                                (k as int) < ri * ci,
                                k >= 0,
                                ri >= 0,
                                ci >= 0,
                        ;
                        let i2 = (k as int) / ci;
                        let j2 = (k as int) % ci;
                        vstd::arithmetic::div_mod::lemma_fundamental_div_mod(k as int, ci);
                        vstd::arithmetic::div_mod::lemma_div_pos_is_pos(k as int, ci);
                        assert(i2 < ri) by (nonlinear_arith)
                            requires
                                (k as int) == ci * i2 + j2,
                                (k as int) < ri * ci,
                                0 <= j2 < ci,
                                i2 >= 0,
                        ;
                        assert(i2 * ci + j2 == k as int) by (nonlinear_arith)
                            requires
                                (k as int) == ci * i2 + j2,
                        ;
                        assert(self@[i2][j2] == self.values@[i2 * ci + j2]@);
                    }
                    return Err(TraceError::Overflow);
                },
            };
            proof {
                use_type_invariant(c);
            }
            values.push(c);
            k = k + 1;
        }
        let r = Matrix { values, rows: self.rows, columns: self.columns };
        proof {
            let ms = mcoarse_s(self@);
            assert forall|i: int| 0 <= i < r@.len() implies r@[i] =~= ms[i] by {
                assert forall|j: int| 0 <= j < self.cols_spec() implies r@[i][j] == ms[i][j] by {
                    lemma_flat_bound(i, j, self.rows as int, self.columns as int);
                }
            }
            assert(r@ =~~= ms);
        }
        Ok(r)
    }
}

/// The four cofactors of a two-by-two matrix.
proof fn lemma_cof2_unfold(m: Seq<Seq<Ratio>>)
    requires
        mdims(m, 2, 2),
        mwf(m),
    ensures
        cof_s(m, 0, 0) == m[1][1],
        cof_s(m, 0, 1) == rneg(m[1][0]),
        cof_s(m, 1, 0) == rneg(m[0][1]),
        cof_s(m, 1, 1) == m[0][0],
{
    lemma_msub_props(m, 2, 2, 0, 0);
    lemma_msub_props(m, 2, 2, 0, 1);
    lemma_msub_props(m, 2, 2, 1, 0);
    lemma_msub_props(m, 2, 2, 1, 1);
    assert(msub(m, 0, 0)[0][0] == m[1][1]);
    assert(msub(m, 0, 1)[0][0] == m[1][0]);
    assert(msub(m, 1, 0)[0][0] == m[0][1]);
    assert(msub(m, 1, 1)[0][0] == m[0][0]);
}

/// One entry of a product of two-column matrices, written as the explicit
/// three-term sum chain.
proof fn lemma_dot2_unfold(a: Seq<Seq<Ratio>>, b: Seq<Seq<Ratio>>, i: int, j: int)
    requires
        0 <= i < a.len(),
        a[i].len() == 2,
    ensures
        mul_entry(a, b, i, j) == radd(
            radd(rzero(), rmul(a[i][0], b[0][j])),
            rmul(a[i][1], b[1][j]),
        ),
{
    assert(dot_k(a, b, i, j, 0) == rzero());
    assert(dot_k(a, b, i, j, 1) == radd(dot_k(a, b, i, j, 0), rmul(a[i][0], b[0][j])));
    assert(dot_k(a, b, i, j, 2) == radd(dot_k(a, b, i, j, 1), rmul(a[i][1], b[1][j])));
}

proof fn lemma_inv2_diag(a: Ratio, b: Ratio, c: Ratio, d: Ratio, dd: Ratio)
    requires
        rwf(a),
        rwf(b),
        rwf(c),
        rwf(d),
        rwf(dd),
        dd.n != 0,
        req(dd, rsub(rmul(a, d), rmul(b, c))),
    ensures
        req(radd(radd(rzero(), rmul(a, rdiv(d, dd))), rmul(b, rdiv(rneg(c), dd))), rone()),
        rwf(radd(radd(rzero(), rmul(a, rdiv(d, dd))), rmul(b, rdiv(rneg(c), dd)))),
{
    let iv = rinv(dd);
    let p = rmul(a, rmul(d, iv));
    let q = rmul(b, rmul(rneg(c), iv));
    let chain = radd(radd(rzero(), p), q);
    assert(rdiv(d, dd) == rmul(d, iv));
    assert(rdiv(rneg(c), dd) == rmul(rneg(c), iv));
    assert(p.n == a.n * (d.n * iv.n) && p.d == a.d * (d.d * iv.d));
    assert(q.n == b.n * ((-c.n) * iv.n) && q.d == b.d * (c.d * iv.d));
    assert(radd(rzero(), p) == p) by {
        assert(0 * p.d + p.n * 1 == p.n);
        assert(1 * p.d == p.d);
    }
    assert(chain.n == p.n * q.d + q.n * p.d && chain.d == p.d * q.d);
    let hs = rsub(rmul(a, d), rmul(b, c));
    assert(hs.n == (a.n * d.n) * (b.d * c.d) + (-(b.n * c.n)) * (a.d * d.d) && hs.d == (a.d * d.d)
        * (b.d * c.d));
    assert(dd.n * ((a.d * d.d) * (b.d * c.d)) == ((a.n * d.n) * (b.d * c.d) + (-(b.n * c.n)) * (
    a.d * d.d)) * dd.d);
    if dd.n >= 0 {
        assert(iv == (Ratio { n: dd.d, d: dd.n }));
        lemma_inv2_core_pos(a.n, a.d, b.n, b.d, c.n, c.d, d.n, d.d, dd.n, dd.d);
    } else {
        assert(iv == (Ratio { n: -dd.d, d: -dd.n }));
        lemma_inv2_core_neg(a.n, a.d, b.n, b.d, c.n, c.d, d.n, d.d, dd.n, dd.d);
    }
    assert(chain.n * 1 == 1 * chain.d);
    assert(chain.d >= 1) by (nonlinear_arith)
        requires
            chain.d == (a.d * (d.d * iv.d)) * (b.d * (c.d * iv.d)),
            a.d >= 1,
            b.d >= 1,
            c.d >= 1,
            d.d >= 1,
            iv.d >= 1,
    ;
}

proof fn lemma_inv2_core_pos(
    an: int,
    ad: int,
    bn: int,
    bd: int,
    cn: int,
    cd: int,
    dn: int,
    dd_: int,
    en: int,
    ed: int,
)
    requires
        ad >= 1,
        bd >= 1,
        cd >= 1,
        dd_ >= 1,
        en >= 1,
        ed >= 1,
        en * ((ad * dd_) * (bd * cd)) == ((an * dn) * (bd * cd) + (-(bn * cn)) * (ad * dd_)) * ed,
    ensures
        (an * (dn * ed)) * (bd * (cd * en)) + (bn * ((-cn) * ed)) * (ad * (dd_ * en)) == (ad * (
        dd_ * en)) * (bd * (cd * en)),
{
    let u = an * dn;
    let v = bd * cd;
    let w = ad * dd_;
    let s = -(bn * cn);
    assert(an * (dn * ed) == u * ed) by (nonlinear_arith)
        requires
            u == an * dn,
    ;
    assert(bd * (cd * en) == v * en) by (nonlinear_arith)
        requires
            v == bd * cd,
    ;
    assert((u * ed) * (v * en) == (u * v) * (ed * en)) by (nonlinear_arith);
    assert(bn * ((-cn) * ed) == -((bn * cn) * ed)) by (nonlinear_arith);
    assert(ad * (dd_ * en) == w * en) by (nonlinear_arith)
        requires
            w == ad * dd_,
    ;
    assert((-((bn * cn) * ed)) * (w * en) == (s * w) * (ed * en)) by (nonlinear_arith)
        requires
            s == -(bn * cn),
    ;
    assert((u * v) * (ed * en) + (s * w) * (ed * en) == ((u * v + s * w) * ed) * en) by (
    nonlinear_arith);
    assert(((u * v + s * w) * ed) * en == (en * (w * v)) * en) by (nonlinear_arith)
        requires
            en * (w * v) == (u * v + s * w) * ed,
    ;
    assert(en * (w * v) == (u * v + s * w) * ed) by (nonlinear_arith)
        requires
            u == an * dn,
            v == bd * cd,
            w == ad * dd_,
            s == -(bn * cn),
            en * ((ad * dd_) * (bd * cd)) == ((an * dn) * (bd * cd) + (-(bn * cn)) * (ad * dd_))
                * ed,
    ;
    assert(ad * (dd_ * en) == w * en) by (nonlinear_arith)
        requires
            w == ad * dd_,
    ;
    assert(bd * (cd * en) == v * en) by (nonlinear_arith)
        requires
            v == bd * cd,
    ;
    assert((w * en) * (v * en) == (en * (w * v)) * en) by (nonlinear_arith);
}

proof fn lemma_inv2_core_neg(
    an: int,
    ad: int,
    bn: int,
    bd: int,
    cn: int,
    cd: int,
    dn: int,
    dd_: int,
    en: int,
    ed: int,
)
    requires
        ad >= 1,
        bd >= 1,
        cd >= 1,
        dd_ >= 1,
        en <= -1,
        ed >= 1,
        en * ((ad * dd_) * (bd * cd)) == ((an * dn) * (bd * cd) + (-(bn * cn)) * (ad * dd_)) * ed,
    ensures
        (an * (dn * (-ed))) * (bd * (cd * (-en))) + (bn * ((-cn) * (-ed))) * (ad * (dd_ * (-en)))
            == (ad * (dd_ * (-en))) * (bd * (cd * (-en))),
{
    let u = an * dn;
    let v = bd * cd;
    let w = ad * dd_;
    let s = -(bn * cn);
    assert(an * (dn * (-ed)) == -(u * ed)) by (nonlinear_arith)
        requires
            u == an * dn,
    ;
    assert(bd * (cd * (-en)) == -(v * en)) by (nonlinear_arith)
        requires
            v == bd * cd,
    ;
    assert((-(u * ed)) * (-(v * en)) == (u * v) * (ed * en)) by (nonlinear_arith);
    assert(bn * ((-cn) * (-ed)) == (bn * cn) * ed) by (nonlinear_arith);
    assert(ad * (dd_ * (-en)) == -(w * en)) by (nonlinear_arith)
        requires
            w == ad * dd_,
    ;
    assert(((bn * cn) * ed) * (-(w * en)) == (s * w) * (ed * en)) by (nonlinear_arith)
        requires
            s == -(bn * cn),
    ;
    assert((u * v) * (ed * en) + (s * w) * (ed * en) == ((u * v + s * w) * ed) * en) by (
    nonlinear_arith);
    assert(((u * v + s * w) * ed) * en == (en * (w * v)) * en) by (nonlinear_arith)
        requires
            en * (w * v) == (u * v + s * w) * ed,
    ;
    assert(en * (w * v) == (u * v + s * w) * ed) by (nonlinear_arith)
        requires
            u == an * dn,
            v == bd * cd,
            w == ad * dd_,
            s == -(bn * cn),
            en * ((ad * dd_) * (bd * cd)) == ((an * dn) * (bd * cd) + (-(bn * cn)) * (ad * dd_))
                * ed,
    ;
    assert(ad * (dd_ * (-en)) == -(w * en)) by (nonlinear_arith)
        requires
            w == ad * dd_,
    ;
    assert(bd * (cd * (-en)) == -(v * en)) by (nonlinear_arith)
        requires
            v == bd * cd,
    ;
    assert((-(w * en)) * (-(v * en)) == (en * (w * v)) * en) by (nonlinear_arith);
}

proof fn lemma_inv2_off(a: Ratio, b: Ratio, dd: Ratio)
    by (nonlinear_arith)
    requires
        rwf(a),
        rwf(b),
        rwf(dd),
        dd.n != 0,
    ensures
        req(radd(radd(rzero(), rmul(a, rdiv(rneg(b), dd))), rmul(b, rdiv(a, dd))), rzero()),
        rwf(radd(radd(rzero(), rmul(a, rdiv(rneg(b), dd))), rmul(b, rdiv(a, dd)))),
{
}

/// A two-by-two matrix whose determinant denotes a nonzero value, times
/// its inverse, denotes the identity entry by entry.
pub proof fn lemma_inverse_round_trip2(m: Seq<Seq<Ratio>>)
    requires
        mdims(m, 2, 2),
        mwf(m),
        det_s(m).n != 0,
    ensures
        forall|i: int, j: int|
            0 <= i < 2 && 0 <= j < 2 ==> req(
                #[trigger] mul_entry(m, minv_s(m), i, j),
                if i == j {
                    rone()
                } else {
                    rzero()
                },
            ),
{
    let a = m[0][0];
    let b = m[0][1];
    let c = m[1][0];
    let d = m[1][1];
    let dd = det_s(m);
    lemma_det2_unfold(m);
    lemma_cof2_unfold(m);
    let inv = minv_s(m);
    assert(inv[0][0] == rdiv(d, dd));
    assert(inv[1][0] == rdiv(rneg(c), dd));
    assert(inv[0][1] == rdiv(rneg(b), dd));
    assert(inv[1][1] == rdiv(a, dd));
    assert forall|i: int, j: int|
        0 <= i < 2 && 0 <= j < 2 implies req(
        #[trigger] mul_entry(m, inv, i, j),
        if i == j {
            rone()
        } else {
            rzero()
        },
    ) by {
        lemma_dot2_unfold(m, inv, i, j);
        if i == 0 && j == 0 {
            lemma_inv2_diag(a, b, c, d, dd);
        } else if i == 0 && j == 1 {
            lemma_inv2_off(a, b, dd);
        } else if i == 1 && j == 0 {
            lemma_inv2_off2(c, d, dd);
        } else {
            lemma_inv2_diag2(a, b, c, d, dd);
        }
    }
}

proof fn lemma_inv2_off2(c: Ratio, d: Ratio, dd: Ratio)
    by (nonlinear_arith)
    requires
        rwf(c),
        rwf(d),
        rwf(dd),
        dd.n != 0,
    ensures
        req(radd(radd(rzero(), rmul(c, rdiv(d, dd))), rmul(d, rdiv(rneg(c), dd))), rzero()),
        rwf(radd(radd(rzero(), rmul(c, rdiv(d, dd))), rmul(d, rdiv(rneg(c), dd)))),
{
}

proof fn lemma_inv2_diag2(a: Ratio, b: Ratio, c: Ratio, d: Ratio, dd: Ratio)
    requires
        rwf(a),
        rwf(b),
        rwf(c),
        rwf(d),
        rwf(dd),
        dd.n != 0,
        req(dd, rsub(rmul(a, d), rmul(b, c))),
    ensures
        req(radd(radd(rzero(), rmul(c, rdiv(rneg(b), dd))), rmul(d, rdiv(a, dd))), rone()),
        rwf(radd(radd(rzero(), rmul(c, rdiv(rneg(b), dd))), rmul(d, rdiv(a, dd)))),
{
    assert(rmul(a, d) == rmul(d, a)) by (nonlinear_arith);
    assert(rmul(b, c) == rmul(c, b)) by (nonlinear_arith);
    lemma_inv2_diag(d, c, b, a, dd);
    let p = rmul(d, rdiv(a, dd));
    let q = rmul(c, rdiv(rneg(b), dd));
    assert(radd(rzero(), p) == p) by {
        assert(0 * p.d + p.n * 1 == p.n);
        assert(1 * p.d == p.d);
    }
    assert(radd(rzero(), q) == q) by {
        assert(0 * q.d + q.n * 1 == q.n);
        assert(1 * q.d == q.d);
    }
    assert(radd(p, q) == radd(q, p)) by (nonlinear_arith);
    assert(radd(radd(rzero(), q), p) == radd(radd(rzero(), p), q));
}

/// The two-by-two identity matrix of values.
pub open spec fn mid2() -> Seq<Seq<Ratio>> {
    seq![seq![rone(), rzero()], seq![rzero(), rone()]]
}

/// The inverse of the identity denotes the identity entry by entry.
pub proof fn lemma_identity_inverse2()
    ensures
        forall|i: int, j: int|
            0 <= i < 2 && 0 <= j < 2 ==> req(#[trigger] inv_entry_s(mid2(), i, j), mid2()[i][j]),
{
    let m = mid2();
    lemma_cof2_unfold(m);
    assert(cof_s(m, 0, 0) == rone());
    assert(cof_s(m, 1, 1) == rone());
    assert(cof_s(m, 0, 1) == rneg(rzero()));
    assert(cof_s(m, 1, 0) == rneg(rzero()));
    // the determinant evaluates to the pair for one
    assert(det_s(m) == det_row_sum(m, 2));
    assert(det_row_sum(m, 0) == rzero());
    assert(det_row_sum(m, 1) == radd(rzero(), rmul(m[0][0], cof_s(m, 0, 0))));
    assert(det_row_sum(m, 2) == radd(det_row_sum(m, 1), rmul(m[0][1], cof_s(m, 0, 1))));
    assert(rmul(rone(), rone()) == rone());
    assert(radd(rzero(), rone()) == rone()) by {
        assert(0 * 1 + 1 * 1 == 1int);
        assert(1 * 1 == 1int);
    }
    assert(rmul(rzero(), rneg(rzero())) == (Ratio { n: 0, d: 1 })) by {
        assert(0 * (-0) == 0int);
        assert(1 * 1 == 1int);
    }
    assert(radd(rone(), Ratio { n: 0, d: 1 }) == rone()) by {
        assert(1 * 1 + 0 * 1 == 1int);
        assert(1 * 1 == 1int);
    }
    assert(det_s(m) == rone());
    assert(rinv(rone()) == rone());
    assert(rmul(rone(), rone()) == rone());
    assert(rdiv(rone(), rone()) == rone());
    assert(rdiv(rneg(rzero()), rone()) == (Ratio { n: 0, d: 1 })) by {
        assert((-0) * 1 == 0int);
        assert(1 * 1 == 1int);
    }
    assert forall|i: int, j: int|
        0 <= i < 2 && 0 <= j < 2 implies req(#[trigger] inv_entry_s(m, i, j), m[i][j]) by {
        if i == j {
            assert(inv_entry_s(m, i, j) == rdiv(rone(), rone()));
        } else {
            assert(inv_entry_s(m, i, j) == rdiv(rneg(rzero()), rone()));
        }
    }
}

impl PartialEq for Matrix {
    /// Equal shape and entries within the shared tolerance.
    fn eq(&self, other: &Self) -> (r: bool) {
        proof {
            use_type_invariant(self);
            use_type_invariant(other);
        }
        if self.rows != other.rows || self.columns != other.columns {
            return false;
        }
        let len = self.values.len();
        let mut k: usize = 0;
        while k < len
            invariant
                0 <= k <= len,
                self.shape_inv(),
                other.shape_inv(),
                self.rows == other.rows,
                self.columns == other.columns,
                len == self.values@.len(),
                len == other.values@.len(),
                forall|k2: int|
                    0 <= k2 < k ==> rapprox(
                        (#[trigger] self.values@[k2])@,
                        other.values@[k2]@,
                    ),
            decreases len - k,
        {
            let a = self.values[k];
            let b = other.values[k];
            if !a.approx_eq(&b) {
                proof {
                    let ri = self.rows as int;
                    let c = self.columns as int;
                    assert(self.values@.len() == ri * c);
                    assert(c >= 1 && ri >= 1) by (nonlinear_arith)
                        requires
                            (k as int) < ri * c,
                            k >= 0,
                            ri >= 0,
                            c >= 0,
                    ;
                    let i = (k as int) / c;
                    let j = (k as int) % c;
                    assert(0 <= j < c);
                    vstd::arithmetic::div_mod::lemma_fundamental_div_mod(k as int, c);
                    vstd::arithmetic::div_mod::lemma_div_pos_is_pos(k as int, c);
                    assert(i < ri) by (nonlinear_arith)
                        requires
                            (k as int) == c * i + j,
                            (k as int) < ri * c,
                            0 <= j < c,
                            i >= 0,
                    ;
                    assert(self@[i][j] == self.values@[i * c + j]@);
                    assert(i * c + j == k as int) by (nonlinear_arith)
                        requires
                            (k as int) == c * i + j,
                    ;
                    assert(!rapprox(self@[i][j], other@[i][j]));
                }
                return false;
            }
            k = k + 1;
        }
        proof {
            assert forall|i: int, j: int|
                0 <= i < self@.len() && 0 <= j < self@[i].len() implies rapprox(
                #[trigger] self@[i][j],
                other@[i][j],
            ) by {
                lemma_flat_bound(i, j, self.rows as int, self.columns as int);
            }
        }
        true
    }
}

impl vstd::std_specs::cmp::PartialEqSpecImpl for Matrix {
    open spec fn obeys_eq_spec() -> bool {
        true
    }

    open spec fn eq_spec(&self, other: &Matrix) -> bool {
        &&& self@.len() == other@.len()
        &&& self.cols_spec() == other.cols_spec()
        &&& mapprox(self@, other@)
    }
}

impl Clone for Matrix {
    /// An exact copy with the same entries.
    fn clone(&self) -> (r: Self)
        ensures
            r@ == self@,
            r.cols_spec() == self.cols_spec(),
    {
        proof {
            use_type_invariant(self);
        }
        let r = Matrix { values: self.values.clone(), rows: self.rows, columns: self.columns };
        proof {
            assert(r.values@ =~= self.values@);
            assert(r@ =~= self@);
        }
        r
    }
}

} // verus!
