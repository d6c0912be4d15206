//! The dense tensor-algebra engine.
//!
//! A [`Tensor`] is a complex matrix in row-major order with a (rows, cols)
//! shape, rows and cols positive and the data length equal to their product.
//! Every operation returns a new tensor whose entries are pinned exactly by a
//! specification over the mathematical view; shape incompatibilities and
//! range failures abort the operation with an [`EvalError`], never with a
//! panic.

use crate::errors::EvalError;
use crate::scalar::{
    cx_abs2_c, cx_add_c, cx_conj_c, cx_div_s, cx_mul_c, cx_ok, cx_one_v, cx_sub_c, cx_wf_v,
    cx_zero_v, q2_add_c, q2_eq_v, q2_mul_vv, q2_nonneg_v, q2_ok, q2_sqrt_s, q2_zero_v, Cx, CxV, Q2,
    Q2V,
};
use vstd::prelude::*;

verus! {

/// Mathematical value of a tensor: a shape and the row-major entry sequence.
#[verifier::ext_equal]
pub struct TensorV {
    pub rows: nat,
    pub cols: nat,
    pub data: Seq<CxV>,
}

/// Well-formed tensor value: positive shape, consistent length, well-formed
/// entries.
pub open spec fn tensor_wf_v(t: TensorV) -> bool {
    t.rows >= 1 && t.cols >= 1 && t.data.len() == t.rows * t.cols && (forall|k: int|
        0 <= k < t.data.len() ==> cx_wf_v(#[trigger] t.data[k]))
}

/// The entry in row i, column j.
pub open spec fn ent(t: TensorV, i: int, j: int) -> CxV {
    t.data[i * t.cols + j]
}

/// The two tensors have equal shapes.
pub open spec fn same_shape(a: TensorV, b: TensorV) -> bool {
    a.rows == b.rows && a.cols == b.cols
}

/// Elementwise sum: defined exactly on equal shapes, entry by entry, with a
/// range failure if any entry sum leaves the machine range.
pub open spec fn tensor_add_s(a: TensorV, b: TensorV) -> Result<TensorV, EvalError> {
    if !same_shape(a, b) {
        Err(EvalError::ShapeMismatch)
    } else if forall|k: int| 0 <= k < a.data.len() ==> (#[trigger] cx_add_c(a.data[k], b.data[k])) is Some {
        Ok(
            TensorV {
                rows: a.rows,
                cols: a.cols,
                data: Seq::new(a.data.len(), |k: int| cx_add_c(a.data[k], b.data[k])->Some_0),
            },
        )
    } else {
        Err(EvalError::Overflow)
    }
}

/// Elementwise difference, as [`tensor_add_s`].
pub open spec fn tensor_sub_s(a: TensorV, b: TensorV) -> Result<TensorV, EvalError> {
    if !same_shape(a, b) {
        Err(EvalError::ShapeMismatch)
    } else if forall|k: int| 0 <= k < a.data.len() ==> (#[trigger] cx_sub_c(a.data[k], b.data[k])) is Some {
        Ok(
            TensorV {
                rows: a.rows,
                cols: a.cols,
                data: Seq::new(a.data.len(), |k: int| cx_sub_c(a.data[k], b.data[k])->Some_0),
            },
        )
    } else {
        Err(EvalError::Overflow)
    }
}

/// Componentwise scaling by a complex scalar.
pub open spec fn tensor_scale_s(a: TensorV, c: CxV) -> Result<TensorV, EvalError> {
    if forall|k: int| 0 <= k < a.data.len() ==> (#[trigger] cx_mul_c(a.data[k], c)) is Some {
        Ok(
            TensorV {
                rows: a.rows,
                cols: a.cols,
                data: Seq::new(a.data.len(), |k: int| cx_mul_c(a.data[k], c)->Some_0),
            },
        )
    } else {
        Err(EvalError::Overflow)
    }
}

/// Conjugate transpose: the entry in row i, column j of the result is the
/// conjugate of the entry in row j, column i of the argument.
pub open spec fn tensor_dag_s(a: TensorV) -> Result<TensorV, EvalError> {
    if forall|k: int| 0 <= k < a.data.len() ==> (#[trigger] cx_conj_c(a.data[k])) is Some {
        Ok(
            TensorV {
                rows: a.cols,
                cols: a.rows,
                data: Seq::new(
                    a.data.len(),
                    |idx: int| cx_conj_c(a.data[(idx % (a.rows as int)) * a.cols + idx / (a.rows as int)])->Some_0,
                ),
            },
        )
    } else {
        Err(EvalError::Overflow)
    }
}

/// Entrywise division of a data sequence by one complex scalar, in order:
/// the first failing entry decides the error.
pub open spec fn div_data_s(s: Seq<CxV>, w: CxV) -> Result<Seq<CxV>, EvalError>
    decreases s.len(),
{
    if s.len() == 0 {
        Ok(Seq::empty())
    } else {
        match div_data_s(s.drop_last(), w) {
            Err(e) => Err(e),
            Ok(pre) => match cx_div_s(s.last(), w) {
                Err(e) => Err(e),
                Ok(c) => Ok(pre.push(c)),
            },
        }
    }
}

/// Division by a 1-by-1 tensor: any other divisor shape is a mismatch.
pub open spec fn tensor_div_s(a: TensorV, b: TensorV) -> Result<TensorV, EvalError> {
    if !(b.rows == 1 && b.cols == 1) {
        Err(EvalError::ShapeMismatch)
    } else {
        match div_data_s(a.data, b.data[0]) {
            Err(e) => Err(e),
            Ok(data) => Ok(TensorV { rows: a.rows, cols: a.cols, data }),
        }
    }
}

proof fn lemma_div_data_err(s: Seq<CxV>, w: CxV, k: int)
    requires
        0 <= k <= s.len(),
        div_data_s(s.take(k), w) is Err,
    ensures
        div_data_s(s, w) == div_data_s(s.take(k), w),
    decreases s.len() - k,
{
    if k == s.len() {
        assert(s.take(k) =~= s);
    } else {
        assert(s.take(k + 1).drop_last() =~= s.take(k));
        assert(s.take(k + 1).last() == s[k]);
        lemma_div_data_err(s, w, k + 1);
    }
}

/// The left fold that a matrix-multiply entry accumulates: the first n
/// products of row i of a against column j of b, summed from zero.
pub open spec fn matmul_entry_c(a: TensorV, b: TensorV, i: int, j: int, n: int) -> Option<CxV>
    decreases n,
{
    if n <= 0 {
        Some(cx_zero_v())
    } else {
        match matmul_entry_c(a, b, i, j, n - 1) {
            None => None,
            Some(acc) => match cx_mul_c(ent(a, i, n - 1), ent(b, n - 1, j)) {
                None => None,
                Some(p) => cx_add_c(acc, p),
            },
        }
    }
}

/// Standard matrix product of compatible non-scalar operands.
pub open spec fn tensor_matmul_s(a: TensorV, b: TensorV) -> Result<TensorV, EvalError> {
    if forall|i: int, j: int|
        0 <= i < a.rows && 0 <= j < b.cols ==> (#[trigger] matmul_entry_c(
            a,
            b,
            i,
            j,
            a.cols as int,
        )) is Some {
        Ok(
            TensorV {
                rows: a.rows,
                cols: b.cols,
                data: Seq::new(
                    a.rows * b.cols,
                    |idx: int|
                        matmul_entry_c(
                            a,
                            b,
                            idx / (b.cols as int),
                            idx % (b.cols as int),
                            a.cols as int,
                        )->Some_0,
                ),
            },
        )
    } else {
        Err(EvalError::Overflow)
    }
}

/// The multiplication the grammar's `*` performs: a 1-by-1 operand scales the
/// other operand; otherwise inner dimensions must agree and the matrices are
/// multiplied.
pub open spec fn tensor_mul_s(a: TensorV, b: TensorV) -> Result<TensorV, EvalError> {
    if !(a.cols == b.rows || (a.rows == 1 && a.cols == 1) || (b.rows == 1 && b.cols == 1)) {
        Err(EvalError::ShapeMismatch)
    } else if a.rows == 1 && a.cols == 1 {
        tensor_scale_s(b, a.data[0])
    } else if b.rows == 1 && b.cols == 1 {
        tensor_scale_s(a, b.data[0])
    } else {
        tensor_matmul_s(a, b)
    }
}

/// One Kronecker-product entry, by the row-major position idx of the result:
/// with b of shape (r, s), result row y = j*r + l and column x = i*s + k hold
/// the product of a's entry (j, i) and b's entry (l, k).
pub open spec fn kron_entry_c(a: TensorV, b: TensorV, idx: int) -> Option<CxV> {
    let cc = (a.cols * b.cols) as int;
    let y = idx / cc;
    let x = idx % cc;
    cx_mul_c(
        a.data[(y / (b.rows as int)) * a.cols + x / (b.cols as int)],
        b.data[(y % (b.rows as int)) * b.cols + x % (b.cols as int)],
    )
}

/// Kronecker product: shape (p*r, q*s) with the interleaving of
/// [`kron_entry_c`]; fails when a shape product or an entry leaves the
/// machine range.
pub open spec fn tensor_kron_s(a: TensorV, b: TensorV) -> Result<TensorV, EvalError> {
    if a.rows * b.rows > usize::MAX || a.cols * b.cols > usize::MAX || (a.rows * b.rows) * (a.cols
        * b.cols) > usize::MAX {
        Err(EvalError::Overflow)
    } else if forall|idx: int|
        0 <= idx < (a.rows * b.rows) * (a.cols * b.cols) ==> (#[trigger] kron_entry_c(
            a,
            b,
            idx,
        )) is Some {
        Ok(
            TensorV {
                rows: a.rows * b.rows,
                cols: a.cols * b.cols,
                data: Seq::new(
                    (a.rows * b.rows) * (a.cols * b.cols),
                    |idx: int| kron_entry_c(a, b, idx)->Some_0,
                ),
            },
        )
    } else {
        Err(EvalError::Overflow)
    }
}

/// The unconjugated dot product the grammar's `.` performs: componentwise
/// products of the two row-major data sequences summed over the shorter
/// length, exactly as zipping truncates.
pub open spec fn dot_data_c(a: Seq<CxV>, b: Seq<CxV>, n: int) -> Option<CxV>
    decreases n,
{
    if n <= 0 {
        Some(cx_zero_v())
    } else {
        match dot_data_c(a, b, n - 1) {
            None => None,
            Some(acc) => match cx_mul_c(a[n - 1], b[n - 1]) {
                None => None,
                Some(p) => cx_add_c(acc, p),
            },
        }
    }
}

pub open spec fn min_len(a: TensorV, b: TensorV) -> int {
    if a.data.len() <= b.data.len() {
        a.data.len() as int
    } else {
        b.data.len() as int
    }
}

pub open spec fn tensor_dot_s(a: TensorV, b: TensorV) -> Option<CxV> {
    dot_data_c(a.data, b.data, min_len(a, b))
}

/// Sum of squared magnitudes of the entries, accumulated left to right.
pub open spec fn norm_sqr_data_c(s: Seq<CxV>) -> Option<Q2V>
    decreases s.len(),
{
    if s.len() == 0 {
        Some(q2_zero_v())
    } else {
        match norm_sqr_data_c(s.drop_last()) {
            None => None,
            Some(acc) => match cx_abs2_c(s.last()) {
                None => None,
                Some(m) => q2_add_c(acc, m),
            },
        }
    }
}

/// The norm: exact square root of the squared-magnitude sum; a sum that
/// leaves the machine range is a range failure, a sum with no exact root in
/// the scalar field is an inexact norm.
pub open spec fn tensor_norm_s(t: TensorV) -> Result<Q2V, EvalError> {
    match norm_sqr_data_c(t.data) {
        None => Err(EvalError::Overflow),
        Some(ns) => match q2_sqrt_s(ns) {
            None => Err(EvalError::InexactNorm),
            Some(q) => Ok(q),
        },
    }
}

/// Scaling to unit norm: every entry divided by the norm.
pub open spec fn tensor_unit_s(t: TensorV) -> Result<TensorV, EvalError> {
    match tensor_norm_s(t) {
        Err(e) => Err(e),
        Ok(nq) => match div_data_s(t.data, CxV { re: nq, im: q2_zero_v() }) {
            Err(e) => Err(e),
            Ok(data) => Ok(TensorV { rows: t.rows, cols: t.cols, data }),
        },
    }
}

/// The projector t * dag(t).
pub open spec fn tensor_proj_s(t: TensorV) -> Result<TensorV, EvalError> {
    match tensor_dag_s(t) {
        Err(e) => Err(e),
        Ok(d) => tensor_mul_s(t, d),
    }
}

/// The value of the 2-by-2 identity.
pub open spec fn eye2_v() -> TensorV {
    TensorV {
        rows: 2,
        cols: 2,
        data: seq![cx_one_v(), cx_zero_v(), cx_zero_v(), cx_one_v()],
    }
}

/// The Kronecker chain that expand builds after its step k: position 0 is t
/// itself when i = 0, the 2-by-2 identity otherwise, and each later step
/// appends t at position i and the identity elsewhere.
pub open spec fn expand_step_s(t: TensorV, i: int, k: int) -> Result<TensorV, EvalError>
    decreases k,
{
    if k <= 0 {
        if i == 0 {
            Ok(t)
        } else {
            Ok(eye2_v())
        }
    } else {
        match expand_step_s(t, i, k - 1) {
            Err(e) => Err(e),
            Ok(p) => tensor_kron_s(
                p,
                if k == i {
                    t
                } else {
                    eye2_v()
                },
            ),
        }
    }
}

/// The n-fold chain of 2-by-2 identities with t substituted at position i.
pub open spec fn tensor_expand_s(t: TensorV, n: int, i: int) -> Result<TensorV, EvalError> {
    if n <= 0 {
        expand_step_s(t, i, 0)
    } else {
        expand_step_s(t, i, n - 1)
    }
}

proof fn lemma_matmul_entry_none(a: TensorV, b: TensorV, i: int, j: int, k: int, n: int)
    requires
        0 <= k <= n,
        matmul_entry_c(a, b, i, j, k) is None,
    ensures
        matmul_entry_c(a, b, i, j, n) is None,
    decreases n - k,
{
    if k < n {
        lemma_matmul_entry_none(a, b, i, j, k, n - 1);
    }
}

proof fn lemma_dot_data_none(a: Seq<CxV>, b: Seq<CxV>, k: int, n: int)
    requires
        0 <= k <= n,
        dot_data_c(a, b, k) is None,
    ensures
        dot_data_c(a, b, n) is None,
    decreases n - k,
{
    if k < n {
        lemma_dot_data_none(a, b, k, n - 1);
    }
}

proof fn lemma_expand_step_err(t: TensorV, i: int, k: int, n: int)
    requires
        0 <= k <= n,
        expand_step_s(t, i, k) is Err,
    ensures
        expand_step_s(t, i, n) == expand_step_s(t, i, k),
    decreases n - k,
{
    if k < n {
        lemma_expand_step_err(t, i, k, n - 1);
    }
}

proof fn lemma_norm_sqr_none(s: Seq<CxV>, k: int)
    requires
        0 <= k <= s.len(),
        norm_sqr_data_c(s.take(k)) is None,
    ensures
        norm_sqr_data_c(s) is None,
    decreases s.len() - k,
{
    if k == s.len() {
        assert(s.take(k) =~= s);
    } else {
        assert(s.take(k + 1).drop_last() =~= s.take(k));
        lemma_norm_sqr_none(s, k + 1);
    }
}

/// Dagger cancellation: taking the conjugate transpose twice gives back the
/// original tensor exactly, entry for entry, whenever both steps stay in the
/// machine range. The concrete consequence is that a daggered ket minus the
/// matching bra is the zero tensor.
pub proof fn lemma_dag_involutive(t: TensorV, d: TensorV, dd: TensorV)
    requires
        tensor_wf_v(t),
        tensor_dag_s(t) == Ok::<TensorV, EvalError>(d),
        tensor_dag_s(d) == Ok::<TensorV, EvalError>(dd),
    ensures
        dd == t,
{
    let rows = t.rows as int;
    let cols = t.cols as int;
    assert(d.rows == t.cols && d.cols == t.rows && d.data.len() == t.data.len());
    assert(dd.rows == t.rows && dd.cols == t.cols && dd.data.len() == t.data.len());
    assert forall|k: int| 0 <= k < t.data.len() implies dd.data[k] == t.data[k] by {
        lemma_divmod_split(k, rows, cols);
        let i = k / cols;
        let jj = k % cols;
        let j = jj * rows + i;
        lemma_grid_index(jj, i, cols, rows);
        vstd::arithmetic::div_mod::lemma_fundamental_div_mod_converse(j, rows, jj, i);
        assert(dd.data[k] == cx_conj_c(d.data[(k % (d.rows as int)) * d.cols + k / (d.rows
            as int)])->Some_0);
        assert((k % (d.rows as int)) * d.cols + k / (d.rows as int) == j);
        assert(d.data[j] == cx_conj_c(t.data[(j % (t.rows as int)) * t.cols + j / (t.rows
            as int)])->Some_0);
        assert((j % (t.rows as int)) * t.cols + j / (t.rows as int) == k);
        let x = t.data[k];
        assert(cx_conj_c(x) is Some);
        let y = cx_conj_c(x)->Some_0;
        assert(cx_conj_c(y) is Some);
        assert(cx_conj_c(y)->Some_0 == x);
    }
    assert(dd.data =~= t.data);
    assert(dd =~= t);
}

/// A dense complex matrix: row-major entries and a (rows, cols) shape.
#[derive(Clone, Debug)]
pub struct Tensor {
    pub data: Vec<Cx>,
    pub rows: usize,
    pub cols: usize,
}

impl View for Tensor {
    type V = TensorV;

    open spec fn view(&self) -> TensorV {
        TensorV {
            rows: self.rows as nat,
            cols: self.cols as nat,
            data: self.data@.map_values(|c: Cx| c@),
        }
    }
}

impl Tensor {
    /// Constructs a tensor from row-major data; the caller guarantees that
    /// the data fills the shape exactly.
    pub fn new(data: Vec<Cx>, shape: (usize, usize)) -> (r: Tensor)
        requires
            shape.0 >= 1,
            shape.1 >= 1,
            data@.len() == shape.0 * shape.1,
            forall|k: int| 0 <= k < data@.len() ==> cx_ok(#[trigger] data@[k]),
        ensures
            tensor_wf_v(r@),
            r@ == (TensorV {
                rows: shape.0 as nat,
                cols: shape.1 as nat,
                data: data@.map_values(|c: Cx| c@),
            }),
    {
        let r = Tensor { data, rows: shape.0, cols: shape.1 };
        proof {
            assert(forall|k: int|
                0 <= k < r@.data.len() ==> cx_wf_v(#[trigger] r@.data[k])) by {
                assert(forall|k: int|
                    0 <= k < r@.data.len() ==> r@.data[k] == r.data@[k]@ && cx_ok(r.data@[k]));
            }
        }
        r
    }

    /// The n-by-n identity.
    pub fn eye(n: usize) -> (r: Tensor)
        requires
            n >= 1,
            n * n <= usize::MAX,
        ensures
            tensor_wf_v(r@),
            r@.rows == n,
            r@.cols == n,
            forall|i: int, j: int|
                0 <= i < n && 0 <= j < n ==> #[trigger] ent(r@, i, j) == if i == j {
                    cx_one_v()
                } else {
                    cx_zero_v()
                },
    {
        let mut data: Vec<Cx> = Vec::new();
        let mut i: usize = 0;
        while i < n
            invariant
                i <= n,
                n * n <= usize::MAX,
                data@.len() == i * n,
                forall|a: int, b: int|
                    0 <= a < i && 0 <= b < n ==> #[trigger] data@[a * n + b]@ == if a == b {
                        cx_one_v()
                    } else {
                        cx_zero_v()
                    },
                forall|k: int| 0 <= k < data@.len() ==> cx_ok(#[trigger] data@[k]),
            decreases n - i,
        {
            let mut j: usize = 0;
            proof {
                assert((i + 1) * n <= n * n) by (nonlinear_arith)
                    requires
                        0 <= i < n,
                ;
                assert(i * n + n == (i + 1) * n) by (nonlinear_arith);
            }
            while j < n
                invariant
                    i < n,
                    j <= n,
                    i * n + n <= usize::MAX,
                    data@.len() == i * n + j,
                    forall|a: int, b: int|
                        0 <= a < i && 0 <= b < n ==> #[trigger] data@[a * n + b]@ == if a == b {
                            cx_one_v()
                        } else {
                            cx_zero_v()
                        },
                    forall|b: int|
                        0 <= b < j ==> #[trigger] data@[i * n + b]@ == if i == b {
                            cx_one_v()
                        } else {
                            cx_zero_v()
                        },
                    forall|k: int| 0 <= k < data@.len() ==> cx_ok(#[trigger] data@[k]),
                decreases n - j,
            {
                if i == j {
                    data.push(Cx::one());
                } else {
                    data.push(Cx::zero());
                }
                j += 1;
                proof {
                    assert forall|a: int, b: int|
                        0 <= a < i && 0 <= b < n implies #[trigger] (a * n + b) < i * n by {
                        assert((a + 1) * n <= i * n && a * n + b < (a + 1) * n) by (nonlinear_arith)
                            requires
                                0 <= a < i,
                                n >= 1,
                                0 <= b < n,
                        ;
                    }
                }
            }
            i += 1;
        }
        let r = Tensor { data, rows: n, cols: n };
        proof {
            assert(r@.data.len() == n * n);
            assert forall|a: int, b: int|
                0 <= a < n && 0 <= b < n implies #[trigger] ent(r@, a, b) == (if a == b {
                cx_one_v()
            } else {
                cx_zero_v()
            }) by {
                assert(0 <= a * n + b < n * n) by (nonlinear_arith)
                    requires
                        0 <= a < n,
                        0 <= b < n,
                ;
            }
            assert(forall|k: int|
                0 <= k < r@.data.len() ==> cx_wf_v(#[trigger] r@.data[k])) by {
                assert(forall|k: int|
                    0 <= k < r@.data.len() ==> r@.data[k] == r.data@[k]@ && cx_ok(r.data@[k]));
            }
        }
        r
    }

    /// The (rows, cols) shape pair.
    pub fn shape(&self) -> (r: (usize, usize))
        ensures
            r.0 == self@.rows,
            r.1 == self@.cols,
    {
        (self.rows, self.cols)
    }

    /// The single entry of a 1-by-1 tensor; `None` for any other shape.
    pub fn item(&self) -> (r: Option<Cx>)
        requires
            tensor_wf_v(self@),
        ensures
            match r {
                Some(c) => self@.rows == 1 && self@.cols == 1 && c@ == self@.data[0] && cx_ok(c),
                None => !(self@.rows == 1 && self@.cols == 1),
            },
    {
        if self.rows == 1 && self.cols == 1 {
            proof {
                assert(self@.data.len() == self.data@.len());
                assert(self@.rows * self@.cols == 1) by (nonlinear_arith)
                    requires
                        self@.rows == 1,
                        self@.cols == 1,
                ;
                assert(self@.data[0] == self.data@[0]@);
                assert(cx_wf_v(self@.data[0]));
            }
            Some(self.data[0])
        } else {
            None
        }
    }

    /// The entry in row i, column j.
    pub fn index(&self, i: usize, j: usize) -> (r: Cx)
        requires
            tensor_wf_v(self@),
            i < self@.rows,
            j < self@.cols,
        ensures
            r@ == ent(self@, i as int, j as int),
            cx_ok(r),
    {
        let len = self.data.len();
        proof {
            assert(i * self@.cols + j < self@.rows * self@.cols) by (nonlinear_arith)
                requires
                    0 <= (i as int) < self@.rows,
                    0 <= (j as int) < self@.cols,
            ;
            assert(self@.data.len() == self.data@.len());
            let idx = i as int * self@.cols + j as int;
            assert(0 <= idx < self@.data.len());
            assert(self@.data[idx] == self.data@[idx]@);
            assert(cx_wf_v(self@.data[idx]));
        }
        self.data[j + i * self.cols]
    }
}

proof fn lemma_grid_index(i: int, j: int, rows: int, cols: int)
    requires
        0 <= i < rows,
        0 <= j < cols,
    ensures
        0 <= i * cols + j < rows * cols,
        rows * cols == cols * rows,
{
    assert(0 <= i * cols + j < rows * cols && rows * cols == cols * rows) by (nonlinear_arith)
        requires
            0 <= i < rows,
            0 <= j < cols,
    ;
}

proof fn lemma_divmod_split(k: int, rows: int, cols: int)
    requires
        0 <= k,
        rows >= 1,
        cols >= 1,
        k < rows * cols,
    ensures
        0 <= k / cols < rows,
        0 <= k % cols < cols,
        k == (k / cols) * cols + (k % cols),
{
    vstd::arithmetic::div_mod::lemma_fundamental_div_mod(k, cols);
    vstd::arithmetic::div_mod::lemma_mod_division_less_than_divisor(k, cols);
    assert(0 <= k / cols && k / cols < rows) by (nonlinear_arith)
        requires
            k == cols * (k / cols) + (k % cols),
            0 <= k % cols < cols,
            0 <= k < rows * cols,
            rows >= 1,
            cols >= 1,
    ;
    assert((k / cols) * cols == cols * (k / cols)) by (nonlinear_arith);
}

impl Tensor {
    /// A copy whose value is known to equal the original's.
    pub fn duplicate(&self) -> (r: Tensor)
        requires
            tensor_wf_v(self@),
        ensures
            tensor_wf_v(r@),
            r@ == self@,
    {
        let mut out: Vec<Cx> = Vec::new();
        let mut k: usize = 0;
        let len = self.data.len();
        while k < len
            invariant
                k <= len,
                len == self.data@.len(),
                out@.len() == k,
                forall|m: int| 0 <= m < k ==> #[trigger] out@[m] == self.data@[m],
            decreases len - k,
        {
            out.push(self.data[k]);
            k += 1;
        }
        let r = Tensor { data: out, rows: self.rows, cols: self.cols };
        proof {
            assert(r@.data =~= self@.data);
            assert(r@ =~= self@);
        }
        r
    }

    /// Elementwise sum; shapes must agree exactly.
    pub fn add(&self, rhs: &Tensor) -> (r: Result<Tensor, EvalError>)
        requires
            tensor_wf_v(self@),
            tensor_wf_v(rhs@),
        ensures
            match r {
                Ok(t) => tensor_wf_v(t@) && tensor_add_s(self@, rhs@) == Ok::<TensorV, EvalError>(
                    t@,
                ),
                Err(e) => tensor_add_s(self@, rhs@) == Err::<TensorV, EvalError>(e),
            },
    {
        if !(self.rows == rhs.rows && self.cols == rhs.cols) {
            return Err(EvalError::ShapeMismatch);
        }
        let len = self.data.len();
        proof {
            assert(self@.data.len() == self.data@.len());
            assert(rhs@.data.len() == rhs.data@.len());
        }
        let mut out: Vec<Cx> = Vec::new();
        let mut k: usize = 0;
        while k < len
            invariant
                k <= len,
                len == self.data@.len(),
                self@.data.len() == len,
                rhs@.data.len() == len,
                rhs.data@.len() == len,
                tensor_wf_v(self@),
                tensor_wf_v(rhs@),
                same_shape(self@, rhs@),
                out@.len() == k,
                forall|m: int|
                    0 <= m < k ==> (#[trigger] cx_add_c(self@.data[m], rhs@.data[m])) == Some(
                        out@[m]@,
                    ),
                forall|m: int| 0 <= m < k ==> cx_ok(#[trigger] out@[m]),
            decreases len - k,
        {
            proof {
                assert(self@.data[k as int] == self.data@[k as int]@);
                assert(rhs@.data[k as int] == rhs.data@[k as int]@);
                assert(cx_wf_v(self@.data[k as int]));
                assert(cx_wf_v(rhs@.data[k as int]));
            }
            match self.data[k].add(&rhs.data[k]) {
                Some(c) => {
                    out.push(c);
                },
                None => {
                    return Err(EvalError::Overflow);
                },
            }
            k += 1;
        }
        let r = Tensor { data: out, rows: self.rows, cols: self.cols };
        proof {
            assert(forall|m: int|
                0 <= m < len ==> (#[trigger] cx_add_c(self@.data[m], rhs@.data[m])) is Some);
            assert(tensor_add_s(self@, rhs@) is Ok);
            let spec_t = tensor_add_s(self@, rhs@)->Ok_0;
            assert forall|m: int| 0 <= m < len implies r@.data[m] == spec_t.data[m] by {
                assert(cx_add_c(self@.data[m], rhs@.data[m]) == Some(out@[m]@));
            }
            assert(r@ =~= spec_t);
        }
        Ok(r)
    }

    /// Elementwise difference; shapes must agree exactly.
    pub fn sub(&self, rhs: &Tensor) -> (r: Result<Tensor, EvalError>)
        requires
            tensor_wf_v(self@),
            tensor_wf_v(rhs@),
        ensures
            match r {
                Ok(t) => tensor_wf_v(t@) && tensor_sub_s(self@, rhs@) == Ok::<TensorV, EvalError>(
                    t@,
                ),
                Err(e) => tensor_sub_s(self@, rhs@) == Err::<TensorV, EvalError>(e),
            },
    {
        if !(self.rows == rhs.rows && self.cols == rhs.cols) {
            return Err(EvalError::ShapeMismatch);
        }
        let len = self.data.len();
        proof {
            assert(self@.data.len() == self.data@.len());
            assert(rhs@.data.len() == rhs.data@.len());
        }
        let mut out: Vec<Cx> = Vec::new();
        let mut k: usize = 0;
        while k < len
            invariant
                k <= len,
                len == self.data@.len(),
                self@.data.len() == len,
                rhs@.data.len() == len,
                rhs.data@.len() == len,
                tensor_wf_v(self@),
                tensor_wf_v(rhs@),
                same_shape(self@, rhs@),
                out@.len() == k,
                forall|m: int|
                    0 <= m < k ==> (#[trigger] cx_sub_c(self@.data[m], rhs@.data[m])) == Some(
                        out@[m]@,
                    ),
                forall|m: int| 0 <= m < k ==> cx_ok(#[trigger] out@[m]),
            decreases len - k,
        {
            proof {
                assert(self@.data[k as int] == self.data@[k as int]@);
                assert(rhs@.data[k as int] == rhs.data@[k as int]@);
                assert(cx_wf_v(self@.data[k as int]));
                assert(cx_wf_v(rhs@.data[k as int]));
            }
            match self.data[k].sub(&rhs.data[k]) {
                Some(c) => {
                    out.push(c);
                },
                None => {
                    return Err(EvalError::Overflow);
                },
            }
            k += 1;
        }
        let r = Tensor { data: out, rows: self.rows, cols: self.cols };
        proof {
            assert(forall|m: int|
                0 <= m < len ==> (#[trigger] cx_sub_c(self@.data[m], rhs@.data[m])) is Some);
            assert(tensor_sub_s(self@, rhs@) is Ok);
            let spec_t = tensor_sub_s(self@, rhs@)->Ok_0;
            assert forall|m: int| 0 <= m < len implies r@.data[m] == spec_t.data[m] by {
                assert(cx_sub_c(self@.data[m], rhs@.data[m]) == Some(out@[m]@));
            }
            assert(r@ =~= spec_t);
        }
        Ok(r)
    }

    /// Componentwise scaling by a complex scalar.
    pub fn scale(&self, c: &Cx) -> (r: Result<Tensor, EvalError>)
        requires
            tensor_wf_v(self@),
            cx_ok(*c),
        ensures
            match r {
                Ok(t) => tensor_wf_v(t@) && tensor_scale_s(self@, c@) == Ok::<TensorV, EvalError>(
                    t@,
                ),
                Err(e) => tensor_scale_s(self@, c@) == Err::<TensorV, EvalError>(e),
            },
    {
        let len = self.data.len();
        proof {
            assert(self@.data.len() == self.data@.len());
        }
        let mut out: Vec<Cx> = Vec::new();
        let mut k: usize = 0;
        while k < len
            invariant
                k <= len,
                len == self.data@.len(),
                self@.data.len() == len,
                tensor_wf_v(self@),
                cx_ok(*c),
                out@.len() == k,
                forall|m: int|
                    0 <= m < k ==> (#[trigger] cx_mul_c(self@.data[m], c@)) == Some(out@[m]@),
                forall|m: int| 0 <= m < k ==> cx_ok(#[trigger] out@[m]),
            decreases len - k,
        {
            proof {
                assert(self@.data[k as int] == self.data@[k as int]@);
                assert(cx_wf_v(self@.data[k as int]));
            }
            match self.data[k].mul(c) {
                Some(cc) => {
                    out.push(cc);
                },
                None => {
                    return Err(EvalError::Overflow);
                },
            }
            k += 1;
        }
        let r = Tensor { data: out, rows: self.rows, cols: self.cols };
        proof {
            assert(forall|m: int| 0 <= m < len ==> (#[trigger] cx_mul_c(self@.data[m], c@)) is Some);
            assert(tensor_scale_s(self@, c@) is Ok);
            let spec_t = tensor_scale_s(self@, c@)->Ok_0;
            assert forall|m: int| 0 <= m < len implies r@.data[m] == spec_t.data[m] by {
                assert(cx_mul_c(self@.data[m], c@) == Some(out@[m]@));
            }
            assert(r@ =~= spec_t);
        }
        Ok(r)
    }

    /// Conjugate transpose.
    pub fn dag(&self) -> (r: Result<Tensor, EvalError>)
        requires
            tensor_wf_v(self@),
        ensures
            match r {
                Ok(t) => tensor_wf_v(t@) && tensor_dag_s(self@) == Ok::<TensorV, EvalError>(t@),
                Err(e) => tensor_dag_s(self@) == Err::<TensorV, EvalError>(e),
            },
    {
        let rows = self.rows;
        let cols = self.cols;
        let mut out: Vec<Cx> = Vec::new();
        let mut jj: usize = 0;
        proof {
            assert(self@.data.len() == self.data@.len());
        }
        while jj < cols
            invariant
                jj <= cols,
                rows == self@.rows,
                cols == self@.cols,
                tensor_wf_v(self@),
                self@.data.len() == self.data@.len(),
                out@.len() == jj * rows,
                forall|idx: int|
                    0 <= idx < out@.len() ==> cx_conj_c(
                        self@.data[(idx % (rows as int)) * cols + idx / (rows as int)],
                    ) == Some(#[trigger] out@[idx]@),
                forall|m: int| 0 <= m < out@.len() ==> cx_ok(#[trigger] out@[m]),
            decreases cols - jj,
        {
            let mut ii: usize = 0;
            proof {
                assert(jj * rows + rows == (jj + 1) * rows && (jj + 1) * rows <= cols * rows)
                    by (nonlinear_arith)
                    requires
                        0 <= jj < cols,
                        rows >= 1,
                ;
                assert(cols * rows == rows * cols) by (nonlinear_arith);
            }
            while ii < rows
                invariant
                    ii <= rows,
                    jj < cols,
                    rows == self@.rows,
                    cols == self@.cols,
                    tensor_wf_v(self@),
                    self@.data.len() == self.data@.len(),
                    out@.len() == jj * rows + ii,
                    jj * rows + rows <= rows * cols,
                    forall|idx: int|
                        0 <= idx < out@.len() ==> cx_conj_c(
                            self@.data[(idx % (rows as int)) * cols + idx / (rows as int)],
                        ) == Some(#[trigger] out@[idx]@),
                    forall|m: int| 0 <= m < out@.len() ==> cx_ok(#[trigger] out@[m]),
                decreases rows - ii,
            {
                let c = self.index(ii, jj);
                match c.conj() {
                    Some(cc) => {
                        out.push(cc);
                        proof {
                            let idx0 = jj as int * rows + ii;
                            vstd::arithmetic::div_mod::lemma_fundamental_div_mod_converse(
                                idx0,
                                rows as int,
                                jj as int,
                                ii as int,
                            );
                            assert(out@[idx0]@ == cc@);
                            assert(cx_conj_c(self@.data[ii as int * cols + jj]) == Some(cc@));
                        }
                    },
                    None => {
                        proof {
                            lemma_grid_index(ii as int, jj as int, rows as int, cols as int);
                            assert(cx_conj_c(self@.data[ii as int * cols + jj]) is None);
                        }
                        return Err(EvalError::Overflow);
                    },
                }
                ii += 1;
            }
            jj += 1;
        }
        let r = Tensor { data: out, rows: cols, cols: rows };
        proof {
            assert(out@.len() == cols * rows);
            assert(cols * rows == rows * cols) by (nonlinear_arith);
            assert forall|k: int|
                0 <= k < self@.data.len() implies (#[trigger] cx_conj_c(self@.data[k])) is Some by {
                lemma_divmod_split(k, rows as int, cols as int);
                let i2 = k / (cols as int);
                let j2 = k % (cols as int);
                let idx0 = j2 * rows + i2;
                lemma_grid_index(j2, i2, cols as int, rows as int);
                lemma_grid_index(i2, j2, rows as int, cols as int);
                vstd::arithmetic::div_mod::lemma_fundamental_div_mod_converse(
                    idx0,
                    rows as int,
                    j2,
                    i2,
                );
                assert(cx_conj_c(self@.data[i2 * cols + j2]) == Some(out@[idx0]@));
            }
            assert(tensor_dag_s(self@) is Ok);
            assert forall|idx: int|
                0 <= idx < out@.len() implies r@.data[idx] == tensor_dag_s(
                self@,
            )->Ok_0.data[idx] by {
                assert(r@.data[idx] == out@[idx]@);
            }
            assert(r@ =~= tensor_dag_s(self@)->Ok_0);
        }
        Ok(r)
    }

    /// Division by a 1-by-1 tensor: every entry is divided by its single
    /// scalar.
    pub fn div(&self, rhs: &Tensor) -> (r: Result<Tensor, EvalError>)
        requires
            tensor_wf_v(self@),
            tensor_wf_v(rhs@),
        ensures
            match r {
                Ok(t) => tensor_wf_v(t@) && tensor_div_s(self@, rhs@) == Ok::<TensorV, EvalError>(
                    t@,
                ),
                Err(e) => tensor_div_s(self@, rhs@) == Err::<TensorV, EvalError>(e),
            },
    {
        if !(rhs.rows == 1 && rhs.cols == 1) {
            return Err(EvalError::ShapeMismatch);
        }
        proof {
            assert(rhs@.data.len() == rhs.data@.len());
            assert(rhs@.rows * rhs@.cols == 1) by (nonlinear_arith)
                requires
                    rhs@.rows == 1,
                    rhs@.cols == 1,
            ;
            assert(rhs@.data[0] == rhs.data@[0]@);
            assert(cx_wf_v(rhs@.data[0]));
        }
        let w = rhs.data[0];
        match self.div_entries(&w) {
            Ok(out) => {
                let r = Tensor { data: out, rows: self.rows, cols: self.cols };
                proof {
                    assert(tensor_div_s(self@, rhs@) is Ok);
                    assert(r@ =~= tensor_div_s(self@, rhs@)->Ok_0);
                }
                Ok(r)
            },
            Err(e) => Err(e),
        }
    }

    /// Every entry divided by one scalar, in order; used by division and by
    /// normalization.
    fn div_entries(&self, w: &Cx) -> (r: Result<Vec<Cx>, EvalError>)
        requires
            tensor_wf_v(self@),
            cx_ok(*w),
        ensures
            match r {
                Ok(v) => v@.len() == self@.data.len() && div_data_s(self@.data, w@) == Ok::<
                    Seq<CxV>,
                    EvalError,
                >(v@.map_values(|c: Cx| c@)) && (forall|m: int|
                    0 <= m < v@.len() ==> cx_ok(#[trigger] v@[m])),
                Err(e) => div_data_s(self@.data, w@) == Err::<Seq<CxV>, EvalError>(e),
            },
    {
        let len = self.data.len();
        proof {
            assert(self@.data.len() == self.data@.len());
        }
        let mut out: Vec<Cx> = Vec::new();
        let mut k: usize = 0;
        proof {
            assert(self@.data.take(0) =~= Seq::<CxV>::empty());
            assert(out@.map_values(|c: Cx| c@) =~= Seq::<CxV>::empty());
        }
        while k < len
            invariant
                k <= len,
                len == self.data@.len(),
                self@.data.len() == len,
                tensor_wf_v(self@),
                cx_ok(*w),
                out@.len() == k,
                div_data_s(self@.data.take(k as int), w@) == Ok::<Seq<CxV>, EvalError>(
                    out@.map_values(|c: Cx| c@),
                ),
                forall|m: int| 0 <= m < k ==> cx_ok(#[trigger] out@[m]),
            decreases len - k,
        {
            proof {
                assert(self@.data[k as int] == self.data@[k as int]@);
                assert(cx_wf_v(self@.data[k as int]));
                assert(self@.data.take(k as int + 1).drop_last() =~= self@.data.take(k as int));
                assert(self@.data.take(k as int + 1).last() == self@.data[k as int]);
            }
            let ghost out_old = out@;
            match self.data[k].div(w) {
                Ok(c) => {
                    out.push(c);
                    proof {
                        assert(out@ == out_old.push(c));
                        assert(out@.map_values(|c2: Cx| c2@) =~= out_old.map_values(
                            |c2: Cx| c2@,
                        ).push(c@));
                        assert(div_data_s(self@.data.take(k as int + 1), w@) == Ok::<
                            Seq<CxV>,
                            EvalError,
                        >(out@.map_values(|c2: Cx| c2@)));
                    }
                },
                Err(e) => {
                    proof {
                        assert(div_data_s(self@.data.take(k as int + 1), w@) == Err::<
                            Seq<CxV>,
                            EvalError,
                        >(e));
                        lemma_div_data_err(self@.data, w@, k as int + 1);
                    }
                    return Err(e);
                },
            }
            k += 1;
        }
        proof {
            assert(self@.data.take(len as int) =~= self@.data);
        }
        Ok(out)
    }

    /// Multiplication: a 1-by-1 operand scales the other; otherwise a matrix
    /// product with matching inner dimensions.
    pub fn mul(&self, rhs: &Tensor) -> (r: Result<Tensor, EvalError>)
        requires
            tensor_wf_v(self@),
            tensor_wf_v(rhs@),
        ensures
            match r {
                Ok(t) => tensor_wf_v(t@) && tensor_mul_s(self@, rhs@) == Ok::<TensorV, EvalError>(
                    t@,
                ),
                Err(e) => tensor_mul_s(self@, rhs@) == Err::<TensorV, EvalError>(e),
            },
    {
        if !(self.cols == rhs.rows || (self.rows == 1 && self.cols == 1) || (rhs.rows == 1
            && rhs.cols == 1)) {
            return Err(EvalError::ShapeMismatch);
        }
        if self.rows == 1 && self.cols == 1 {
            proof {
                assert(self@.data.len() == self.data@.len());
                assert(self@.rows * self@.cols == 1) by (nonlinear_arith)
                    requires
                        self@.rows == 1,
                        self@.cols == 1,
                ;
                assert(self@.data[0] == self.data@[0]@);
                assert(cx_wf_v(self@.data[0]));
            }
            let c = self.data[0];
            return rhs.scale(&c);
        }
        if rhs.rows == 1 && rhs.cols == 1 {
            proof {
                assert(rhs@.data.len() == rhs.data@.len());
                assert(rhs@.rows * rhs@.cols == 1) by (nonlinear_arith)
                    requires
                        rhs@.rows == 1,
                        rhs@.cols == 1,
                ;
                assert(rhs@.data[0] == rhs.data@[0]@);
                assert(cx_wf_v(rhs@.data[0]));
            }
            let c = rhs.data[0];
            return self.scale(&c);
        }
        let m = self.rows;
        let n = self.cols;
        let p = rhs.cols;
        let mut out: Vec<Cx> = Vec::new();
        let mut i: usize = 0;
        while i < m
            invariant
                i <= m,
                m == self@.rows,
                n == self@.cols,
                p == rhs@.cols,
                n == rhs@.rows,
                !(self@.rows == 1 && self@.cols == 1),
                !(rhs@.rows == 1 && rhs@.cols == 1),
                tensor_wf_v(self@),
                tensor_wf_v(rhs@),
                out@.len() == i * p,
                forall|idx: int|
                    0 <= idx < out@.len() ==> matmul_entry_c(
                        self@,
                        rhs@,
                        idx / (p as int),
                        idx % (p as int),
                        n as int,
                    ) == Some(#[trigger] out@[idx]@),
                forall|q: int| 0 <= q < out@.len() ==> cx_ok(#[trigger] out@[q]),
            decreases m - i,
        {
            let mut j: usize = 0;
            while j < p
                invariant
                    i < m,
                    j <= p,
                    m == self@.rows,
                    n == self@.cols,
                    p == rhs@.cols,
                    n == rhs@.rows,
                    !(self@.rows == 1 && self@.cols == 1),
                    !(rhs@.rows == 1 && rhs@.cols == 1),
                    tensor_wf_v(self@),
                    tensor_wf_v(rhs@),
                    out@.len() == i * p + j,
                    forall|idx: int|
                        0 <= idx < out@.len() ==> matmul_entry_c(
                            self@,
                            rhs@,
                            idx / (p as int),
                            idx % (p as int),
                            n as int,
                        ) == Some(#[trigger] out@[idx]@),
                    forall|q: int| 0 <= q < out@.len() ==> cx_ok(#[trigger] out@[q]),
                decreases p - j,
            {
                let mut acc = Cx::zero();
                let mut k: usize = 0;
                while k < n
                    invariant
                        i < m,
                        j < p,
                        k <= n,
                        m == self@.rows,
                        n == self@.cols,
                        p == rhs@.cols,
                        n == rhs@.rows,
                        !(self@.rows == 1 && self@.cols == 1),
                        !(rhs@.rows == 1 && rhs@.cols == 1),
                        tensor_wf_v(self@),
                        tensor_wf_v(rhs@),
                        matmul_entry_c(self@, rhs@, i as int, j as int, k as int) == Some(acc@),
                        cx_ok(acc),
                    decreases n - k,
                {
                    let pa = self.index(i, k);
                    let pb = rhs.index(k, j);
                    let pr = match pa.mul(&pb) {
                        Some(pr) => pr,
                        None => {
                            proof {
                                lemma_matmul_entry_none(
                                    self@,
                                    rhs@,
                                    i as int,
                                    j as int,
                                    k as int + 1,
                                    n as int,
                                );
                            }
                            return Err(EvalError::Overflow);
                        },
                    };
                    acc = match acc.add(&pr) {
                        Some(a2) => a2,
                        None => {
                            proof {
                                lemma_matmul_entry_none(
                                    self@,
                                    rhs@,
                                    i as int,
                                    j as int,
                                    k as int + 1,
                                    n as int,
                                );
                            }
                            return Err(EvalError::Overflow);
                        },
                    };
                    k += 1;
                }
                out.push(acc);
                proof {
                    let idx0 = i as int * (p as int) + j as int;
                    vstd::arithmetic::div_mod::lemma_fundamental_div_mod_converse(
                        idx0,
                        p as int,
                        i as int,
                        j as int,
                    );
                }
                j += 1;
            }
            proof {
                assert((i + 1) * p == i * p + p) by (nonlinear_arith);
            }
            i += 1;
        }
        let t = Tensor { data: out, rows: m, cols: p };
        proof {
            assert forall|i2: int, j2: int|
                0 <= i2 < self@.rows && 0 <= j2 < rhs@.cols implies (#[trigger] matmul_entry_c(
                self@,
                rhs@,
                i2,
                j2,
                self@.cols as int,
            )) is Some by {
                lemma_grid_index(i2, j2, m as int, p as int);
                let idx0 = i2 * (p as int) + j2;
                vstd::arithmetic::div_mod::lemma_fundamental_div_mod_converse(
                    idx0,
                    p as int,
                    i2,
                    j2,
                );
                assert(matmul_entry_c(
                    self@,
                    rhs@,
                    idx0 / (p as int),
                    idx0 % (p as int),
                    n as int,
                ) == Some(out@[idx0]@));
            }
            assert(tensor_matmul_s(self@, rhs@) is Ok);
            let spec_t = tensor_matmul_s(self@, rhs@)->Ok_0;
            assert forall|idx: int| 0 <= idx < out@.len() implies t@.data[idx] == spec_t.data[idx]
            by {
                assert(t@.data[idx] == out@[idx]@);
            }
            assert(t@ =~= spec_t);
            assert(forall|q: int|
                0 <= q < t@.data.len() ==> cx_wf_v(#[trigger] t@.data[q])) by {
                assert(forall|q: int|
                    0 <= q < t@.data.len() ==> t@.data[q] == out@[q]@ && cx_ok(out@[q]));
            }
        }
        Ok(t)
    }

    /// Kronecker product, with the index interleaving of [`kron_entry_c`].
    pub fn prod(&self, rhs: &Tensor) -> (r: Result<Tensor, EvalError>)
        requires
            tensor_wf_v(self@),
            tensor_wf_v(rhs@),
        ensures
            match r {
                Ok(t) => tensor_wf_v(t@) && tensor_kron_s(self@, rhs@) == Ok::<TensorV, EvalError>(
                    t@,
                ),
                Err(e) => tensor_kron_s(self@, rhs@) == Err::<TensorV, EvalError>(e),
            },
    {
        let rr = match self.rows.checked_mul(rhs.rows) {
            Some(v) => v,
            None => {
                return Err(EvalError::Overflow);
            },
        };
        let cc = match self.cols.checked_mul(rhs.cols) {
            Some(v) => v,
            None => {
                return Err(EvalError::Overflow);
            },
        };
        let _total = match rr.checked_mul(cc) {
            Some(v) => v,
            None => {
                return Err(EvalError::Overflow);
            },
        };
        let mut out: Vec<Cx> = Vec::new();
        let mut y: usize = 0;
        while y < rr
            invariant
                y <= rr,
                rr == self@.rows * rhs@.rows,
                cc == self@.cols * rhs@.cols,
                tensor_wf_v(self@),
                tensor_wf_v(rhs@),
                out@.len() == y * cc,
                forall|idx: int|
                    0 <= idx < out@.len() ==> kron_entry_c(self@, rhs@, idx) == Some(
                        #[trigger] out@[idx]@,
                    ),
                forall|q: int| 0 <= q < out@.len() ==> cx_ok(#[trigger] out@[q]),
            decreases rr - y,
        {
            let mut x: usize = 0;
            while x < cc
                invariant
                    y < rr,
                    x <= cc,
                    rr == self@.rows * rhs@.rows,
                    cc == self@.cols * rhs@.cols,
                    tensor_wf_v(self@),
                    tensor_wf_v(rhs@),
                    out@.len() == y * cc + x,
                    forall|idx: int|
                        0 <= idx < out@.len() ==> kron_entry_c(self@, rhs@, idx) == Some(
                            #[trigger] out@[idx]@,
                        ),
                    forall|q: int| 0 <= q < out@.len() ==> cx_ok(#[trigger] out@[q]),
                decreases cc - x,
            {
                proof {
                    lemma_divmod_split(y as int, self@.rows as int, rhs@.rows as int);
                    lemma_divmod_split(x as int, self@.cols as int, rhs@.cols as int);
                }
                let iy = y / rhs.rows;
                let ly = y % rhs.rows;
                let ix = x / rhs.cols;
                let kx = x % rhs.cols;
                let pa = self.index(iy, ix);
                let pb = rhs.index(ly, kx);
                match pa.mul(&pb) {
                    Some(c) => {
                        out.push(c);
                        proof {
                            let idx0 = y as int * (cc as int) + x as int;
                            vstd::arithmetic::div_mod::lemma_fundamental_div_mod_converse(
                                idx0,
                                cc as int,
                                y as int,
                                x as int,
                            );
                            assert(kron_entry_c(self@, rhs@, idx0) == Some(c@));
                        }
                    },
                    None => {
                        proof {
                            let idx0 = y as int * (cc as int) + x as int;
                            vstd::arithmetic::div_mod::lemma_fundamental_div_mod_converse(
                                idx0,
                                cc as int,
                                y as int,
                                x as int,
                            );
                            lemma_grid_index(y as int, x as int, rr as int, cc as int);
                            assert(kron_entry_c(self@, rhs@, idx0) is None);
                        }
                        return Err(EvalError::Overflow);
                    },
                }
                x += 1;
            }
            proof {
                assert((y + 1) * cc == y * cc + cc) by (nonlinear_arith);
            }
            y += 1;
        }
        let t = Tensor { data: out, rows: rr, cols: cc };
        proof {
            assert(rr >= 1 && cc >= 1) by (nonlinear_arith)
                requires
                    rr == self@.rows * rhs@.rows,
                    cc == self@.cols * rhs@.cols,
                    self@.rows >= 1,
                    self@.cols >= 1,
                    rhs@.rows >= 1,
                    rhs@.cols >= 1,
            ;
            assert(out@.len() == rr * cc) by (nonlinear_arith)
                requires
                    out@.len() == (rr as int) * (cc as int),
            ;
            assert forall|idx: int|
                0 <= idx < (self@.rows * rhs@.rows) * (self@.cols * rhs@.cols) implies (
            #[trigger] kron_entry_c(self@, rhs@, idx)) is Some by {
                assert(kron_entry_c(self@, rhs@, idx) == Some(out@[idx]@));
            }
            assert(tensor_kron_s(self@, rhs@) is Ok);
            let spec_t = tensor_kron_s(self@, rhs@)->Ok_0;
            assert forall|idx: int| 0 <= idx < out@.len() implies t@.data[idx] == spec_t.data[idx]
            by {
                assert(t@.data[idx] == out@[idx]@);
            }
            assert(t@ =~= spec_t);
            assert(forall|q: int|
                0 <= q < t@.data.len() ==> cx_wf_v(#[trigger] t@.data[q])) by {
                assert(forall|q: int|
                    0 <= q < t@.data.len() ==> t@.data[q] == out@[q]@ && cx_ok(out@[q]));
            }
        }
        Ok(t)
    }

    /// Unconjugated dot product: componentwise products of the row-major data
    /// summed over the shorter length.
    pub fn dot(&self, rhs: &Tensor) -> (r: Result<Cx, EvalError>)
        requires
            tensor_wf_v(self@),
            tensor_wf_v(rhs@),
        ensures
            match r {
                Ok(c) => cx_ok(c) && tensor_dot_s(self@, rhs@) == Some(c@),
                Err(e) => e == EvalError::Overflow && tensor_dot_s(self@, rhs@) is None,
            },
    {
        proof {
            assert(self@.data.len() == self.data@.len());
            assert(rhs@.data.len() == rhs.data@.len());
        }
        let n = if self.data.len() <= rhs.data.len() {
            self.data.len()
        } else {
            rhs.data.len()
        };
        let mut acc = Cx::zero();
        let mut k: usize = 0;
        while k < n
            invariant
                k <= n,
                n as int == min_len(self@, rhs@),
                self@.data.len() == self.data@.len(),
                rhs@.data.len() == rhs.data@.len(),
                tensor_wf_v(self@),
                tensor_wf_v(rhs@),
                dot_data_c(self@.data, rhs@.data, k as int) == Some(acc@),
                cx_ok(acc),
            decreases n - k,
        {
            proof {
                assert(self@.data[k as int] == self.data@[k as int]@);
                assert(rhs@.data[k as int] == rhs.data@[k as int]@);
                assert(cx_wf_v(self@.data[k as int]));
                assert(cx_wf_v(rhs@.data[k as int]));
            }
            let pr = match self.data[k].mul(&rhs.data[k]) {
                Some(p) => p,
                None => {
                    proof {
                        lemma_dot_data_none(
                            self@.data,
                            rhs@.data,
                            k as int + 1,
                            min_len(self@, rhs@),
                        );
                    }
                    return Err(EvalError::Overflow);
                },
            };
            acc = match acc.add(&pr) {
                Some(a2) => a2,
                None => {
                    proof {
                        lemma_dot_data_none(
                            self@.data,
                            rhs@.data,
                            k as int + 1,
                            min_len(self@, rhs@),
                        );
                    }
                    return Err(EvalError::Overflow);
                },
            };
            k += 1;
        }
        Ok(acc)
    }

    /// Sum of squared magnitudes of all entries.
    pub fn norm_sqr(&self) -> (r: Option<Q2>)
        requires
            tensor_wf_v(self@),
        ensures
            match r {
                Some(q) => q2_ok(q) && norm_sqr_data_c(self@.data) == Some(q@),
                None => norm_sqr_data_c(self@.data) is None,
            },
    {
        let len = self.data.len();
        proof {
            assert(self@.data.len() == self.data@.len());
            assert(self@.data.take(0) =~= Seq::<CxV>::empty());
        }
        let mut acc = Q2::zero();
        let mut k: usize = 0;
        while k < len
            invariant
                k <= len,
                len == self.data@.len(),
                self@.data.len() == len,
                tensor_wf_v(self@),
                norm_sqr_data_c(self@.data.take(k as int)) == Some(acc@),
                q2_ok(acc),
            decreases len - k,
        {
            proof {
                assert(self@.data[k as int] == self.data@[k as int]@);
                assert(cx_wf_v(self@.data[k as int]));
                assert(self@.data.take(k as int + 1).drop_last() =~= self@.data.take(k as int));
                assert(self@.data.take(k as int + 1).last() == self@.data[k as int]);
            }
            let m = match self.data[k].abs2() {
                Some(m) => m,
                None => {
                    proof {
                        lemma_norm_sqr_none(self@.data, k as int + 1);
                    }
                    return None;
                },
            };
            acc = match acc.add(&m) {
                Some(a2) => a2,
                None => {
                    proof {
                        lemma_norm_sqr_none(self@.data, k as int + 1);
                    }
                    return None;
                },
            };
            k += 1;
        }
        proof {
            assert(self@.data.take(len as int) =~= self@.data);
        }
        Some(acc)
    }

    /// The norm: the exact nonnegative square root of the squared-magnitude
    /// sum, when the scalar field holds one.
    pub fn norm(&self) -> (r: Result<Q2, EvalError>)
        requires
            tensor_wf_v(self@),
        ensures
            match r {
                Ok(q) => q2_ok(q) && q2_nonneg_v(q@) && tensor_norm_s(self@) == Ok::<
                    Q2V,
                    EvalError,
                >(q@) && (norm_sqr_data_c(self@.data) matches Some(ns) && q2_eq_v(
                    q2_mul_vv(q@, q@),
                    ns,
                )),
                Err(e) => tensor_norm_s(self@) == Err::<Q2V, EvalError>(e),
            },
    {
        let ns = match self.norm_sqr() {
            Some(ns) => ns,
            None => {
                return Err(EvalError::Overflow);
            },
        };
        match ns.sqrt() {
            Some(q) => Ok(q),
            None => Err(EvalError::InexactNorm),
        }
    }

    /// Scaling to unit norm: every entry divided by the norm.
    pub fn unit(&self) -> (r: Result<Tensor, EvalError>)
        requires
            tensor_wf_v(self@),
        ensures
            match r {
                Ok(t) => tensor_wf_v(t@) && tensor_unit_s(self@) == Ok::<TensorV, EvalError>(t@),
                Err(e) => tensor_unit_s(self@) == Err::<TensorV, EvalError>(e),
            },
    {
        let nq = match self.norm() {
            Ok(nq) => nq,
            Err(e) => {
                return Err(e);
            },
        };
        let w = Cx::from_q2(nq);
        match self.div_entries(&w) {
            Ok(out) => {
                let r = Tensor { data: out, rows: self.rows, cols: self.cols };
                proof {
                    assert(tensor_unit_s(self@) is Ok);
                    assert(r@ =~= tensor_unit_s(self@)->Ok_0);
                }
                Ok(r)
            },
            Err(e) => Err(e),
        }
    }

    /// The projector: self times its own conjugate transpose.
    pub fn proj(&self) -> (r: Result<Tensor, EvalError>)
        requires
            tensor_wf_v(self@),
        ensures
            match r {
                Ok(t) => tensor_wf_v(t@) && tensor_proj_s(self@) == Ok::<TensorV, EvalError>(t@),
                Err(e) => tensor_proj_s(self@) == Err::<TensorV, EvalError>(e),
            },
    {
        let d = match self.dag() {
            Ok(d) => d,
            Err(e) => {
                return Err(e);
            },
        };
        self.mul(&d)
    }

    /// The 2-by-2 identity with its value spelled out.
    fn eye2() -> (r: Tensor)
        ensures
            tensor_wf_v(r@),
            r@ == eye2_v(),
    {
        let r = Tensor::eye(2);
        proof {
            assert(r@.data.len() == 4);
            assert(ent(r@, 0, 0) == cx_one_v() && ent(r@, 0, 1) == cx_zero_v() && ent(r@, 1, 0)
                == cx_zero_v() && ent(r@, 1, 1) == cx_one_v());
            assert(r@.data[0] == cx_one_v() && r@.data[1] == cx_zero_v() && r@.data[2]
                == cx_zero_v() && r@.data[3] == cx_one_v());
            assert(r@.data =~= eye2_v().data);
            assert(r@ =~= eye2_v());
        }
        r
    }

    /// The n-fold Kronecker chain of 2-by-2 identities with self at position
    /// i.
    pub fn expand(&self, n: usize, i: usize) -> (r: Result<Tensor, EvalError>)
        requires
            tensor_wf_v(self@),
        ensures
            match r {
                Ok(t) => tensor_wf_v(t@) && tensor_expand_s(self@, n as int, i as int) == Ok::<
                    TensorV,
                    EvalError,
                >(t@),
                Err(e) => tensor_expand_s(self@, n as int, i as int) == Err::<TensorV, EvalError>(
                    e,
                ),
            },
    {
        let eye = Tensor::eye2();
        let mut product = if i == 0 {
            self.duplicate()
        } else {
            eye.duplicate()
        };
        let mut k: usize = 1;
        while k < n
            invariant
                1 <= k,
                n == 0 ==> k == 1,
                n >= 1 ==> k <= n,
                tensor_wf_v(self@),
                tensor_wf_v(eye@),
                eye@ == eye2_v(),
                tensor_wf_v(product@),
                expand_step_s(self@, i as int, k as int - 1) == Ok::<TensorV, EvalError>(product@),
            decreases n - k,
        {
            let f = if k == i {
                product.prod(self)
            } else {
                product.prod(&eye)
            };
            match f {
                Ok(p) => {
                    product = p;
                },
                Err(e) => {
                    proof {
                        assert(expand_step_s(self@, i as int, k as int) == Err::<
                            TensorV,
                            EvalError,
                        >(e));
                        if n >= 1 {
                            lemma_expand_step_err(self@, i as int, k as int, n as int - 1);
                        }
                    }
                    return Err(e);
                },
            }
            k += 1;
        }
        Ok(product)
    }
}

} // verus!
