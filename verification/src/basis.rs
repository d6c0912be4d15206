//! The basis decoder: single basis characters become 2-element kets, and a
//! basis string becomes the Kronecker product of its characters' kets, left
//! to right.

use crate::errors::EvalError;
use crate::rational::{Rat, RatV};
use crate::scalar::{cx_one_v, cx_zero_v, q2_zero_v, Cx, CxV, Q2, Q2V};
use crate::tensor::{tensor_kron_s, tensor_wf_v, Tensor, TensorV};
use vstd::prelude::*;

verus! {

/// The ket 1/sqrt(2) * [1, 1]: both amplitudes are (1/2) sqrt(2).
pub open spec fn half_sqrt2_v() -> CxV {
    CxV { re: Q2V { a: RatV { n: 0, d: 1 }, b: RatV { n: 1, d: 2 } }, im: q2_zero_v() }
}

/// The amplitude -(1/2) sqrt(2) * i.
pub open spec fn neg_half_sqrt2_i_v() -> CxV {
    CxV { re: q2_zero_v(), im: Q2V { a: RatV { n: 0, d: 1 }, b: RatV { n: -1, d: 2 } } }
}

/// Converts some value to a tensor, with its decode table stated in specs.
pub trait AsTensor {
    /// The values the decoder accepts.
    spec fn decodable(&self) -> bool;

    /// The decoded tensor value.
    spec fn decoded(&self) -> TensorV;

    fn as_tensor(&self) -> (r: Tensor)
        requires
            self.decodable(),
        ensures
            tensor_wf_v(r@),
            r@ == self.decoded(),
    ;
}

impl AsTensor for char {
    /// The basis alphabet: 0, 1, +, -.
    open spec fn decodable(&self) -> bool {
        *self == '0' || *self == '1' || *self == '+' || *self == '-'
    }

    /// '0' is [1, 0]; '1' is [0, 1]; '+' is [1, 1] scaled to unit norm; '-'
    /// is [1, -i] scaled to unit norm. All are kets of shape (2, 1).
    open spec fn decoded(&self) -> TensorV {
        if *self == '0' {
            TensorV { rows: 2, cols: 1, data: seq![cx_one_v(), cx_zero_v()] }
        } else if *self == '1' {
            TensorV { rows: 2, cols: 1, data: seq![cx_zero_v(), cx_one_v()] }
        } else if *self == '+' {
            TensorV { rows: 2, cols: 1, data: seq![half_sqrt2_v(), half_sqrt2_v()] }
        } else {
            TensorV { rows: 2, cols: 1, data: seq![half_sqrt2_v(), neg_half_sqrt2_i_v()] }
        }
    }

    fn as_tensor(&self) -> (r: Tensor)
    {
        let mut data: Vec<Cx> = Vec::new();
        if *self == '0' {
            data.push(Cx::one());
            data.push(Cx::zero());
        } else if *self == '1' {
            data.push(Cx::zero());
            data.push(Cx::one());
        } else if *self == '+' {
            data.push(Cx::half_sqrt2());
            data.push(Cx::half_sqrt2());
        } else {
            data.push(Cx::half_sqrt2());
            data.push(Cx::neg_half_sqrt2_i());
        }
        let r = Tensor::new(data, (2, 1));
        proof {
            assert(r@.data =~= self.decoded().data);
            assert(r@ =~= self.decoded());
        }
        r
    }
}

/// The left Kronecker fold over the first k tensors of a sequence.
pub open spec fn kron_fold_s(ts: Seq<TensorV>, k: int) -> Result<TensorV, EvalError>
    decreases k,
{
    if k <= 1 {
        Ok(ts[0])
    } else {
        match kron_fold_s(ts, k - 1) {
            Err(e) => Err(e),
            Ok(p) => tensor_kron_s(p, ts[k - 1]),
        }
    }
}

proof fn lemma_kron_fold_err(ts: Seq<TensorV>, k: int, n: int)
    requires
        1 <= k <= n,
        kron_fold_s(ts, k) is Err,
    ensures
        kron_fold_s(ts, n) == kron_fold_s(ts, k),
    decreases n - k,
{
    if k < n {
        lemma_kron_fold_err(ts, k, n - 1);
    }
}

/// Kronecker-reduces a nonempty collection of tensors, left to right.
pub trait KroneckerProduct {
    /// The collection is nonempty and holds well-formed tensors.
    spec fn kron_wf(&self) -> bool;

    /// The left fold of the Kronecker product over the collection.
    spec fn kron_spec(&self) -> Result<TensorV, EvalError>;

    fn prod(&self) -> (r: Result<Tensor, EvalError>)
        requires
            self.kron_wf(),
        ensures
            match r {
                Ok(t) => tensor_wf_v(t@) && self.kron_spec() == Ok::<TensorV, EvalError>(t@),
                Err(e) => self.kron_spec() == Err::<TensorV, EvalError>(e),
            },
    ;
}

impl KroneckerProduct for Vec<Tensor> {
    open spec fn kron_wf(&self) -> bool {
        self@.len() >= 1 && (forall|m: int| 0 <= m < self@.len() ==> tensor_wf_v(#[trigger] self@[m]@))
    }

    open spec fn kron_spec(&self) -> Result<TensorV, EvalError> {
        kron_fold_s(self@.map_values(|t: Tensor| t@), self@.len() as int)
    }

    fn prod(&self) -> (r: Result<Tensor, EvalError>)
    {
        let len = self.len();
        let mut product = self[0].duplicate();
        let mut k: usize = 1;
        while k < len
            invariant
                1 <= k <= len,
                len == self@.len(),
                forall|m: int| 0 <= m < self@.len() ==> tensor_wf_v(#[trigger] self@[m]@),
                tensor_wf_v(product@),
                kron_fold_s(self@.map_values(|t: Tensor| t@), k as int) == Ok::<
                    TensorV,
                    EvalError,
                >(product@),
            decreases len - k,
        {
            match product.prod(&self[k]) {
                Ok(p) => {
                    product = p;
                },
                Err(e) => {
                    proof {
                        let ts = self@.map_values(|t: Tensor| t@);
                        assert(ts[k as int] == self@[k as int]@);
                        assert(kron_fold_s(ts, k as int + 1) == Err::<TensorV, EvalError>(e));
                        lemma_kron_fold_err(ts, k as int + 1, len as int);
                    }
                    return Err(e);
                },
            }
            k += 1;
        }
        Ok(product)
    }
}

/// The value of a decoded basis string: the Kronecker fold of its characters'
/// kets, left to right.
pub open spec fn tensor_basis_s(s: Seq<char>) -> Result<TensorV, EvalError> {
    kron_fold_s(s.map_values(|c: char| c.decoded()), s.len() as int)
}

/// Builds the composite ket of the basis characters cs[lo..hi].
pub fn tensor_basis(cs: &Vec<char>, lo: usize, hi: usize) -> (r: Result<Tensor, EvalError>)
    requires
        lo < hi <= cs@.len(),
        forall|m: int| lo <= m < hi ==> (#[trigger] cs@[m]).decodable(),
    ensures
        match r {
            Ok(t) => tensor_wf_v(t@) && tensor_basis_s(cs@.subrange(lo as int, hi as int)) == Ok::<
                TensorV,
                EvalError,
            >(t@),
            Err(e) => tensor_basis_s(cs@.subrange(lo as int, hi as int)) == Err::<
                TensorV,
                EvalError,
            >(e),
        },
{
    let mut ts: Vec<Tensor> = Vec::new();
    let mut k: usize = lo;
    while k < hi
        invariant
            lo <= k <= hi,
            hi <= cs@.len(),
            forall|m: int| lo <= m < hi ==> (#[trigger] cs@[m]).decodable(),
            ts@.len() == k - lo,
            forall|m: int|
                0 <= m < ts@.len() ==> tensor_wf_v(#[trigger] ts@[m]@) && ts@[m]@ == cs@[lo
                    + m].decoded(),
        decreases hi - k,
    {
        ts.push(cs[k].as_tensor());
        k += 1;
    }
    proof {
        assert(ts@.map_values(|t: Tensor| t@) =~= cs@.subrange(lo as int, hi as int).map_values(
            |c: char| c.decoded(),
        ));
        assert(ts.kron_spec() == tensor_basis_s(cs@.subrange(lo as int, hi as int)));
    }
    ts.prod()
}

} // verus!
