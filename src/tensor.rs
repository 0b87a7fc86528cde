//! Tensors: flattened row-major data with shape and stride metadata.
use crate::field::{is_felt, MODULUS};
use vstd::prelude::*;

verus! {

/// Product of `dims[i..]`: the number of elements spanned by one step along axis `i - 1`.
pub open spec fn suffix_product(dims: Seq<usize>, i: int) -> nat
    decreases dims.len() - i,
{
    if i >= dims.len() || i < 0 {
        1
    } else {
        dims[i] as nat * suffix_product(dims, i + 1)
    }
}

/// Number of elements of a tensor with these dims.
pub open spec fn dims_product(dims: Seq<usize>) -> nat {
    suffix_product(dims, 0)
}

/// Every axis length is positive.
pub open spec fn dims_positive(dims: Seq<usize>) -> bool {
    forall|i: int| 0 <= i < dims.len() ==> dims[i] > 0
}

/// Row-major contiguous strides: the stride of axis `i` is the product of the later axes.
pub open spec fn row_major_strides(dims: Seq<usize>) -> Seq<usize> {
    Seq::new(dims.len(), |i: int| suffix_product(dims, i + 1) as usize)
}

/// Two axis lengths can be broadcast together.
pub open spec fn axes_compatible(m: usize, n: usize) -> bool {
    m == n || m == 1 || n == 1
}

/// Standard broadcasting rule: aligned from the trailing axis, each pair of
/// axis lengths is equal or one of them is 1; extra leading axes are free.
pub open spec fn broadcastable(x: Seq<usize>, y: Seq<usize>) -> bool {
    forall|k: int|
        0 <= k < x.len() && 0 <= k < y.len() ==> axes_compatible(
            #[trigger] x[x.len() - 1 - k],
            y[y.len() - 1 - k],
        )
}

/// Later suffixes of positive dims span no more elements than earlier ones.
pub proof fn lemma_suffix_product_monotone(dims: Seq<usize>, i: int, j: int)
    requires
        dims_positive(dims),
        0 <= i <= j,
    ensures
        suffix_product(dims, j) <= suffix_product(dims, i),
        suffix_product(dims, i) >= 1,
    decreases dims.len() - i,
{
    if i >= dims.len() {
        assert(suffix_product(dims, j) == 1);
    } else {
        lemma_suffix_product_monotone(dims, i + 1, if j > i { j } else { i + 1 });
        let rest = suffix_product(dims, i + 1);
        assert(suffix_product(dims, i) == dims[i] as nat * rest);
        assert(dims[i] as nat * rest >= rest) by (nonlinear_arith)
            requires
                dims[i] >= 1,
        ;
    }
}

/// An n-dimensional array of field elements stored flat in row-major order.
#[derive(Clone, Debug)]
pub struct Tensor {
    pub data: Vec<u32>,
    pub dims: Vec<usize>,
    pub stride: Vec<usize>,
}

impl Tensor {
    /// A well-formed tensor: positive axis lengths, strides derived from the
    /// dims, data holding exactly one field element per position.
    pub open spec fn wf(&self) -> bool {
        &&& dims_positive(self.dims@)
        &&& self.stride@ == row_major_strides(self.dims@)
        &&& self.data@.len() == dims_product(self.dims@)
        &&& forall|i: int| 0 <= i < self.data@.len() ==> is_felt(#[trigger] self.data@[i])
    }

    /// Builds a tensor from its flattened data and dims, deriving the strides.
    pub fn new(data: Vec<u32>, dims: Vec<usize>) -> (t: Tensor)
        requires
            dims_positive(dims@),
            data@.len() == dims_product(dims@),
            forall|i: int| 0 <= i < data@.len() ==> is_felt(#[trigger] data@[i]),
        ensures
            t.wf(),
            t.data@ == data@,
            t.dims@ == dims@,
    {
        // the element count is a vector length, so it fits in usize
        let len = data.len();
        assert(dims_product(dims@) == len);
        let stride = Tensor::compute_stride(&dims);
        Tensor { data, dims, stride }
    }

    /// Row-major strides of a tensor with the given dims.
    pub fn compute_stride(dims: &Vec<usize>) -> (stride: Vec<usize>)
        requires
            dims_positive(dims@),
            dims_product(dims@) <= usize::MAX,
        ensures
            stride@ == row_major_strides(dims@),
    {
        let n = dims.len();
        let mut stride: Vec<usize> = Vec::with_capacity(n);
        let mut k: usize = 0;
        while k < n
            invariant
                k <= n,
                n == dims@.len(),
                stride@.len() == k,
                forall|i: int| 0 <= i < k ==> stride@[i] == 1,
            decreases n - k,
        {
            stride.push(1);
            k = k + 1;
        }
        let mut acc: usize = 1;
        let mut i: usize = n;
        while i > 0
            invariant
                i <= n,
                n == dims@.len(),
                stride@.len() == n,
                dims_positive(dims@),
                dims_product(dims@) <= usize::MAX,
                acc as nat == suffix_product(dims@, i as int),
                forall|j: int| i <= j < n ==> stride@[j] == suffix_product(dims@, j + 1),
            decreases i,
        {
            i = i - 1;
            stride.set(i, acc);
            proof {
                lemma_suffix_product_monotone(dims@, 0, i as int);
                assert(suffix_product(dims@, i as int) == dims@[i as int] as nat * acc);
            }
            acc = acc * dims[i];
        }
        assert(stride@ =~= row_major_strides(dims@));
        stride
    }

    /// Flattened element count.
    pub fn size(&self) -> (r: usize)
        ensures
            r == self.data@.len(),
    {
        self.data.len()
    }

    /// Whether the two shapes obey the broadcasting rule.
    pub fn is_broadcastable_with(&self, other: &Tensor) -> (r: bool)
        ensures
            r == broadcastable(self.dims@, other.dims@),
    {
        let xl = self.dims.len();
        let yl = other.dims.len();
        let mut k: usize = 0;
        while k < xl && k < yl
            invariant
                xl == self.dims@.len(),
                yl == other.dims@.len(),
                k <= xl,
                k <= yl,
                forall|q: int|
                    0 <= q < k ==> axes_compatible(
                        #[trigger] self.dims@[xl - 1 - q],
                        other.dims@[yl - 1 - q],
                    ),
            decreases xl - k,
        {
            let m = self.dims[xl - 1 - k];
            let n = other.dims[yl - 1 - k];
            if !(m == n || m == 1 || n == 1) {
                assert(!axes_compatible(self.dims@[xl - 1 - k], other.dims@[yl - 1 - k]));
                return false;
            }
            k = k + 1;
        }
        true
    }

    /// Whether the tensor is well formed, for callers that cannot prove it.
    pub fn is_well_formed(&self) -> (r: bool)
        ensures
            r == self.wf(),
    {
        let nd = self.dims.len();
        let mut k: usize = 0;
        while k < nd
            invariant
                nd == self.dims@.len(),
                k <= nd,
                forall|i: int| 0 <= i < k ==> self.dims@[i] > 0,
            decreases nd - k,
        {
            if self.dims[k] == 0 {
                return false;
            }
            k = k + 1;
        }
        let len = self.data.len();
        let mut acc: usize = 1;
        let mut i: usize = nd;
        while i > 0
            invariant
                i <= nd,
                nd == self.dims@.len(),
                len == self.data@.len(),
                dims_positive(self.dims@),
                acc as nat == suffix_product(self.dims@, i as int),
            decreases i,
        {
            i = i - 1;
            proof {
                lemma_suffix_product_monotone(self.dims@, 0, i as int);
                assert(suffix_product(self.dims@, i as int) == self.dims@[i as int] as nat * acc);
            }
            match acc.checked_mul(self.dims[i]) {
                Some(p) => {
                    acc = p;
                },
                None => {
                    return false;
                },
            }
        }
        if acc != len {
            return false;
        }
        let expected = Tensor::compute_stride(&self.dims);
        if self.stride.len() != nd {
            return false;
        }
        let mut j: usize = 0;
        while j < nd
            invariant
                j <= nd,
                nd == self.dims@.len(),
                nd == self.stride@.len(),
                expected@ == row_major_strides(self.dims@),
                forall|q: int| 0 <= q < j ==> self.stride@[q] == expected@[q],
            decreases nd - j,
        {
            if self.stride[j] != expected[j] {
                return false;
            }
            j = j + 1;
        }
        assert(self.stride@ =~= row_major_strides(self.dims@));
        let mut m: usize = 0;
        while m < len
            invariant
                m <= len,
                len == self.data@.len(),
                forall|q: int| 0 <= q < m ==> is_felt(#[trigger] self.data@[q]),
            decreases len - m,
        {
            if self.data[m] >= MODULUS {
                return false;
            }
            m = m + 1;
        }
        true
    }
}

} // verus!
