//! Trace generation for one tensor addition gate.
//!
//! The trace has `2^log_size` rows, grouped into packed blocks of
//! `2^log_n_lanes` lanes. Row group `v` reads packed block `v mod p_x` of
//! each operand `x`, where `p_x` is the number of packed blocks that `x`
//! fills; lane `j` of a block is element `block * lanes + j` of the operand,
//! wrapping around past its end. Rows at or beyond the larger operand's
//! element count are padding and hold zero in all three columns.
use crate::field::{felt_add, m31_add};
use crate::tensor::{
    broadcastable, lemma_suffix_product_monotone, row_major_strides, Tensor,
};
use vstd::arithmetic::div_mod::{
    lemma_fundamental_div_mod, lemma_fundamental_div_mod_converse, lemma_mod_decreases,
};
use vstd::arithmetic::power2::{lemma_pow2_adds, pow2};
use vstd::bits::{lemma_usize_pow2_no_overflow, lemma_usize_shl_is_mul};
use vstd::prelude::*;

verus! {

/// Lane exponent of stwo's SIMD backend: one packed block holds 16 field elements.
pub const LOG_N_LANES: u32 = 4;

/// Row groups handled per chunk of the fill loop.
const CHUNK_SIZE: usize = 64;

/// Why no trace was produced.
#[derive(Clone, Copy, Debug, PartialEq, Eq)]
pub enum TraceError {
    /// The operand shapes cannot be broadcast together.
    ShapeMismatch,
    /// The trace is shorter than one packed block.
    SizeTooSmall,
}

/// The three wires of the addition gate, one field element per trace row.
#[derive(Clone, Debug)]
pub struct TraceColumns {
    pub left: Vec<u32>,
    pub right: Vec<u32>,
    pub sum: Vec<u32>,
}

/// Broadcast replication: row group `i` of an operand with `p` packed blocks reads block `i mod p`.
pub open spec fn spec_broadcast_index(i: int, p: int) -> int {
    i % p
}

/// Number of packed blocks of `lanes` elements needed to hold `n` elements.
pub open spec fn spec_packed_size(n: int, lanes: int) -> int {
    (n + lanes - 1) / lanes
}

/// Value that operand `x` contributes to trace row `row`.
pub open spec fn operand_at(x: Seq<u32>, row: int, lanes: int) -> u32 {
    let block = spec_broadcast_index(row / lanes, spec_packed_size(x.len() as int, lanes));
    x[(block * lanes + row % lanes) % (x.len() as int)]
}

/// Number of rows that hold data: the larger operand's element count.
pub open spec fn larger_size(a: Seq<u32>, b: Seq<u32>) -> int {
    if a.len() >= b.len() {
        a.len() as int
    } else {
        b.len() as int
    }
}

/// The left column of a trace of `n` rows.
pub open spec fn left_column(a: Seq<u32>, b: Seq<u32>, lanes: int, n: int) -> Seq<u32> {
    Seq::new(n as nat, |r: int| if r < larger_size(a, b) { operand_at(a, r, lanes) } else { 0 })
}

/// The right column of a trace of `n` rows.
pub open spec fn right_column(a: Seq<u32>, b: Seq<u32>, lanes: int, n: int) -> Seq<u32> {
    Seq::new(n as nat, |r: int| if r < larger_size(a, b) { operand_at(b, r, lanes) } else { 0 })
}

/// The sum column of a trace of `n` rows.
pub open spec fn sum_column(a: Seq<u32>, b: Seq<u32>, lanes: int, n: int) -> Seq<u32> {
    Seq::new(
        n as nat,
        |r: int|
            if r < larger_size(a, b) {
                felt_add(operand_at(a, r, lanes), operand_at(b, r, lanes))
            } else {
                0
            },
    )
}

/// Number of rows of a trace of `n` rows that hold data.
pub open spec fn data_rows(a: Seq<u32>, b: Seq<u32>, n: int) -> int {
    if n <= larger_size(a, b) {
        n
    } else {
        larger_size(a, b)
    }
}

/// Flattened data of the output tensor: the sums of the data rows, in row order.
pub open spec fn output_data(a: Seq<u32>, b: Seq<u32>, lanes: int, n: int) -> Seq<u32> {
    sum_column(a, b, lanes, n).take(data_rows(a, b, n))
}

/// Shape of the output tensor: that of the operand with more elements, `b`'s on a tie.
pub open spec fn output_dims(a: Tensor, b: Tensor) -> Seq<usize> {
    if a.data@.len() > b.data@.len() {
        a.dims@
    } else {
        b.dims@
    }
}

/// What a trace generation with lane exponent `log_n_lanes` and `2^log_size`
/// rows returns for operands `a` and `b`.
pub open spec fn trace_outcome(
    log_n_lanes: u32,
    log_size: u32,
    a: Tensor,
    b: Tensor,
    r: Result<(TraceColumns, Tensor), TraceError>,
) -> bool {
    let lanes = pow2(log_n_lanes as nat) as int;
    let n = pow2(log_size as nat) as int;
    match r {
        Ok((t, c)) => {
            &&& broadcastable(a.dims@, b.dims@)
            &&& log_n_lanes <= log_size
            &&& t.left@ == left_column(a.data@, b.data@, lanes, n)
            &&& t.right@ == right_column(a.data@, b.data@, lanes, n)
            &&& t.sum@ == sum_column(a.data@, b.data@, lanes, n)
            &&& c.data@ == output_data(a.data@, b.data@, lanes, n)
            &&& c.dims@ == output_dims(a, b)
            &&& c.stride@ == row_major_strides(c.dims@)
        },
        Err(TraceError::ShapeMismatch) => !broadcastable(a.dims@, b.dims@),
        Err(TraceError::SizeTooSmall) => broadcastable(a.dims@, b.dims@) && log_size
            < log_n_lanes,
    }
}

/// Packed block of an operand with `p` blocks that row group `i` reads.
pub fn broadcast_index(i: usize, p: usize) -> (r: usize)
    requires
        p > 0,
    ensures
        r == spec_broadcast_index(i as int, p as int),
{
    i % p
}

/// `2^e` as a `usize`.
fn pow2_usize(e: u32) -> (r: usize)
    requires
        e < usize::BITS,
    ensures
        r == pow2(e as nat),
        r > 0,
{
    proof {
        lemma_usize_pow2_no_overflow(e as nat);
        lemma_usize_shl_is_mul(1, e as usize);
    }
    1usize << (e as usize)
}

/// Number of packed blocks of `2^log_n_lanes` lanes needed to hold `n` elements.
pub fn packed_size(n: usize, log_n_lanes: u32) -> (r: usize)
    requires
        log_n_lanes < usize::BITS,
    ensures
        r == spec_packed_size(n as int, pow2(log_n_lanes as nat) as int),
{
    let lanes = pow2_usize(log_n_lanes);
    let q = n / lanes;
    let m = n % lanes;
    proof {
        let l = lanes as int;
        lemma_fundamental_div_mod(n as int, l);
        if m == 0 {
            lemma_fundamental_div_mod_converse(n + l - 1, l, q as int, l - 1);
        } else {
            assert((q + 1) * l == q * l + l) by (nonlinear_arith);
            assert(q < n) by (nonlinear_arith)
                requires
                    n == l * q + m,
                    m > 0,
                    l >= 1,
                    q >= 0,
            ;
            lemma_fundamental_div_mod_converse(n + l - 1, l, q + 1, m - 1);
        }
    }
    if m == 0 {
        q
    } else {
        q + 1
    }
}

/// `col` with every row from `row` on reset to zero.
pub open spec fn filled(col: Seq<u32>, row: int) -> Seq<u32> {
    Seq::new(col.len(), |k: int| if k < row { col[k] } else { 0 })
}

/// A column of `n` zeros.
fn zeros(n: usize) -> (v: Vec<u32>)
    ensures
        v@ == Seq::new(n as nat, |k: int| 0u32),
{
    let mut v: Vec<u32> = Vec::with_capacity(n);
    let mut i: usize = 0;
    while i < n
        invariant
            i <= n,
            v@ == Seq::new(i as nat, |k: int| 0u32),
        decreases n - i,
    {
        v.push(0);
        i = i + 1;
        assert(v@ =~= Seq::new(i as nat, |k: int| 0u32));
    }
    v
}

/// Fills the addition trace of `a` and `b` with `2^log_size` rows, packed
/// in blocks of `2^log_n_lanes` lanes, and assembles the output tensor.
pub fn generate_trace_with_lanes(log_n_lanes: u32, log_size: u32, a: Tensor, b: Tensor) -> (r:
    Result<(TraceColumns, Tensor), TraceError>)
    requires
        a.wf(),
        b.wf(),
        log_size < usize::BITS,
    ensures
        trace_outcome(log_n_lanes, log_size, a, b, r),
{
    if !a.is_broadcastable_with(&b) {
        return Err(TraceError::ShapeMismatch);
    }
    if log_size < log_n_lanes {
        return Err(TraceError::SizeTooSmall);
    }
    let ghost ad = a.data@;
    let ghost bd = b.data@;
    let a_size = a.size();
    let b_size = b.size();
    proof {
        lemma_suffix_product_monotone(a.dims@, 0, 0);
        lemma_suffix_product_monotone(b.dims@, 0, 0);
    }
    let max_size = if a_size >= b_size {
        a_size
    } else {
        b_size
    };

    let trace_size = pow2_usize(log_size);
    let lanes = pow2_usize(log_n_lanes);
    let n_rows = pow2_usize(log_size - log_n_lanes);
    proof {
        lemma_pow2_adds((log_size - log_n_lanes) as nat, log_n_lanes as nat);
    }
    let ghost l = lanes as int;
    let ghost n = trace_size as int;

    let mut left = zeros(trace_size);
    let mut right = zeros(trace_size);
    let mut sum = zeros(trace_size);
    let mut c_data: Vec<u32> = Vec::new();
    let a_packed = packed_size(a_size, log_n_lanes);
    let b_packed = packed_size(b_size, log_n_lanes);
    proof {
        lemma_fundamental_div_mod(a_size + l - 1, l);
        lemma_fundamental_div_mod(b_size + l - 1, l);
        assert(a_packed > 0) by (nonlinear_arith)
            requires
                a_size + l - 1 == l * a_packed + (a_size + l - 1) % l,
                0 <= (a_size + l - 1) % l < l,
                a_size >= 1,
        ;
        assert(b_packed > 0) by (nonlinear_arith)
            requires
                b_size + l - 1 == l * b_packed + (b_size + l - 1) % l,
                0 <= (b_size + l - 1) % l < l,
                b_size >= 1,
        ;
        assert(filled(left_column(ad, bd, l, n), 0) =~= left@);
        assert(filled(right_column(ad, bd, l, n), 0) =~= right@);
        assert(filled(sum_column(ad, bd, l, n), 0) =~= sum@);
        assert(c_data@ =~= sum_column(ad, bd, l, n).take(0));
    }

    let mut row: usize = 0;
    let mut chunk: usize = 0;
    while chunk < n_rows
        invariant
            chunk <= n_rows,
            n_rows * l == n,
            row == chunk * l,
            l == lanes,
            l > 0,
            n == trace_size,
            a.wf(),
            b.wf(),
            ad == a.data@,
            bd == b.data@,
            a_size == ad.len(),
            b_size == bd.len(),
            a_size >= 1,
            b_size >= 1,
            max_size == larger_size(ad, bd),
            a_packed == spec_packed_size(a_size as int, l),
            b_packed == spec_packed_size(b_size as int, l),
            a_packed > 0,
            b_packed > 0,
            left@ == filled(left_column(ad, bd, l, n), row as int),
            right@ == filled(right_column(ad, bd, l, n), row as int),
            sum@ == filled(sum_column(ad, bd, l, n), row as int),
            c_data@ == sum_column(ad, bd, l, n).take(data_rows(ad, bd, row as int)),
        decreases n_rows - chunk,
    {
        let end = if n_rows - chunk > CHUNK_SIZE {
            chunk + CHUNK_SIZE
        } else {
            n_rows
        };
        let mut v = chunk;
        while v < end
            invariant
                chunk <= v <= end <= n_rows,
                n_rows * l == n,
                row == v * l,
                l == lanes,
                l > 0,
                n == trace_size,
                a.wf(),
                b.wf(),
                ad == a.data@,
                bd == b.data@,
                a_size == ad.len(),
                b_size == bd.len(),
                a_size >= 1,
                b_size >= 1,
                max_size == larger_size(ad, bd),
                a_packed == spec_packed_size(a_size as int, l),
                b_packed == spec_packed_size(b_size as int, l),
                a_packed > 0,
                b_packed > 0,
                left@ == filled(left_column(ad, bd, l, n), row as int),
                right@ == filled(right_column(ad, bd, l, n), row as int),
                sum@ == filled(sum_column(ad, bd, l, n), row as int),
                c_data@ == sum_column(ad, bd, l, n).take(data_rows(ad, bd, row as int)),
            decreases end - v,
        {
            proof {
                assert(v * l + l <= n) by (nonlinear_arith)
                    requires
                        v < n_rows,
                        n_rows * l == n,
                        l > 0,
                ;
                lemma_mod_decreases(v as nat, a_packed as nat);
                lemma_mod_decreases(v as nat, b_packed as nat);
                assert((v % a_packed) * l <= v * l) by (nonlinear_arith)
                    requires
                        v % a_packed <= v,
                        l > 0,
                ;
                assert((v % b_packed) * l <= v * l) by (nonlinear_arith)
                    requires
                        v % b_packed <= v,
                        l > 0,
                ;
            }
            let a_base = broadcast_index(v, a_packed) * lanes;
            let b_base = broadcast_index(v, b_packed) * lanes;
            let mut j: usize = 0;
            while j < lanes
                invariant
                    j <= l,
                    row == v * l + j,
                    v * l + l <= n,
                    a_base == (v % a_packed) * l,
                    b_base == (v % b_packed) * l,
                    a_base <= v * l,
                    b_base <= v * l,
                    l == lanes,
                    l > 0,
                    n == trace_size,
                    a.wf(),
                    b.wf(),
                    ad == a.data@,
                    bd == b.data@,
                    a_size == ad.len(),
                    b_size == bd.len(),
                    a_size >= 1,
                    b_size >= 1,
                    max_size == larger_size(ad, bd),
                    a_packed == spec_packed_size(a_size as int, l),
                    b_packed == spec_packed_size(b_size as int, l),
                    a_packed > 0,
                    b_packed > 0,
                    left@ == filled(left_column(ad, bd, l, n), row as int),
                    right@ == filled(right_column(ad, bd, l, n), row as int),
                    sum@ == filled(sum_column(ad, bd, l, n), row as int),
                    c_data@ == sum_column(ad, bd, l, n).take(data_rows(ad, bd, row as int)),
                decreases l - j,
            {
                proof {
                    lemma_fundamental_div_mod_converse(row as int, l, v as int, j as int);
                }
                if row < max_size {
                    let x = a.data[(a_base + j) % a_size];
                    let y = b.data[(b_base + j) % b_size];
                    let s = m31_add(x, y);
                    proof {
                        assert(x == operand_at(ad, row as int, l));
                        assert(y == operand_at(bd, row as int, l));
                    }
                    left.set(row, x);
                    right.set(row, y);
                    sum.set(row, s);
                    c_data.push(s);
                }
                proof {
                    assert(left@ =~= filled(left_column(ad, bd, l, n), row + 1));
                    assert(right@ =~= filled(right_column(ad, bd, l, n), row + 1));
                    assert(sum@ =~= filled(sum_column(ad, bd, l, n), row + 1));
                    assert(c_data@ =~= sum_column(ad, bd, l, n).take(
                        data_rows(ad, bd, row + 1),
                    ));
                }
                row = row + 1;
                j = j + 1;
            }
            proof {
                assert((v + 1) * l == v * l + l) by (nonlinear_arith);
            }
            v = v + 1;
        }
        chunk = end;
    }
    proof {
        assert(left@ =~= left_column(ad, bd, l, n));
        assert(right@ =~= right_column(ad, bd, l, n));
        assert(sum@ =~= sum_column(ad, bd, l, n));
        assert(c_data@ =~= output_data(ad, bd, l, n));
    }

    let dims = if a_size > b_size {
        a.dims
    } else {
        b.dims
    };
    let stride = Tensor::compute_stride(&dims);
    let c = Tensor { data: c_data, dims, stride };
    Ok((TraceColumns { left, right, sum }, c))
}

/// [`generate_trace_with_lanes`] with the lane width of stwo's SIMD backend.
pub fn generate_trace(log_size: u32, a: Tensor, b: Tensor) -> (r: Result<
    (TraceColumns, Tensor),
    TraceError,
>)
    requires
        a.wf(),
        b.wf(),
        log_size < usize::BITS,
    ensures
        trace_outcome(LOG_N_LANES, log_size, a, b, r),
{
    generate_trace_with_lanes(LOG_N_LANES, log_size, a, b)
}

} // verus!
