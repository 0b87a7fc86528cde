//! Properties of generated traces, proved from the contract of trace generation.
use crate::field::felt_add;
use crate::tensor::{lemma_suffix_product_monotone, Tensor};
use crate::trace::{
    larger_size, operand_at, spec_broadcast_index, spec_packed_size, trace_outcome, TraceColumns, TraceError,
};
use vstd::arithmetic::div_mod::{
    lemma_fundamental_div_mod, lemma_fundamental_div_mod_converse, lemma_mod_breakdown, lemma_mod_decreases, lemma_mod_twice,
};
use vstd::arithmetic::power2::{lemma_pow2_pos, pow2};
use vstd::prelude::*;

verus! {

/// Two outcomes of trace generation hold the same errors, columns and output tensor.
pub open spec fn same_outcome(
    r1: Result<(TraceColumns, Tensor), TraceError>,
    r2: Result<(TraceColumns, Tensor), TraceError>,
) -> bool {
    match (r1, r2) {
        (Ok((t1, c1)), Ok((t2, c2))) => {
            &&& t1.left@ == t2.left@
            &&& t1.right@ == t2.right@
            &&& t1.sum@ == t2.sum@
            &&& c1.data@ == c2.data@
            &&& c1.dims@ == c2.dims@
            &&& c1.stride@ == c2.stride@
        },
        (Err(e1), Err(e2)) => e1 == e2,
        _ => false,
    }
}

/// Additive consistency: on every row of a generated trace the sum column
/// holds the field sum of the left and right columns.
pub proof fn lemma_rows_add_up(
    log_n_lanes: u32,
    log_size: u32,
    a: Tensor,
    b: Tensor,
    t: TraceColumns,
    c: Tensor,
)
    requires
        a.wf(),
        b.wf(),
        trace_outcome(log_n_lanes, log_size, a, b, Ok((t, c))),
    ensures
        t.left@.len() == pow2(log_size as nat),
        t.right@.len() == pow2(log_size as nat),
        t.sum@.len() == pow2(log_size as nat),
        forall|r: int|
            0 <= r < t.sum@.len() ==> #[trigger] t.sum@[r] == felt_add(t.left@[r], t.right@[r]),
{
    assert forall|r: int| 0 <= r < t.sum@.len() implies #[trigger] t.sum@[r] == felt_add(
        t.left@[r],
        t.right@[r],
    ) by {
        if r >= larger_size(a.data@, b.data@) {
            assert(felt_add(0, 0) == 0);
        }
    }
}

/// Padding: rows at or beyond the larger operand's element count hold zero
/// in all three columns.
pub proof fn lemma_padding_rows_are_zero(
    log_n_lanes: u32,
    log_size: u32,
    a: Tensor,
    b: Tensor,
    t: TraceColumns,
    c: Tensor,
)
    requires
        a.wf(),
        b.wf(),
        trace_outcome(log_n_lanes, log_size, a, b, Ok((t, c))),
    ensures
        forall|r: int|
            larger_size(a.data@, b.data@) <= r < pow2(log_size as nat) ==> #[trigger] t.left@[r]
                == 0 && t.right@[r] == 0 && t.sum@[r] == 0,
{
}

/// The output tensor holds exactly one element per element of the larger
/// operand, not one per trace row, whenever the trace has room for them all.
pub proof fn lemma_output_length(
    log_n_lanes: u32,
    log_size: u32,
    a: Tensor,
    b: Tensor,
    t: TraceColumns,
    c: Tensor,
)
    requires
        a.wf(),
        b.wf(),
        trace_outcome(log_n_lanes, log_size, a, b, Ok((t, c))),
        larger_size(a.data@, b.data@) <= pow2(log_size as nat),
    ensures
        c.data@.len() == larger_size(a.data@, b.data@),
        c.wf(),
{
}

/// Broadcast wraparound of the block index: reducing the row group modulo
/// the operand's packed size first changes nothing.
pub proof fn lemma_broadcast_index_cycles(v: int, p: int)
    requires
        v >= 0,
        p > 0,
    ensures
        spec_broadcast_index(v, p) == spec_broadcast_index(v % p, p),
{
    lemma_mod_twice(v, p);
}

/// Broadcast wraparound in the trace: on data rows each operand column
/// repeats with a period of the operand's packed size times the lane width.
pub proof fn lemma_operand_columns_cycle(
    log_n_lanes: u32,
    log_size: u32,
    a: Tensor,
    b: Tensor,
    t: TraceColumns,
    c: Tensor,
)
    requires
        a.wf(),
        b.wf(),
        trace_outcome(log_n_lanes, log_size, a, b, Ok((t, c))),
    ensures
        ({
            let lanes = pow2(log_n_lanes as nat) as int;
            let pa = spec_packed_size(a.data@.len() as int, lanes);
            let pb = spec_packed_size(b.data@.len() as int, lanes);
            forall|r: int|
                0 <= r < pow2(log_size as nat) && r < larger_size(a.data@, b.data@) ==> {
                    &&& #[trigger] t.left@[r] == t.left@[r % (pa * lanes)]
                    &&& t.right@[r] == t.right@[r % (pb * lanes)]
                }
        }),
{
    let lanes = pow2(log_n_lanes as nat) as int;
    let pa = spec_packed_size(a.data@.len() as int, lanes);
    let pb = spec_packed_size(b.data@.len() as int, lanes);
    lemma_pow2_pos(log_n_lanes as nat);
    lemma_suffix_product_monotone(a.dims@, 0, 0);
    lemma_suffix_product_monotone(b.dims@, 0, 0);
    assert forall|r: int|
        0 <= r < pow2(log_size as nat) && r < larger_size(a.data@, b.data@) implies {
        &&& #[trigger] t.left@[r] == t.left@[r % (pa * lanes)]
        &&& t.right@[r] == t.right@[r % (pb * lanes)]
    } by {
        lemma_operand_cycles(a.data@, r, lanes);
        lemma_operand_cycles(b.data@, r, lanes);
        lemma_mod_decreases(r as nat, (pa * lanes) as nat);
        lemma_mod_decreases(r as nat, (pb * lanes) as nat);
    }
}

/// An operand's value at a row depends on the row only modulo its packed
/// size times the lane width.
proof fn lemma_operand_cycles(x: Seq<u32>, r: int, lanes: int)
    requires
        x.len() > 0,
        lanes > 0,
        r >= 0,
    ensures
        spec_packed_size(x.len() as int, lanes) * lanes > 0,
        operand_at(x, r, lanes) == operand_at(
            x,
            r % (spec_packed_size(x.len() as int, lanes) * lanes),
            lanes,
        ),
{
    let n = x.len() as int;
    let p = spec_packed_size(n, lanes);
    lemma_fundamental_div_mod(n + lanes - 1, lanes);
    assert(p > 0) by (nonlinear_arith)
        requires
            n + lanes - 1 == lanes * p + (n + lanes - 1) % lanes,
            0 <= (n + lanes - 1) % lanes < lanes,
            n >= 1,
    ;
    assert(p * lanes > 0) by (nonlinear_arith)
        requires
            p > 0,
            lanes > 0,
    ;
    lemma_mod_breakdown(r, lanes, p);
    assert(lanes * p == p * lanes) by (nonlinear_arith);
    let s = r % (p * lanes);
    let q = (r / lanes) % p;
    lemma_fundamental_div_mod(r, lanes);
    lemma_fundamental_div_mod_converse(s, lanes, q, r % lanes);
    lemma_mod_twice(r / lanes, p);
}

/// Generation is a pure function of its inputs: two runs on the same
/// operands and sizes give the same columns and output tensor, or the same error.
pub proof fn lemma_trace_deterministic(
    log_n_lanes: u32,
    log_size: u32,
    a: Tensor,
    b: Tensor,
    r1: Result<(TraceColumns, Tensor), TraceError>,
    r2: Result<(TraceColumns, Tensor), TraceError>,
)
    requires
        trace_outcome(log_n_lanes, log_size, a, b, r1),
        trace_outcome(log_n_lanes, log_size, a, b, r2),
    ensures
        same_outcome(r1, r2),
{
}

} // verus!
