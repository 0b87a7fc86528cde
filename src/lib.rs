//! Execution trace of a tensor addition gate.
//!
//! Two tensors are added element by element (with broadcasting) and every
//! addition becomes one row of a trace with three columns: the left operand,
//! the right operand and their sum. The trace length is a power of two and
//! rows are grouped into lane-packed blocks, as a SIMD column stores them.
use vstd::prelude::*;

pub mod facts;
pub mod field;
pub mod tensor;
pub mod trace;

pub use field::MODULUS;
pub use tensor::Tensor;
pub use trace::{
    broadcast_index, generate_trace, generate_trace_with_lanes, packed_size, TraceColumns,
    TraceError, LOG_N_LANES,
};
