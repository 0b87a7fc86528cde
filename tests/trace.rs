use add_trace::{
    broadcast_index, generate_trace, generate_trace_with_lanes, packed_size, Tensor, TraceColumns,
    TraceError, LOG_N_LANES, MODULUS,
};

fn tensor(data: Vec<u32>, dims: Vec<usize>) -> Tensor {
    Tensor::new(data, dims)
}

fn run(log_n_lanes: u32, log_size: u32, a: Tensor, b: Tensor) -> (TraceColumns, Tensor) {
    match generate_trace_with_lanes(log_n_lanes, log_size, a, b) {
        Ok(r) => r,
        Err(e) => panic!("unexpected error {:?}", e),
    }
}

#[test]
fn broadcast_scalar_over_vector() {
    let a = tensor(vec![1, 2, 3, 4], vec![4]);
    let b = tensor(vec![10], vec![1]);
    let (t, c) = run(2, 3, a, b);
    assert_eq!(t.left, vec![1, 2, 3, 4, 0, 0, 0, 0]);
    assert_eq!(t.right, vec![10, 10, 10, 10, 0, 0, 0, 0]);
    assert_eq!(t.sum, vec![11, 12, 13, 14, 0, 0, 0, 0]);
    assert_eq!(c.data, vec![11, 12, 13, 14]);
    assert_eq!(c.dims, vec![4]);
    assert_eq!(c.stride, vec![1]);
}

#[test]
fn incompatible_shapes_are_rejected() {
    let a = tensor((0..12).collect(), vec![3, 4]);
    let b = tensor((0..20).collect(), vec![5, 4]);
    let r = generate_trace(6, a, b);
    assert!(matches!(r, Err(TraceError::ShapeMismatch)));
}

#[test]
fn shape_is_checked_before_size() {
    let a = tensor((0..12).collect(), vec![3, 4]);
    let b = tensor((0..20).collect(), vec![5, 4]);
    let r = generate_trace(0, a, b);
    assert!(matches!(r, Err(TraceError::ShapeMismatch)));
}

#[test]
fn size_below_one_block_is_rejected() {
    let a = tensor(vec![1, 2], vec![2]);
    let b = tensor(vec![3, 4], vec![2]);
    let r = generate_trace(LOG_N_LANES - 1, a, b);
    assert!(matches!(r, Err(TraceError::SizeTooSmall)));
    let a = tensor(vec![1, 2], vec![2]);
    let b = tensor(vec![3, 4], vec![2]);
    let r = generate_trace_with_lanes(2, 1, a, b);
    assert!(matches!(r, Err(TraceError::SizeTooSmall)));
}

#[test]
fn trace_of_exactly_one_block_is_accepted() {
    let a = tensor(vec![1, 2], vec![2]);
    let b = tensor(vec![3, 4], vec![2]);
    let (t, c) = run(2, 2, a, b);
    assert_eq!(t.sum, vec![4, 6, 0, 0]);
    assert_eq!(c.data, vec![4, 6]);
}

#[test]
fn every_row_adds_up() {
    let a = tensor(vec![5, 6, 7], vec![3]);
    let b = tensor(vec![1, 2, 3, 4, 5, 6], vec![2, 3]);
    let (t, _) = run(1, 4, a, b);
    assert_eq!(t.sum.len(), 16);
    for r in 0..16 {
        assert_eq!(t.sum[r], (t.left[r] + t.right[r]) % MODULUS);
    }
}

#[test]
fn padding_rows_are_zero() {
    let a = tensor(vec![5, 6, 7], vec![3]);
    let b = tensor(vec![1, 2, 3, 4, 5, 6], vec![2, 3]);
    let (t, _) = run(1, 4, a, b);
    for r in 6..16 {
        assert_eq!(t.left[r], 0);
        assert_eq!(t.right[r], 0);
        assert_eq!(t.sum[r], 0);
    }
}

#[test]
fn output_length_is_larger_operand_size() {
    let a = tensor(vec![5, 6, 7], vec![3]);
    let b = tensor(vec![1, 2, 3, 4, 5, 6], vec![2, 3]);
    let (t, c) = run(1, 4, a, b);
    assert_eq!(t.sum.len(), 16);
    assert_eq!(c.data.len(), 6);
    assert_eq!(c.dims, vec![2, 3]);
    assert_eq!(c.stride, vec![3, 1]);
}

#[test]
fn output_is_cut_to_the_trace_when_the_trace_is_short() {
    let a = tensor((0..32).collect(), vec![32]);
    let b = tensor(vec![1], vec![1]);
    let (t, c) = run(LOG_N_LANES, 4, a, b);
    assert_eq!(t.sum.len(), 16);
    assert_eq!(c.data, (1..17).collect::<Vec<u32>>());
    assert_eq!(c.dims, vec![32]);
}

#[test]
fn blocks_wrap_around_for_the_smaller_operand() {
    let a = tensor(vec![1, 2, 3, 4], vec![4]);
    let b = tensor((10..18).collect(), vec![2, 4]);
    let (t, c) = run(1, 3, a, b);
    assert_eq!(t.left, vec![1, 2, 3, 4, 1, 2, 3, 4]);
    assert_eq!(t.right, vec![10, 11, 12, 13, 14, 15, 16, 17]);
    assert_eq!(c.data, vec![11, 13, 15, 17, 15, 17, 19, 21]);
    assert_eq!(c.dims, vec![2, 4]);
    assert_eq!(c.stride, vec![4, 1]);
}

#[test]
fn partial_last_block_wraps_within_the_operand() {
    let a = tensor(vec![5, 6, 7], vec![3]);
    let b = tensor(vec![1, 2, 3, 4, 5, 6], vec![2, 3]);
    let (t, c) = run(1, 3, a, b);
    assert_eq!(t.left, vec![5, 6, 7, 5, 5, 6, 0, 0]);
    assert_eq!(t.right, vec![1, 2, 3, 4, 5, 6, 0, 0]);
    assert_eq!(c.data, vec![6, 8, 10, 9, 10, 12]);
}

#[test]
fn default_lane_width_packs_sixteen() {
    let a = tensor((0..16).collect(), vec![16]);
    let b = tensor((100..116).collect(), vec![16]);
    let (t, c) = generate_trace(5, a, b).unwrap();
    assert_eq!(t.sum.len(), 32);
    assert_eq!(c.data, (0..16).map(|i| 100 + 2 * i).collect::<Vec<u32>>());
    assert!(t.sum[16..].iter().all(|&x| x == 0));
}

#[test]
fn field_addition_wraps_at_the_modulus() {
    let a = tensor(vec![MODULUS - 1, MODULUS - 2], vec![2]);
    let b = tensor(vec![5, 2], vec![2]);
    let (t, c) = run(1, 1, a, b);
    assert_eq!(t.sum, vec![4, 0]);
    assert_eq!(c.data, vec![4, 0]);
}

#[test]
fn modulus_matches_stwo() {
    assert_eq!(MODULUS, stwo::core::fields::m31::P);
}

#[test]
fn equal_sizes_take_the_second_shape() {
    let a = tensor(vec![1, 2, 3, 4], vec![1, 4]);
    let b = tensor(vec![1, 1, 1, 1], vec![4]);
    let (_, c) = run(1, 2, a, b);
    assert_eq!(c.dims, vec![4]);
    assert_eq!(c.stride, vec![1]);
    let a = tensor(vec![1, 2, 3, 4], vec![4]);
    let b = tensor(vec![1, 1, 1, 1], vec![1, 4]);
    let (_, c) = run(1, 2, a, b);
    assert_eq!(c.dims, vec![1, 4]);
    assert_eq!(c.stride, vec![4, 1]);
}

#[test]
fn generation_is_repeatable() {
    let a = tensor(vec![5, 6, 7], vec![3]);
    let b = tensor(vec![1, 2, 3, 4, 5, 6], vec![2, 3]);
    let (t1, c1) = run(1, 4, a.clone(), b.clone());
    let (t2, c2) = run(1, 4, a, b);
    assert_eq!(t1.left, t2.left);
    assert_eq!(t1.right, t2.right);
    assert_eq!(t1.sum, t2.sum);
    assert_eq!(c1.data, c2.data);
    assert_eq!(c1.dims, c2.dims);
    assert_eq!(c1.stride, c2.stride);
}

#[test]
fn strides_are_row_major() {
    assert_eq!(Tensor::compute_stride(&vec![2, 3, 4]), vec![12, 4, 1]);
    assert_eq!(Tensor::compute_stride(&vec![7]), vec![1]);
    assert_eq!(Tensor::compute_stride(&vec![]), Vec::<usize>::new());
    let t = tensor((0..24).collect(), vec![2, 3, 4]);
    assert_eq!(t.stride, vec![12, 4, 1]);
    assert_eq!(t.size(), 24);
}

#[test]
fn broadcasting_rule() {
    let t = |dims: Vec<usize>| {
        let n = dims.iter().product::<usize>() as u32;
        tensor((0..n).collect(), dims)
    };
    assert!(t(vec![3, 4]).is_broadcastable_with(&t(vec![4])));
    assert!(t(vec![3, 1]).is_broadcastable_with(&t(vec![1, 4])));
    assert!(t(vec![2, 3, 4]).is_broadcastable_with(&t(vec![3, 1])));
    assert!(t(vec![1]).is_broadcastable_with(&t(vec![5, 4])));
    assert!(t(vec![]).is_broadcastable_with(&t(vec![5, 4])));
    assert!(!t(vec![3, 4]).is_broadcastable_with(&t(vec![5, 4])));
    assert!(!t(vec![2, 3]).is_broadcastable_with(&t(vec![3, 2])));
}

#[test]
fn packed_sizes_round_up() {
    assert_eq!(packed_size(0, 4), 0);
    assert_eq!(packed_size(1, 4), 1);
    assert_eq!(packed_size(16, 4), 1);
    assert_eq!(packed_size(17, 4), 2);
    assert_eq!(packed_size(5, 0), 5);
    assert_eq!(packed_size(5, 2), 2);
}

#[test]
fn broadcast_index_wraps() {
    assert_eq!(broadcast_index(5, 3), 2);
    assert_eq!(broadcast_index(2, 3), 2);
    assert_eq!(broadcast_index(0, 1), 0);
    assert_eq!(broadcast_index(7, 7), 0);
}

#[test]
fn well_formedness_is_checked() {
    let good = tensor((0..6).collect(), vec![2, 3]);
    assert!(good.is_well_formed());
    let zero_axis = Tensor { data: vec![], dims: vec![2, 0], stride: vec![0, 1] };
    assert!(!zero_axis.is_well_formed());
    let short = Tensor { data: vec![1, 2, 3], dims: vec![2, 2], stride: vec![2, 1] };
    assert!(!short.is_well_formed());
    let bad_stride = Tensor { data: vec![1, 2, 3, 4], dims: vec![2, 2], stride: vec![1, 2] };
    assert!(!bad_stride.is_well_formed());
    let bad_felt = Tensor { data: vec![1, MODULUS], dims: vec![2], stride: vec![1] };
    assert!(!bad_felt.is_well_formed());
    let huge = Tensor { data: vec![1], dims: vec![usize::MAX, 2], stride: vec![2, 1] };
    assert!(!huge.is_well_formed());
}
