use smp_tee_runtime::{
    averaging_dimension, complete_computation, krum_neighbor_count, AggregationAlgorithm,
    ComputationParams, InMemoryTee, PreparedComputation, TeeError, TeeGuard,
};

fn encode_f32(values: &[f32]) -> Vec<u8> {
    values.iter().flat_map(|value| value.to_le_bytes()).collect()
}

fn averaging() -> ComputationParams {
    ComputationParams {
        algorithm: AggregationAlgorithm::FederatedAveraging,
    }
}

#[test]
fn tee_rejects_misaligned_payloads() {
    let mut tee = InMemoryTee::default();
    tee.initialize().expect("TEE init failed");

    let ptr = tee.allocate_memory(3).expect("allocation failed");
    tee.write_data(ptr, &[1, 2, 3]).expect("write failed");

    let err = tee
        .prepare_computation(&[ptr], &averaging())
        .expect_err("misaligned payload should fail");

    assert_eq!(
        err,
        TeeError::InvalidInput("payload length must be a multiple of 4")
    );
}

#[test]
fn tee_rejects_too_small_multi_krum_batches() {
    let mut tee = InMemoryTee::default();
    tee.initialize().expect("TEE init failed");

    let left = tee.allocate_memory(8).expect("left allocation failed");
    let right = tee.allocate_memory(8).expect("right allocation failed");

    tee.write_data(left, &encode_f32(&[1.0, 1.0]))
        .expect("left write failed");
    tee.write_data(right, &encode_f32(&[2.0, 2.0]))
        .expect("right write failed");

    let algorithm = AggregationAlgorithm::MultiKrum {
        byzantine_tolerance: 0,
    };
    let prepared = tee
        .prepare_computation(
            &[left, right],
            &ComputationParams {
                algorithm: algorithm.clone(),
            },
        )
        .expect("inputs are readable");
    let payloads = match prepared {
        PreparedComputation::Aggregate(payloads) => payloads,
        PreparedComputation::Passthrough(_) => panic!("two inputs are aggregated"),
    };
    let lengths: Vec<usize> = payloads.iter().map(|p| p.len() / 4).collect();
    let neighbors = krum_neighbor_count(&lengths, 0);
    assert_eq!(neighbors, None);

    // The batch shape decides whether an aggregate exists at all.
    let aggregated: Option<Vec<u8>> = neighbors.map(|_| payloads[0].clone());
    let err = complete_computation(&algorithm, aggregated)
        .expect_err("multi-krum should reject undersized batches");

    assert_eq!(err, TeeError::InvalidInput("invalid multi-krum input"));
}

#[test]
fn prepared_inputs_keep_written_bytes_in_order() {
    let mut tee = InMemoryTee::default();
    tee.initialize().unwrap();
    let left = tee.allocate_memory(8).unwrap();
    let right = tee.allocate_memory(8).unwrap();
    tee.write_data(left, &encode_f32(&[1.0, 3.0])).unwrap();
    tee.write_data(right, &encode_f32(&[3.0, 5.0])).unwrap();

    let prepared = tee.prepare_computation(&[right, left], &averaging()).unwrap();
    assert_eq!(
        prepared,
        PreparedComputation::Aggregate(vec![encode_f32(&[3.0, 5.0]), encode_f32(&[1.0, 3.0])])
    );
}

#[test]
fn allocation_is_zeroed_and_partial_write_keeps_tail() {
    let mut tee = InMemoryTee::default();
    tee.initialize().unwrap();
    let ptr = tee.allocate_memory(8).unwrap();
    assert_eq!(
        tee.prepare_computation(&[ptr], &averaging()).unwrap(),
        PreparedComputation::Passthrough(vec![0; 8])
    );
    tee.write_data(ptr, &[5, 6, 7]).unwrap();
    assert_eq!(
        tee.prepare_computation(&[ptr], &averaging()).unwrap(),
        PreparedComputation::Passthrough(vec![5, 6, 7, 0, 0, 0, 0, 0])
    );
}

#[test]
fn uninitialized_tee_refuses_everything() {
    let mut tee = InMemoryTee::default();
    assert_eq!(tee.allocate_memory(4), Err(TeeError::NotInitialized));
    assert_eq!(tee.write_data(0, &[1]), Err(TeeError::NotInitialized));
    assert_eq!(
        tee.prepare_computation(&[0], &averaging()),
        Err(TeeError::NotInitialized)
    );
}

#[test]
fn zero_sized_allocation_is_refused() {
    let mut tee = InMemoryTee::default();
    tee.initialize().unwrap();
    assert_eq!(tee.allocate_memory(0), Err(TeeError::InvalidAllocationSize));
}

#[test]
fn oversized_write_is_refused_and_changes_nothing() {
    let mut tee = InMemoryTee::default();
    tee.initialize().unwrap();
    let ptr = tee.allocate_memory(4).unwrap();
    tee.write_data(ptr, &[1, 2, 3, 4]).unwrap();
    assert_eq!(
        tee.write_data(ptr, &[9, 9, 9, 9, 9]),
        Err(TeeError::InvalidAllocationSize)
    );
    assert_eq!(
        tee.prepare_computation(&[ptr], &averaging()).unwrap(),
        PreparedComputation::Passthrough(vec![1, 2, 3, 4])
    );
}

#[test]
fn unknown_handle_is_refused() {
    let mut tee = InMemoryTee::default();
    tee.initialize().unwrap();
    let ptr = tee.allocate_memory(4).unwrap();
    let unknown = ptr + 1;
    assert_eq!(tee.write_data(unknown, &[1]), Err(TeeError::InvalidPointer));
    assert_eq!(
        tee.prepare_computation(&[unknown], &averaging()),
        Err(TeeError::InvalidPointer)
    );
}

#[test]
fn empty_input_list_is_refused() {
    let mut tee = InMemoryTee::default();
    tee.initialize().unwrap();
    assert_eq!(
        tee.prepare_computation(&[], &averaging()),
        Err(TeeError::InvalidInput("empty inputs"))
    );
}

#[test]
fn first_failing_input_decides_the_error() {
    let mut tee = InMemoryTee::default();
    tee.initialize().unwrap();
    let good = tee.allocate_memory(4).unwrap();
    let odd = tee.allocate_memory(3).unwrap();
    let missing = odd + 10;
    assert_eq!(
        tee.prepare_computation(&[good, odd, missing], &averaging()),
        Err(TeeError::InvalidInput("payload length must be a multiple of 4"))
    );
    assert_eq!(
        tee.prepare_computation(&[good, missing, odd], &averaging()),
        Err(TeeError::InvalidPointer)
    );
}

#[test]
fn single_multi_krum_input_is_not_passed_through() {
    let mut tee = InMemoryTee::default();
    tee.initialize().unwrap();
    let ptr = tee.allocate_memory(4).unwrap();
    let params = ComputationParams {
        algorithm: AggregationAlgorithm::MultiKrum {
            byzantine_tolerance: 0,
        },
    };
    assert_eq!(
        tee.prepare_computation(&[ptr], &params).unwrap(),
        PreparedComputation::Aggregate(vec![vec![0, 0, 0, 0]])
    );
}

#[test]
fn complete_computation_passes_aggregate_or_names_the_algorithm() {
    assert_eq!(
        complete_computation(&AggregationAlgorithm::FederatedAveraging, Some(vec![1, 2])),
        Ok(vec![1, 2])
    );
    assert_eq!(
        complete_computation(&AggregationAlgorithm::FederatedAveraging, None),
        Err(TeeError::InvalidInput("invalid federated averaging input"))
    );
}

#[test]
fn averaging_dimension_needs_a_uniform_non_empty_batch() {
    assert_eq!(averaging_dimension(&[]), None);
    assert_eq!(averaging_dimension(&[3, 3, 3]), Some(3));
    assert_eq!(averaging_dimension(&[3, 2, 3]), None);
}

#[test]
fn krum_neighbor_count_follows_the_tolerance() {
    assert_eq!(krum_neighbor_count(&[2, 2, 2, 2, 2], 1), Some(2));
    assert_eq!(krum_neighbor_count(&[2, 2, 2, 2], 1), None);
    assert_eq!(krum_neighbor_count(&[2, 2, 2], 0), Some(1));
    assert_eq!(krum_neighbor_count(&[2, 2, 3], 0), None);
    assert_eq!(krum_neighbor_count(&[2, 2, 2], usize::MAX), None);
}

#[test]
fn writes_never_touch_other_allocations() {
    let mut tee = InMemoryTee::default();
    tee.initialize().unwrap();
    let kept = tee.allocate_memory(4).unwrap();
    tee.write_data(kept, &[1, 2, 3, 4]).unwrap();
    let other = tee.allocate_memory(8).unwrap();
    tee.write_data(other, &[9; 8]).unwrap();
    let _ = tee.write_data(other, &[7; 9]);
    let _ = tee.allocate_memory(0);
    tee.initialize().unwrap();
    let _ = tee.prepare_computation(&[other, kept], &averaging());
    assert_eq!(
        tee.prepare_computation(&[kept], &averaging()).unwrap(),
        PreparedComputation::Passthrough(vec![1, 2, 3, 4])
    );
}

#[test]
fn initialized_tee_stays_initialized() {
    let mut tee = InMemoryTee::default();
    tee.initialize().unwrap();
    let _ = tee.allocate_memory(0);
    let _ = tee.write_data(42, &[1]);
    tee.initialize().unwrap();
    assert!(tee.allocate_memory(4).is_ok());
}
