use smp_tee_runtime::{
    AggregationAlgorithm, ComputationParams, InMemoryTee, PacketView, PreparedComputation,
    TeeError, TeeGuard, XdpIngress,
};

#[test]
fn ring_buffer_parsing_keeps_packet_views() {
    let ring = [1_u8, 2, 3, 4, 5, 6];
    let packets = XdpIngress::parse_ring_buffer(&ring, 2);

    assert_eq!(packets.len(), 3);
    assert_eq!(packets[0].data, &[1, 2]);
    assert_eq!(packets[2].data, &[5, 6]);
}

#[test]
fn ingress_writes_payload_to_tee() {
    let mut tee = InMemoryTee::default();
    tee.initialize().unwrap();

    let ingress = XdpIngress;
    let ptr = ingress
        .write_packet_into_tee(
            &mut tee,
            PacketView {
                data: &[9, 8, 7, 6],
            },
        )
        .unwrap();

    let output = tee
        .prepare_computation(
            &[ptr],
            &ComputationParams {
                algorithm: AggregationAlgorithm::FederatedAveraging,
            },
        )
        .unwrap();

    assert_eq!(output, PreparedComputation::Passthrough(vec![9, 8, 7, 6]));
}

#[test]
fn ring_buffer_keeps_a_short_tail_frame() {
    let ring = [1_u8, 2, 3, 4, 5];
    let packets = XdpIngress::parse_ring_buffer(&ring, 2);

    assert_eq!(packets.len(), 3);
    assert_eq!(packets[0].data, &[1, 2]);
    assert_eq!(packets[1].data, &[3, 4]);
    assert_eq!(packets[2].data, &[5]);
}

#[test]
fn ring_buffer_with_zero_frame_size_gives_no_packets() {
    let ring = [1_u8, 2, 3];
    assert!(XdpIngress::parse_ring_buffer(&ring, 0).is_empty());
}

#[test]
fn empty_ring_gives_no_packets() {
    let ring: [u8; 0] = [];
    assert!(XdpIngress::parse_ring_buffer(&ring, 4).is_empty());
}

#[test]
fn frame_larger_than_ring_gives_one_packet() {
    let ring = [7_u8, 8, 9];
    let packets = XdpIngress::parse_ring_buffer(&ring, 16);
    assert_eq!(packets.len(), 1);
    assert_eq!(packets[0].data, &[7, 8, 9]);
}

#[test]
fn frames_reassemble_into_the_ring() {
    let ring: Vec<u8> = (0..23).collect();
    let packets = XdpIngress::parse_ring_buffer(&ring, 5);
    assert_eq!(packets.len(), 5);
    let joined: Vec<u8> = packets.iter().flat_map(|p| p.data.iter().copied()).collect();
    assert_eq!(joined, ring);
    for p in &packets[..4] {
        assert_eq!(p.data.len(), 5);
    }
    assert_eq!(packets[4].data.len(), 3);
}

#[test]
fn ingress_into_uninitialized_tee_fails_without_allocating() {
    let mut tee = InMemoryTee::default();
    let ingress = XdpIngress;
    let err = ingress
        .write_packet_into_tee(&mut tee, PacketView { data: &[1, 2, 3, 4] })
        .unwrap_err();
    assert_eq!(err, TeeError::NotInitialized);
}

#[test]
fn ingress_rejects_empty_packet() {
    let mut tee = InMemoryTee::default();
    tee.initialize().unwrap();
    let ingress = XdpIngress;
    let err = ingress
        .write_packet_into_tee(&mut tee, PacketView { data: &[] })
        .unwrap_err();
    assert_eq!(err, TeeError::InvalidAllocationSize);
}

#[test]
fn ingress_gives_distinct_handles() {
    let mut tee = InMemoryTee::default();
    tee.initialize().unwrap();
    let ingress = XdpIngress;
    let a = ingress
        .write_packet_into_tee(&mut tee, PacketView { data: &[1, 1, 1, 1] })
        .unwrap();
    let b = ingress
        .write_packet_into_tee(&mut tee, PacketView { data: &[2, 2, 2, 2] })
        .unwrap();
    assert_ne!(a, b);
    let params = ComputationParams {
        algorithm: AggregationAlgorithm::FederatedAveraging,
    };
    assert_eq!(
        tee.prepare_computation(&[a], &params).unwrap(),
        PreparedComputation::Passthrough(vec![1, 1, 1, 1])
    );
    assert_eq!(
        tee.prepare_computation(&[b], &params).unwrap(),
        PreparedComputation::Passthrough(vec![2, 2, 2, 2])
    );
}
