use spanfall::ingest::receiver_state::{
    ArrivalCounts, ReceiverState, RejectLog, Transport, REJECT_RING_CAPACITY,
};

#[test]
fn push_records_in_order() {
    let mut log = RejectLog::default();
    log.push("EmptyPayload".to_string(), 1);
    log.push("DecodeError".to_string(), 2);

    let recorded: Vec<_> = log.recent().iter().map(|r| r.reason.clone()).collect();
    assert_eq!(recorded, vec!["EmptyPayload", "DecodeError"]);
}

#[test]
fn wraps_oldest_first_at_capacity() {
    let mut log = RejectLog::default();
    for i in 0..REJECT_RING_CAPACITY + 3 {
        log.push(format!("reject-{i}"), i as u64);
    }

    assert_eq!(log.len(), REJECT_RING_CAPACITY);
    let first = log.recent().iter().next().unwrap();
    // the oldest 3 were pushed out; the ring now starts at reject-3
    assert_eq!(first.reason, "reject-3");
}

#[test]
fn arrival_counts_accumulate_per_transport_independently() {
    let mut counts = ArrivalCounts::default();
    counts.record(Transport::GrpcV4317, 5);
    counts.record(Transport::HttpProtobufV4318, 2);
    counts.record(Transport::GrpcV4317, 3);

    assert_eq!(counts.grpc_v4317, 8);
    assert_eq!(counts.http_protobuf_v4318, 2);
    assert_eq!(counts.http_json_v4318, 0);
}

#[test]
fn a_full_ring_keeps_the_newest_last() {
    let mut log = RejectLog::default();
    for i in 0..REJECT_RING_CAPACITY + 1 {
        log.push(format!("r{i}"), i as u64);
    }
    let last = log.recent().iter().last().unwrap();
    assert_eq!(last.reason, format!("r{}", REJECT_RING_CAPACITY));
    assert_eq!(last.at_unix_nano, REJECT_RING_CAPACITY as u64);
}

#[test]
fn empty_log_reports_empty() {
    let mut log = RejectLog::default();
    assert!(log.is_empty());
    assert_eq!(log.len(), 0);
    log.push("x".to_string(), 0);
    assert!(!log.is_empty());
}

#[test]
fn arrival_counts_saturate_instead_of_wrapping() {
    let mut counts = ArrivalCounts::default();
    counts.record(Transport::HttpJsonV4318, u64::MAX);
    counts.record(Transport::HttpJsonV4318, 1);
    assert_eq!(counts.http_json_v4318, u64::MAX);
}

#[test]
fn receiver_state_starts_empty() {
    let s = ReceiverState::default();
    assert!(s.rejects.is_empty());
    assert_eq!(s.arrivals.grpc_v4317, 0);
}
