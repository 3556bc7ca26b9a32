use ipc_transport::batch::{
    build_probe_path, classify_delay_response, effective_concurrency, timeout_result, BatchState,
    ProbeCallResult,
};
use ipc_transport::errors::IpcError;
use ipc_transport::pool::{probe_is_alive, ConnPool, ProbeOutcome};

#[test]
fn pool_never_grows_past_capacity() {
    let mut pool: ConnPool<u64> = ConnPool::new();
    for i in 0..30u64 {
        assert!(pool.release(i, 1000));
    }
    assert_eq!(pool.len(), 30);
    assert!(!pool.release(99, 1000));
    assert_eq!(pool.len(), 30);
}

#[test]
fn stale_entries_are_never_returned() {
    let mut pool: ConnPool<u64> = ConnPool::new();
    pool.release(1, 0);
    assert!(pool.take_fresh(35000).is_none());
    assert_eq!(pool.len(), 0);

    let mut pool2: ConnPool<u64> = ConnPool::new();
    pool2.release(2, 0);
    let got = pool2.take_fresh(34999).unwrap();
    assert_eq!(got.conn, 2);
}

#[test]
fn acquire_skips_stale_and_serves_oldest_fresh() {
    let mut pool: ConnPool<u64> = ConnPool::new();
    pool.release(1, 0);
    pool.release(2, 40000);
    pool.release(3, 50000);
    let got = pool.take_fresh(60000).unwrap();
    assert_eq!(got.conn, 2);
    let got2 = pool.take_fresh(60000).unwrap();
    assert_eq!(got2.conn, 3);
    assert!(pool.take_fresh(60000).is_none());
}

#[test]
fn probe_with_any_byte_count_is_dead() {
    assert!(!probe_is_alive(&ProbeOutcome::Closed));
    assert!(!probe_is_alive(&ProbeOutcome::DataPending));
    assert!(!probe_is_alive(&ProbeOutcome::Failed));
    assert!(probe_is_alive(&ProbeOutcome::NoData));
}

#[test]
fn concurrency_is_clamped_both_ways() {
    assert_eq!(effective_concurrency(3, 10), 3);
    assert_eq!(effective_concurrency(0, 5), 1);
    assert_eq!(effective_concurrency(10, 2), 2);
    assert_eq!(effective_concurrency(5, 0), 1);
    assert_eq!(effective_concurrency(0, 0), 1);
}

fn names(n: usize) -> Vec<String> {
    let mut v = Vec::new();
    for i in 0..n {
        v.push(format!("node-{}", i));
    }
    v
}

#[test]
fn window_never_exceeds_the_concurrency_bound() {
    let mut st = BatchState::start(names(10), 3);
    let mut dispatched = 0usize;
    while st.can_dispatch() {
        st.dispatch();
        dispatched += 1;
        assert!(st.in_flight <= 3);
    }
    assert_eq!(dispatched, 3);
    assert_eq!(st.in_flight, 3);

    let ev = st.complete(0, 120);
    assert_eq!(ev.node_name, "node-0");
    assert_eq!(ev.delay_ms, 120);
    assert!(st.can_dispatch());
    st.dispatch();
    assert_eq!(st.in_flight, 3);
}

#[test]
fn every_target_gets_exactly_one_progress_event() {
    let mut st = BatchState::start(names(10), 3);
    let mut events = 0usize;
    let mut pending: Vec<(usize, String)> = Vec::new();
    loop {
        while st.can_dispatch() {
            pending.push(st.dispatch());
        }
        match pending.pop() {
            Some((idx, name)) => {
                let delay = if events % 2 == 0 { 50 } else { -1 };
                let ev = st.complete(idx, delay);
                assert_eq!(ev.node_name, name);
                events += 1;
            },
            None => break,
        }
    }
    assert!(st.is_done());
    assert_eq!(events, 10);
    let summary = st.summary();
    assert!(summary.is_successful);
    assert!(summary.error_message.is_none());
    assert_eq!(summary.total_count, 10);
    assert_eq!(summary.success_count, 5);
}

#[test]
fn empty_batch_completes_with_zero_counts() {
    let st = BatchState::start(Vec::new(), 4);
    assert!(st.is_done());
    let summary = st.summary();
    assert_eq!(summary.total_count, 0);
    assert_eq!(summary.success_count, 0);
    assert!(summary.is_successful);
    assert!(summary.error_message.is_none());
}

#[test]
fn timed_out_probe_counts_as_failure() {
    assert_eq!(classify_delay_response(&ProbeCallResult::TimedOut), -1);
    assert_eq!(timeout_result("node-0", 5000, 5200, 0), -1);

    let mut st = BatchState::start(names(1), 1);
    let (idx, _name) = st.dispatch();
    st.complete(idx, classify_delay_response(&ProbeCallResult::TimedOut));
    let summary = st.summary();
    assert_eq!(summary.total_count, 1);
    assert_eq!(summary.success_count, 0);
}

#[test]
fn overloaded_peer_status_is_a_failure() {
    let r = classify_delay_response(&ProbeCallResult::Failed(IpcError::HttpStatus(503)));
    assert_eq!(r, -1);
    let r2 = classify_delay_response(&ProbeCallResult::Failed(IpcError::HttpStatus(504)));
    assert_eq!(r2, -1);
    let r3 = classify_delay_response(&ProbeCallResult::Failed(IpcError::Protocol));
    assert_eq!(r3, -1);
}

#[test]
fn json_delay_field_is_returned_verbatim() {
    let r = classify_delay_response(&ProbeCallResult::Body(String::from("{\"delay\": 150}")));
    assert_eq!(r, 150);
    let zero = classify_delay_response(&ProbeCallResult::Body(String::from("{\"delay\": 0}")));
    assert_eq!(zero, 0);
    let neg = classify_delay_response(&ProbeCallResult::Body(String::from("{\"delay\": -7}")));
    assert_eq!(neg, -7);
}

#[test]
fn malformed_probe_bodies_are_failures() {
    let missing = classify_delay_response(&ProbeCallResult::Body(String::from("{}")));
    assert_eq!(missing, -1);
    let not_json = classify_delay_response(&ProbeCallResult::Body(String::from("delay: 5")));
    assert_eq!(not_json, -1);
    let not_int = classify_delay_response(&ProbeCallResult::Body(String::from("{\"delay\": 2.5}")));
    assert_eq!(not_int, -1);
}

#[test]
fn probe_path_percent_encodes_the_name() {
    let p = build_probe_path("node 1", 5000, "http://example.com/gen");
    assert_eq!(p, "/proxies/node%201/delay?timeout=5000&url=http://example.com/gen");
    let plain = build_probe_path("fast", 150, "u");
    assert_eq!(plain, "/proxies/fast/delay?timeout=150&url=u");
}
