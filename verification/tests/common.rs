use sword::common::{
    http_request_capture_lengths, non_zero_delta, HttpPayloadEvent, HttpRequestId, HttpRequestIdState,
    RequestTimings, SlowTcpEvent, TcpFlowKey, HTTP_PAYLOAD_DIRECTION_REQUEST, HTTP_PAYLOAD_DIRECTION_RESPONSE,
    SLOW_TCP_PHASE_ARRIVAL_TO_READ, SLOW_TCP_PHASE_ARRIVAL_TO_WRITE, SLOW_TCP_PHASE_READ_TO_WRITE,
};

#[test]
fn tcp_flow_key_builds_ipv4_and_ipv6_server_flows() {
    let ipv4 = TcpFlowKey::ipv4(
        u32::from_be_bytes([172, 16, 15, 139]),
        u32::from_be_bytes([172, 16, 1, 30]),
        8080,
        54321,
    );
    assert_eq!(ipv4.local_addr[0], u32::from_be_bytes([172, 16, 15, 139]));
    assert_eq!(ipv4.remote_addr[0], u32::from_be_bytes([172, 16, 1, 30]));
    assert_eq!(ipv4.local_port, 8080);
    assert_eq!(ipv4.remote_port, 54321);
    assert_eq!(ipv4.family, 2);

    let ipv6 = TcpFlowKey::ipv6([1, 2, 3, 4], [5, 6, 7, 8], 8080, 12345);
    assert_eq!(ipv6.local_addr, [1, 2, 3, 4]);
    assert_eq!(ipv6.remote_addr, [5, 6, 7, 8]);
    assert_eq!(ipv6.family, 10);
}

#[test]
fn ipv4_flow_key_zeroes_the_unused_address_words() {
    let key = TcpFlowKey::ipv4(7, 9, 1, 2);
    assert_eq!(key.local_addr, [7, 0, 0, 0]);
    assert_eq!(key.remote_addr, [9, 0, 0, 0]);
    assert_eq!(key._pad, 0);
}

#[test]
fn slow_tcp_event_keeps_abi_size_and_has_distinct_phases() {
    assert_eq!(std::mem::size_of::<SlowTcpEvent>(), 160);
    assert_eq!(std::mem::size_of::<HttpPayloadEvent>(), 2064);
    assert_ne!(SLOW_TCP_PHASE_READ_TO_WRITE, SLOW_TCP_PHASE_ARRIVAL_TO_READ);
    assert_ne!(SLOW_TCP_PHASE_ARRIVAL_TO_READ, SLOW_TCP_PHASE_ARRIVAL_TO_WRITE);
}

#[test]
fn extracts_request_id_across_receive_chunks() {
    let mut state = HttpRequestIdState::default();

    state.consume(
        br#"POST /evaluate HTTP/1.1
Content-Type: application/json

{"reque"#,
    );
    assert!(!state.is_complete());

    state.consume(br#"stId":"7fbb215d-a5d1-4478-b134-fad7a388dea3","packId":"p1"}"#);

    assert!(state.is_complete());
    assert_eq!(state.as_bytes(), b"7fbb215d-a5d1-4478-b134-fad7a388dea3");
}

#[test]
fn extracts_request_id_after_first_512_bytes_in_one_receive() {
    let mut payload = [b'x'; 1800];
    let request_id = br#""requestId":"7fbb215d-a5d1-4478-b134-fad7a388dea3""#;
    payload[1500..1500 + request_id.len()].copy_from_slice(request_id);

    let (first_len, second_len) = http_request_capture_lengths(payload.len() as u64, payload.len() as u64);
    let mut state = HttpRequestIdState::default();
    state.consume(&payload[..first_len]);
    state.consume(&payload[first_len..first_len + second_len]);

    assert!(state.is_complete());
    assert_eq!(state.as_bytes(), b"7fbb215d-a5d1-4478-b134-fad7a388dea3");
}

#[test]
fn http_payload_event_distinguishes_request_and_response() {
    let request = HttpPayloadEvent { direction: HTTP_PAYLOAD_DIRECTION_REQUEST, ..Default::default() };
    let response = HttpPayloadEvent { direction: HTTP_PAYLOAD_DIRECTION_RESPONSE, ..Default::default() };
    assert_ne!(request.direction, response.direction);
}

#[test]
fn splits_arrival_to_write_into_queue_and_processing_time() {
    let timings = RequestTimings::from_timestamps(1_000, 51_000, 651_000);
    assert_eq!(timings.arrival_to_read_ns, 50_000);
    assert_eq!(timings.read_to_write_ns, 600_000);
    assert_eq!(timings.arrival_to_write_ns, 650_000);
}

#[test]
fn splits_socket_to_xnio_read_into_epoll_and_recv_phases() {
    let timings = RequestTimings::from_phase_timestamps(1_000, 11_000, 31_000, 51_000, 651_000);
    assert_eq!(timings.arrival_to_epoll_ns, 10_000);
    assert_eq!(timings.epoll_to_recv_ns, 20_000);
    assert_eq!(timings.recv_duration_ns, 20_000);
    assert_eq!(timings.arrival_to_read_ns, 50_000);
    assert_eq!(timings.read_to_write_ns, 600_000);
    assert_eq!(timings.arrival_to_write_ns, 650_000);
}

#[test]
fn capture_lengths_split_at_one_kilobyte_and_stop_at_two() {
    assert_eq!(http_request_capture_lengths(1800, 1800), (1024, 776));
    assert_eq!(http_request_capture_lengths(5000, 4000), (1024, 1024));
    assert_eq!(http_request_capture_lengths(100, 40), (40, 0));
    assert_eq!(http_request_capture_lengths(0, 4000), (0, 0));
}

#[test]
fn timestamps_out_of_order_give_zero_deltas() {
    let t = RequestTimings::from_timestamps(500, 100, 50);
    assert_eq!(t.arrival_to_read_ns, 0);
    assert_eq!(t.read_to_write_ns, 0);
    assert_eq!(t.arrival_to_write_ns, 0);
    assert_eq!(t.http_request_latency_ns(), 0);
    let t = RequestTimings::from_timestamps(100, 300, 1_000);
    assert_eq!(t.http_request_latency_ns(), 700);
}

#[test]
fn missing_arrival_drops_the_arrival_phases() {
    let t = RequestTimings::from_phase_timestamps(0, 11_000, 31_000, 51_000, 651_000);
    assert_eq!(t.arrival_to_epoll_ns, 0);
    assert_eq!(t.epoll_to_recv_ns, 0);
    assert_eq!(t.arrival_to_read_ns, 0);
    assert_eq!(t.arrival_to_write_ns, 0);
    assert_eq!(t.recv_duration_ns, 20_000);
    assert_eq!(t.read_to_write_ns, 600_000);
    // An epoll exit before the arrival breaks the chain too.
    let t = RequestTimings::from_phase_timestamps(20_000, 11_000, 31_000, 51_000, 651_000);
    assert_eq!(t.arrival_to_epoll_ns, 0);
    assert_eq!(t.epoll_to_recv_ns, 0);
    assert_eq!(t.arrival_to_read_ns, 31_000);
}

#[test]
fn non_zero_delta_needs_a_start_and_order() {
    assert_eq!(non_zero_delta(0, 100), 0);
    assert_eq!(non_zero_delta(200, 100), 0);
    assert_eq!(non_zero_delta(100, 250), 150);
}

#[test]
fn request_id_found_in_one_chunk_and_kept() {
    let mut state = HttpRequestIdState::default();
    state.consume(br#"{"a":1,"requestId":"abc-123"}"#);
    assert!(state.is_complete());
    assert_eq!(state.as_bytes(), b"abc-123");
    // Later bytes do not change a complete id.
    state.consume(br#""requestId":"other""#);
    assert_eq!(state.as_bytes(), b"abc-123");
    let id = state.request_id();
    assert_eq!(id.len, 7);
    assert_eq!(id.as_bytes(), b"abc-123");
}

#[test]
fn request_id_absent_leaves_state_incomplete() {
    let mut state = HttpRequestIdState::default();
    state.consume(b"GET / HTTP/1.1\r\nHost: x\r\n\r\n");
    assert!(!state.is_complete());
    assert_eq!(state.as_bytes(), b"");
    assert_eq!(state.request_id(), HttpRequestId::default());
}

#[test]
fn overlong_request_id_is_dropped() {
    let mut state = HttpRequestIdState::default();
    let long = "y".repeat(80);
    let body = format!("\"requestId\":\"{long}\"");
    state.consume(body.as_bytes());
    assert!(!state.is_complete());
    assert_eq!(state.as_bytes(), b"");
    // A later id of at most sixty-four bytes is still found.
    let fits = "z".repeat(64);
    state.consume(format!("\"requestId\":\"{fits}\"").as_bytes());
    assert!(state.is_complete());
    assert_eq!(state.as_bytes(), fits.as_bytes());
}

#[test]
fn payload_event_chunks_follow_their_lengths() {
    let mut e = HttpPayloadEvent::default();
    e.first_bytes[0] = b'a';
    e.first_bytes[1] = b'b';
    e.first_payload_len = 2;
    e.second_bytes[0] = b'c';
    e.second_payload_len = 1;
    assert_eq!(e.first_payload(), b"ab");
    assert_eq!(e.second_payload(), b"c");
    let empty = HttpPayloadEvent::default();
    assert_eq!(empty.first_payload(), b"");
    assert_eq!(empty.second_payload(), b"");
}
