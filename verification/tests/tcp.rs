use sword::common::{RiskTargetConfig, SLOW_TCP_PHASE_ARRIVAL_TO_READ, SLOW_TCP_PHASE_ARRIVAL_TO_WRITE,
    SLOW_TCP_PHASE_READ_TO_WRITE, HTTP_PAYLOAD_DIRECTION_REQUEST, HTTP_PAYLOAD_DIRECTION_RESPONSE};
use sword::tcp::{
    msg_user_buffer, MsgIter, TcpProbeOutput, TcpProbeState, TcpSocketTuple, BPF_TCP_CLOSE, BPF_TCP_ESTABLISHED,
    ITER_IOVEC, ITER_UBUF, RISK_TCP_PAYLOAD_ARRIVAL_INDEX, RISK_TCP_READ_INDEX, RISK_TCP_RECEIVE_RESET_INDEX,
    RISK_TCP_RETRANSMIT_INDEX, RISK_TCP_SEND_RESET_INDEX, RISK_TCP_SLOW_INDEX, RISK_TCP_WRITE_INDEX,
};

const TGID: u32 = 4242;
const TID: u32 = 4243;
const SOCKET: u64 = 0xffff_8880_1234_5678;
const PORT: u16 = 8080;

fn config(slow_threshold_ns: u64, flags: u16) -> RiskTargetConfig {
    RiskTargetConfig { tgid: TGID, server_port: PORT, flags, slow_threshold_ns }
}

fn server_tuple() -> TcpSocketTuple {
    TcpSocketTuple {
        pid: TGID,
        tid: TID,
        family: 2,
        saddr_v4: 0x0a00_0001,
        daddr_v4: 0x0a00_0002,
        saddr_v6: [0; 4],
        daddr_v6: [0; 4],
        sport: PORT,
        dport: 50000,
    }
}

fn user_buffer(len: u64) -> MsgIter {
    MsgIter { iter_type: ITER_UBUF, iov_offset: 0, buffer: 0x7000_0000, count: len, iov_base: 0, iov_len: 0 }
}

fn probes(slow_threshold_ns: u64, flags: u16) -> TcpProbeState {
    let mut p = TcpProbeState::new(Some(config(slow_threshold_ns, flags)), 0);
    assert!(p.add_target_tgid(TGID));
    p
}

/// Arrival at 1 ms, read of `body` at `read_ns`.
fn read_request(p: &mut TcpProbeState, body: &[u8], read_ns: u64) {
    p.tcp_data_queue(SOCKET, Some(server_tuple()), 1_000_000);
    p.tcp_recvmsg(TGID, TID, SOCKET, Some(server_tuple()), Some(user_buffer(4096)), read_ns - 10);
    p.tcp_recvmsg_ret(TGID, TID, body.len() as i64, Some(server_tuple()), body, read_ns);
}

#[test]
fn tcp_close_cleans_all_socket_request_state() {
    let mut p = probes(u64::MAX, 0);
    read_request(&mut p, b"POST /evaluate HTTP/1.1\r\n\r\n{}", 2_000_000);
    // A second socket has data queued but not yet read.
    let waiting = SOCKET + 64;
    p.tcp_data_queue(waiting, Some(server_tuple()), 3_000_000);
    assert!(p.request_start(SOCKET).is_some());
    assert!(p.is_active_flow(SOCKET));
    assert!(p.has_request_head(SOCKET));
    assert_eq!(p.payload_arrival(waiting), Some(3_000_000));

    p.inet_sock_set_state(SOCKET, BPF_TCP_ESTABLISHED, BPF_TCP_CLOSE);
    p.inet_sock_set_state(waiting, BPF_TCP_ESTABLISHED, BPF_TCP_CLOSE);

    for socket in [SOCKET, waiting] {
        assert!(p.request_start(socket).is_none());
        assert!(p.payload_arrival(socket).is_none());
        assert!(!p.is_active_flow(socket));
        assert!(!p.has_request_head(socket));
    }
}

#[test]
fn other_state_changes_keep_request_state() {
    let mut p = probes(u64::MAX, 0);
    read_request(&mut p, b"GET / HTTP/1.1\r\n\r\n", 2_000_000);
    p.inet_sock_set_state(SOCKET, BPF_TCP_CLOSE, BPF_TCP_ESTABLISHED);
    assert!(p.request_start(SOCKET).is_some());
    assert!(p.has_request_head(SOCKET));
}

#[test]
fn first_read_opens_the_request_and_later_reads_keep_it() {
    let mut p = probes(u64::MAX, 0);
    read_request(&mut p, b"POST / HTTP/1.1\r\n", 2_000_000);
    let first = p.request_start(SOCKET).unwrap();
    assert_eq!(first.arrival_ns, 1_000_000);
    assert_eq!(first.read_ns, 2_000_000);
    assert!(p.payload_arrival(SOCKET).is_none());
    p.tcp_recvmsg(TGID, TID, SOCKET, Some(server_tuple()), Some(user_buffer(4096)), 2_500_000);
    p.tcp_recvmsg_ret(TGID, TID, 5, Some(server_tuple()), b"hello", 2_600_000);
    assert_eq!(p.request_start(SOCKET).unwrap(), first);
    assert_eq!(p.counters()[RISK_TCP_READ_INDEX], 2);
    assert_eq!(p.counters()[RISK_TCP_PAYLOAD_ARRIVAL_INDEX], 1);
}

#[test]
fn first_arrival_is_kept_until_read() {
    let mut p = probes(u64::MAX, 0);
    p.tcp_data_queue(SOCKET, Some(server_tuple()), 10);
    p.tcp_data_queue(SOCKET, Some(server_tuple()), 20);
    assert_eq!(p.payload_arrival(SOCKET), Some(10));
    assert_eq!(p.counters()[RISK_TCP_PAYLOAD_ARRIVAL_INDEX], 2);
}

#[test]
fn slow_request_reports_phases_payloads_and_http_event() {
    // Threshold 100 ms for phases; the request takes 600 ms from read to write.
    let mut p = probes(100_000_000, 0);
    let body = br#"POST /evaluate HTTP/1.1

{"requestId":"rid-1"}"#;
    read_request(&mut p, body, 2_000_000);
    let response = b"HTTP/1.1 200 OK\r\n\r\n";
    p.tcp_sendmsg(TGID, SOCKET, Some(server_tuple()), Some(user_buffer(response.len() as u64)),
        response.len() as u64, response, 602_000_000);

    assert_eq!(p.counters()[RISK_TCP_WRITE_INDEX], 1);
    assert_eq!(p.counters()[RISK_TCP_SLOW_INDEX], 1);
    assert!(p.request_start(SOCKET).is_none());
    assert!(!p.is_active_flow(SOCKET));
    assert!(!p.has_request_head(SOCKET));

    let out = p.output();
    let mut phases = Vec::new();
    let mut directions = Vec::new();
    for o in out.iter() {
        match o {
            TcpProbeOutput::SlowTcp(e) => phases.push((e.phase, e.latency_ns)),
            TcpProbeOutput::Payload(e) => directions.push((e.direction, e.first_payload().to_vec())),
        }
    }
    assert_eq!(phases, vec![
        (SLOW_TCP_PHASE_READ_TO_WRITE, 600_000_000),
        (SLOW_TCP_PHASE_ARRIVAL_TO_WRITE, 600_000_000),
    ]);
    assert_eq!(directions, vec![
        (HTTP_PAYLOAD_DIRECTION_REQUEST, body.to_vec()),
        (HTTP_PAYLOAD_DIRECTION_RESPONSE, response.to_vec()),
    ]);
    match out.last().unwrap() {
        TcpProbeOutput::SlowTcp(e) => {
            assert_eq!(e.read_to_write_ns, 600_000_000);
            assert_eq!(e.arrival_to_read_ns, 1_000_000);
            assert_eq!(e.socket_key, SOCKET);
            assert_eq!(e.tgid, TGID);
        }
        _ => panic!("the slow request event comes last"),
    }
}

#[test]
fn slow_arrival_to_read_is_reported() {
    let mut p = probes(500_000, 0);
    read_request(&mut p, b"GET / HTTP/1.1\r\n\r\n", 2_000_000);
    let slow: Vec<(u8, u64)> = p.output().iter().filter_map(|o| match o {
        TcpProbeOutput::SlowTcp(e) => Some((e.phase, e.latency_ns)),
        _ => None,
    }).collect();
    assert!(slow.contains(&(SLOW_TCP_PHASE_ARRIVAL_TO_READ, 1_000_000)));
}

#[test]
fn fast_request_reports_nothing() {
    let mut p = probes(u64::MAX, 0);
    read_request(&mut p, b"GET / HTTP/1.1\r\n\r\n", 2_000_000);
    let response = b"HTTP/1.1 204 No Content\r\n\r\n";
    p.tcp_sendmsg(TGID, SOCKET, Some(server_tuple()), Some(user_buffer(64)), response.len() as u64, response, 3_000_000);
    assert!(p.output().is_empty());
    assert_eq!(p.counters()[RISK_TCP_WRITE_INDEX], 1);
    assert_eq!(p.counters()[RISK_TCP_SLOW_INDEX], 0);
}

#[test]
fn trace_all_flag_outputs_payloads_of_fast_requests() {
    let mut p = probes(u64::MAX, 1);
    read_request(&mut p, b"GET / HTTP/1.1\r\n\r\n", 2_000_000);
    let response = b"HTTP/1.1 200 OK\r\n\r\n";
    p.tcp_sendmsg(TGID, SOCKET, Some(server_tuple()), Some(user_buffer(64)), response.len() as u64, response, 3_000_000);
    let payloads = p.output().iter().filter(|o| matches!(o, TcpProbeOutput::Payload(_))).count();
    assert_eq!(payloads, 2);
}

#[test]
fn non_target_process_is_untouched() {
    let mut p = probes(0, 1);
    let mut other = server_tuple();
    other.pid = 1;
    p.tcp_data_queue(SOCKET, Some(server_tuple()), 10);
    p.tcp_recvmsg(1, 2, SOCKET, Some(other), Some(user_buffer(64)), 20);
    p.tcp_recvmsg_ret(1, 2, 5, Some(other), b"hello", 30);
    p.tcp_sendmsg(1, SOCKET, Some(other), Some(user_buffer(64)), 5, b"world", 40);
    assert!(p.request_start(SOCKET).is_none());
    assert_eq!(p.counters()[RISK_TCP_READ_INDEX], 0);
    assert_eq!(p.counters()[RISK_TCP_WRITE_INDEX], 0);
    assert!(p.output().is_empty());
}

#[test]
fn reset_and_retransmit_counters_follow_the_server_port() {
    let mut p = probes(u64::MAX, 0);
    p.tcp_send_reset(PORT);
    p.tcp_receive_reset(PORT);
    p.tcp_receive_reset(PORT);
    p.tcp_retransmit_skb(PORT);
    p.tcp_retransmit_skb(PORT);
    p.tcp_retransmit_skb(PORT);
    p.tcp_retransmit_skb(9999);
    assert_eq!(p.counters()[RISK_TCP_SEND_RESET_INDEX], 1);
    assert_eq!(p.counters()[RISK_TCP_RECEIVE_RESET_INDEX], 2);
    assert_eq!(p.counters()[RISK_TCP_RETRANSMIT_INDEX], 3);
}

#[test]
fn message_user_buffer_by_iterator_type() {
    let ubuf = MsgIter { iter_type: ITER_UBUF, iov_offset: 16, buffer: 0x1000, count: 100, iov_base: 0, iov_len: 0 };
    assert_eq!(msg_user_buffer(ubuf), Some((0x1010, 84)));
    let iovec = MsgIter { iter_type: ITER_IOVEC, iov_offset: 0, buffer: 0x2000, count: 0, iov_base: 0x3000, iov_len: 50 };
    assert_eq!(msg_user_buffer(iovec), Some((0x3000, 50)));
    let consumed = MsgIter { iov_offset: 100, ..ubuf };
    assert_eq!(msg_user_buffer(consumed), None);
    let null = MsgIter { buffer: 0, ..ubuf };
    assert_eq!(msg_user_buffer(null), None);
    let other = MsgIter { iter_type: 5, ..ubuf };
    assert_eq!(msg_user_buffer(other), None);
}

#[test]
fn an_epoll_return_is_credited_to_one_receive_only() {
    let mut p = probes(u64::MAX, 0);
    p.sys_enter_epoll_wait(TGID, TID, 100);
    p.sys_exit_epoll_wait(TGID, TID, 1, 200);
    p.tcp_recvmsg(TGID, TID, SOCKET, Some(server_tuple()), Some(user_buffer(64)), 300);
    p.tcp_recvmsg_ret(TGID, TID, 5, Some(server_tuple()), b"first", 400);
    assert_eq!(p.request_start(SOCKET).unwrap().epoll_exit_ns, 200);
    p.tcp_sendmsg(TGID, SOCKET, Some(server_tuple()), Some(user_buffer(64)), 2, b"ok", 500);
    // The next receive on the thread has no epoll return of its own.
    p.tcp_recvmsg(TGID, TID, SOCKET, Some(server_tuple()), Some(user_buffer(64)), 600);
    p.tcp_recvmsg_ret(TGID, TID, 6, Some(server_tuple()), b"second", 700);
    assert_eq!(p.request_start(SOCKET).unwrap().epoll_exit_ns, 0);
    assert_eq!(p.request_start(SOCKET).unwrap().read_ns, 700);
}

#[test]
fn a_full_ring_buffer_drops_and_counts_records() {
    // Trace-all: every request puts two payload records on the ring buffer.
    let mut p = probes(u64::MAX, 1);
    let mut socket = SOCKET;
    for _ in 0..70 {
        p.tcp_recvmsg(TGID, TID, socket, Some(server_tuple()), Some(user_buffer(64)), 10);
        p.tcp_recvmsg_ret(TGID, TID, 4, Some(server_tuple()), b"GET ", 20);
        p.tcp_sendmsg(TGID, socket, Some(server_tuple()), Some(user_buffer(64)), 3, b"200", 30);
        socket += 8;
    }
    // 262144 bytes hold 126 records of 2072 bytes; the other 14 are dropped.
    assert_eq!(p.output().len(), 126);
    assert_eq!(p.counters()[sword::tcp::RISK_TCP_EVENT_DROPPED_INDEX], 14);
    let drained = p.drain_output();
    assert_eq!(drained.len(), 126);
    assert!(p.output().is_empty());
    p.tcp_recvmsg(TGID, TID, socket, Some(server_tuple()), Some(user_buffer(64)), 10);
    p.tcp_recvmsg_ret(TGID, TID, 4, Some(server_tuple()), b"GET ", 20);
    p.tcp_sendmsg(TGID, socket, Some(server_tuple()), Some(user_buffer(64)), 3, b"200", 30);
    assert_eq!(p.output().len(), 2);
    assert_eq!(p.counters()[sword::tcp::RISK_TCP_EVENT_DROPPED_INDEX], 14);
}

#[test]
fn a_full_arrival_map_evicts_one_other_socket() {
    let mut p = probes(u64::MAX, 0);
    let n: u64 = sword::tcp::TCP_FLOW_LRU_ENTRIES as u64;
    for i in 0..n {
        p.tcp_data_queue(i + 1, Some(server_tuple()), 10 + i);
    }
    let newcomer = n + 1000;
    p.tcp_data_queue(newcomer, Some(server_tuple()), 5);
    assert_eq!(p.payload_arrival(newcomer), Some(5));
    let kept = (0..n).filter(|i| p.payload_arrival(i + 1).is_some()).count() as u64;
    assert_eq!(kept, n - 1);
    // The arrivals that stayed are unchanged.
    for i in 0..n {
        if let Some(t) = p.payload_arrival(i + 1) {
            assert_eq!(t, 10 + i);
        }
    }
}
