//! The TCP probes of the target server: request phases, payload capture and
//! socket lifecycle.
//!
//! The probes keep their state in kernel maps keyed by thread id or by socket
//! address. [`TcpProbeState`] holds those maps as plain collections and applies
//! what each probe decides on its event: what it records, counts, reports on
//! the ring buffer and removes. What a probe reads from the kernel (the socket
//! tuple, the message's buffer fields, the readable user bytes) comes with the
//! event. Hash maps are bounded as the kernel bounds them: an insert of a new
//! key into a full map fails. The LRU maps (request heads, payload arrivals,
//! active flows) take a new key when full by evicting another one, which the
//! kernel chooses; the steps that insert into them hold for whichever key it
//! evicts. The ring buffer takes a record only if it fits beside the records
//! user space has not consumed yet; a record that does not fit is dropped and
//! counted.

use std::collections::HashMap;
use vstd::prelude::*;
use crate::bpf_map::{
    lru_insert, lru_insert_u64, add_wrapping, bounded_insert, bounded_insert_ok, map_insert_bounded, map_insert_bounded_u64,
    saturating_sub, wrapping_add,
};
use crate::common::{
    http_request_capture_lengths, min_int, spec_capture_lengths, zero_request_id, zeros, HttpPayloadEvent,
    HttpRequestId, PayloadModel, RequestTimings, RiskTargetConfig, SlowTcpEvent,
    HTTP_PAYLOAD_CHUNK_MAX_LEN, HTTP_PAYLOAD_DIRECTION_REQUEST, HTTP_PAYLOAD_DIRECTION_RESPONSE,
    RISK_TARGET_FLAG_HTTP_TRACE_ALL, SLOW_TCP_PHASE_ARRIVAL_TO_EPOLL, SLOW_TCP_PHASE_ARRIVAL_TO_READ,
    SLOW_TCP_PHASE_ARRIVAL_TO_WRITE, SLOW_TCP_PHASE_EPOLL_TO_RECV, SLOW_TCP_PHASE_READ_TO_WRITE,
    SLOW_TCP_PHASE_RECV_DURATION,
};

verus! {

broadcast use vstd::std_specs::hash::group_hash_axioms;

pub const RISK_TCP_RETRANSMIT_INDEX: usize = 0;
pub const RISK_TCP_RECEIVE_RESET_INDEX: usize = 1;
pub const RISK_TCP_SEND_RESET_INDEX: usize = 2;
pub const RISK_TCP_READ_INDEX: usize = 3;
pub const RISK_TCP_WRITE_INDEX: usize = 4;
pub const RISK_TCP_SLOW_INDEX: usize = 5;
pub const RISK_TCP_EVENT_DROPPED_INDEX: usize = 6;
pub const RISK_TCP_PAYLOAD_ARRIVAL_INDEX: usize = 7;
pub const RISK_TCP_ARRIVAL_TO_READ_INDEX: usize = 8;
pub const RISK_TCP_ARRIVAL_TO_READ_SLOW_INDEX: usize = 9;
pub const RISK_TCP_ARRIVAL_TO_EPOLL_LATENCY_NS_INDEX: usize = 10;
pub const RISK_TCP_ARRIVAL_TO_EPOLL_SLOW_INDEX: usize = 11;
pub const RISK_TCP_EPOLL_TO_RECV_LATENCY_NS_INDEX: usize = 12;
pub const RISK_TCP_EPOLL_TO_RECV_SLOW_INDEX: usize = 13;
pub const RISK_TCP_RECV_DURATION_NS_INDEX: usize = 14;
pub const RISK_TCP_RECV_DURATION_SLOW_INDEX: usize = 15;
pub const RISK_TCP_COUNTERS: usize = 16;
pub const HTTP_REQUEST_SLOW_THRESHOLD_NS: u64 = 500_000_000;
/// Room of the thread-keyed maps (receives in flight, epoll timestamps) and of the connect starts.
pub const TCP_THREAD_MAP_ENTRIES: usize = 4096;
/// Room of the map of open requests.
pub const TCP_REQUEST_START_ENTRIES: usize = 32768;
/// Room of the LRU maps of payload arrivals and active flows.
pub const TCP_FLOW_LRU_ENTRIES: usize = 32768;
/// Room of the LRU map of request heads.
pub const HTTP_REQUEST_HEADS_ENTRIES: usize = 8192;
pub const BPF_TCP_ESTABLISHED: u32 = 1;
pub const BPF_TCP_SYN_SENT: u32 = 2;
pub const BPF_TCP_CLOSE: u32 = 7;
pub const ITER_UBUF: u8 = 0;
pub const ITER_IOVEC: u8 = 1;

/// A `tcp_recvmsg` that has entered and not yet returned.
#[derive(Clone, Copy, Debug, PartialEq, Eq)]
pub struct TcpRecvInflight {
    pub socket_key: u64,
    pub user_buffer: u64,
    pub buffer_len: u64,
    pub recv_enter_ns: u64,
    pub epoll_exit_ns: u64,
}

/// The timestamps of the request open on a socket.
#[derive(Clone, Copy, Debug, PartialEq, Eq)]
pub struct TcpRequestContext {
    pub arrival_ns: u64,
    pub epoll_exit_ns: u64,
    pub recv_enter_ns: u64,
    pub read_ns: u64,
}

/// The address tuple and owner of a socket, as read from the kernel.
#[derive(Clone, Copy, Debug, PartialEq, Eq)]
pub struct TcpSocketTuple {
    pub pid: u32,
    pub tid: u32,
    pub family: u16,
    pub saddr_v4: u32,
    pub daddr_v4: u32,
    pub saddr_v6: [u32; 4],
    pub daddr_v6: [u32; 4],
    pub sport: u16,
    pub dport: u16,
}

/// The fields of a message's `iov_iter` that locate its user buffer: the
/// iterator type and offset, the buffer field (the buffer itself for a user
/// buffer, the `iovec` array for an `iovec` iterator), the count, and the base
/// and length of the first `iovec`.
#[derive(Clone, Copy, Debug, PartialEq, Eq)]
pub struct MsgIter {
    pub iter_type: u8,
    pub iov_offset: u64,
    pub buffer: u64,
    pub count: u64,
    pub iov_base: u64,
    pub iov_len: u64,
}

/// The user buffer (address, length) a message reads into or writes from, past
/// the bytes already consumed; none for other iterator types, a null buffer or
/// a consumed one.
pub open spec fn spec_msg_user_buffer(it: MsgIter) -> Option<(u64, u64)> {
    let known = it.iter_type == ITER_UBUF || (it.iter_type == ITER_IOVEC && it.buffer != 0);
    let base = if it.iter_type == ITER_UBUF { it.buffer } else { it.iov_base };
    let len = if it.iter_type == ITER_UBUF { it.count } else { it.iov_len };
    if !known || base == 0 || it.iov_offset >= len {
        None
    } else {
        Some((wrapping_add(base, it.iov_offset), (len - it.iov_offset) as u64))
    }
}

pub fn msg_user_buffer(it: MsgIter) -> (r: Option<(u64, u64)>)
    ensures
        r == spec_msg_user_buffer(it),
{
    let (base, len) = if it.iter_type == ITER_UBUF {
        (it.buffer, it.count)
    } else if it.iter_type == ITER_IOVEC {
        if it.buffer == 0 {
            return None;
        }
        (it.iov_base, it.iov_len)
    } else {
        return None;
    };
    if base == 0 || it.iov_offset >= len {
        return None;
    }
    Some((add_wrapping(base, it.iov_offset), len - it.iov_offset))
}

/// What a probe puts on the slow-event ring buffer.
#[derive(Clone, Copy, Debug, PartialEq, Eq)]
pub enum TcpProbeOutput {
    SlowTcp(SlowTcpEvent),
    Payload(HttpPayloadEvent),
}

/// The contents of a [`TcpProbeOutput`].
pub enum OutputModel {
    SlowTcp(SlowTcpEvent),
    Payload(PayloadModel),
}

impl View for TcpProbeOutput {
    type V = OutputModel;

    open spec fn view(&self) -> OutputModel {
        match self {
            TcpProbeOutput::SlowTcp(e) => OutputModel::SlowTcp(*e),
            TcpProbeOutput::Payload(p) => OutputModel::Payload(p@),
        }
    }
}

/// The slow-phase event for a socket: latency and phase, no request phases.
pub open spec fn slow_tcp_event(t: TcpSocketTuple, timestamp_ns: u64, latency_ns: u64, phase: u8) -> SlowTcpEvent {
    SlowTcpEvent {
        timestamp_ns,
        latency_ns,
        arrival_to_epoll_ns: 0,
        epoll_to_recv_ns: 0,
        recv_duration_ns: 0,
        arrival_to_read_ns: 0,
        read_to_write_ns: 0,
        socket_key: 0,
        tgid: t.pid,
        tid: t.tid,
        source_addr_v4: t.saddr_v4,
        destination_addr_v4: t.daddr_v4,
        source_port: t.sport,
        destination_port: t.dport,
        family: t.family,
        phase,
        _pad: 0,
        request_id: zero_request_id(),
    }
}

/// The slow-request event: its latency is the request's own (read to write),
/// with every phase attached.
pub open spec fn slow_http_event(t: TcpSocketTuple, socket_key: u64, timestamp_ns: u64, timings: RequestTimings) -> SlowTcpEvent {
    SlowTcpEvent {
        timestamp_ns,
        latency_ns: timings.read_to_write_ns,
        arrival_to_epoll_ns: timings.arrival_to_epoll_ns,
        epoll_to_recv_ns: timings.epoll_to_recv_ns,
        recv_duration_ns: timings.recv_duration_ns,
        arrival_to_read_ns: timings.arrival_to_read_ns,
        read_to_write_ns: timings.read_to_write_ns,
        socket_key,
        tgid: t.pid,
        tid: t.tid,
        source_addr_v4: t.saddr_v4,
        destination_addr_v4: t.daddr_v4,
        source_port: t.sport,
        destination_port: t.dport,
        family: t.family,
        phase: SLOW_TCP_PHASE_ARRIVAL_TO_WRITE,
        _pad: 0,
        request_id: zero_request_id(),
    }
}

fn make_slow_tcp_event(t: &TcpSocketTuple, timestamp_ns: u64, latency_ns: u64, phase: u8) -> (e: SlowTcpEvent)
    ensures
        e == slow_tcp_event(*t, timestamp_ns, latency_ns, phase),
{
    SlowTcpEvent {
        timestamp_ns,
        latency_ns,
        arrival_to_epoll_ns: 0,
        epoll_to_recv_ns: 0,
        recv_duration_ns: 0,
        arrival_to_read_ns: 0,
        read_to_write_ns: 0,
        socket_key: 0,
        tgid: t.pid,
        tid: t.tid,
        source_addr_v4: t.saddr_v4,
        destination_addr_v4: t.daddr_v4,
        source_port: t.sport,
        destination_port: t.dport,
        family: t.family,
        phase,
        _pad: 0,
        request_id: HttpRequestId::default(),
    }
}

fn make_slow_http_event(t: &TcpSocketTuple, socket_key: u64, timestamp_ns: u64, timings: RequestTimings) -> (e: SlowTcpEvent)
    ensures
        e == slow_http_event(*t, socket_key, timestamp_ns, timings),
{
    SlowTcpEvent {
        timestamp_ns,
        latency_ns: timings.http_request_latency_ns(),
        arrival_to_epoll_ns: timings.arrival_to_epoll_ns,
        epoll_to_recv_ns: timings.epoll_to_recv_ns,
        recv_duration_ns: timings.recv_duration_ns,
        arrival_to_read_ns: timings.arrival_to_read_ns,
        read_to_write_ns: timings.read_to_write_ns,
        socket_key,
        tgid: t.pid,
        tid: t.tid,
        source_addr_v4: t.saddr_v4,
        destination_addr_v4: t.daddr_v4,
        source_port: t.sport,
        destination_port: t.dport,
        family: t.family,
        phase: SLOW_TCP_PHASE_ARRIVAL_TO_WRITE,
        _pad: 0,
        request_id: HttpRequestId::default(),
    }
}

/// Copying `n` bytes at `offset` of the readable user bytes over the start of
/// `dst`: a read past the readable bytes fails and zeroes the destination.
pub open spec fn spec_copy(dst: Seq<u8>, user: Seq<u8>, offset: int, n: int) -> (Seq<u8>, bool) {
    if offset + n <= user.len() {
        (user.subrange(offset, offset + n) + dst.subrange(n, dst.len() as int), true)
    } else {
        (zeros(n as nat) + dst.subrange(n, dst.len() as int), false)
    }
}

fn copy_user_bytes(dst: &mut [u8; HTTP_PAYLOAD_CHUNK_MAX_LEN], user: &[u8], offset: usize, n: usize) -> (ok: bool)
    requires
        n <= HTTP_PAYLOAD_CHUNK_MAX_LEN,
        offset <= HTTP_PAYLOAD_CHUNK_MAX_LEN,
    ensures
        (final(dst)@, ok) == spec_copy(old(dst)@, user@, offset as int, n as int),
{
    let ok = offset + n <= user.len();
    let mut i: usize = 0;
    while i < n
        invariant
            i <= n,
            n <= HTTP_PAYLOAD_CHUNK_MAX_LEN,
            offset <= HTTP_PAYLOAD_CHUNK_MAX_LEN,
            ok == (offset + n <= user@.len()),
            dst@.len() == HTTP_PAYLOAD_CHUNK_MAX_LEN,
            forall|j: int| i <= j < HTTP_PAYLOAD_CHUNK_MAX_LEN ==> dst@[j] == old(dst)@[j],
            forall|j: int| 0 <= j < i ==> dst@[j] == (if ok { user@[offset + j] } else { 0u8 }),
        decreases n - i,
    {
        let b: u8 = if ok { user[offset + i] } else { 0 };
        dst[i] = b;
        i = i + 1;
    }
    proof {
        let r = spec_copy(old(dst)@, user@, offset as int, n as int);
        assert(dst@ =~= r.0);
    }
    ok
}

/// The first capture of a payload: up to two chunks as the capture lengths
/// say; each length is set only where its copy succeeded.
pub open spec fn spec_capture_first(p: PayloadModel, user: Seq<u8>, buffer_len: u64, payload_len: u64) -> PayloadModel {
    let (first, second) = spec_capture_lengths(payload_len, buffer_len);
    if first == 0 {
        p
    } else {
        let c1 = spec_copy(p.first, user, 0, first);
        let p1 = PayloadModel { first: c1.0, first_len: if c1.1 { first as u16 } else { p.first_len }, ..p };
        if second == 0 {
            p1
        } else {
            let c2 = spec_copy(p1.second, user, HTTP_PAYLOAD_CHUNK_MAX_LEN as int, second);
            PayloadModel { second: c2.0, second_len: if c2.1 { second as u16 } else { p1.second_len }, ..p1 }
        }
    }
}

/// A later receive fills the second chunk of a request head once, if it is still empty.
pub open spec fn spec_capture_second(p: PayloadModel, user: Seq<u8>, buffer_len: u64, payload_len: u64) -> PayloadModel {
    let copy_len = min_int(min_int(payload_len as int, buffer_len as int), HTTP_PAYLOAD_CHUNK_MAX_LEN as int);
    if p.second_len != 0 || copy_len == 0 {
        p
    } else {
        let c = spec_copy(p.second, user, 0, copy_len);
        PayloadModel { second: c.0, second_len: if c.1 { copy_len as u16 } else { p.second_len }, ..p }
    }
}

fn capture_first_payload_chunks(p: &mut HttpPayloadEvent, user: &[u8], buffer_len: u64, payload_len: u64)
    ensures
        final(p)@ == spec_capture_first(old(p)@, user@, buffer_len, payload_len),
{
    let (first_len, second_len) = http_request_capture_lengths(payload_len, buffer_len);
    if first_len == 0 {
        return;
    }
    let ok = copy_user_bytes(&mut p.first_bytes, user, 0, first_len);
    if ok {
        p.first_payload_len = first_len as u16;
    }
    if second_len == 0 {
        return;
    }
    let ok2 = copy_user_bytes(&mut p.second_bytes, user, HTTP_PAYLOAD_CHUNK_MAX_LEN, second_len);
    if ok2 {
        p.second_payload_len = second_len as u16;
    }
}

fn capture_second_payload_chunk(p: &mut HttpPayloadEvent, user: &[u8], buffer_len: u64, payload_len: u64)
    ensures
        final(p)@ == spec_capture_second(old(p)@, user@, buffer_len, payload_len),
{
    if p.second_payload_len != 0 {
        return;
    }
    let mut copy_len: u64 = if payload_len < buffer_len { payload_len } else { buffer_len };
    if copy_len > HTTP_PAYLOAD_CHUNK_MAX_LEN as u64 {
        copy_len = HTTP_PAYLOAD_CHUNK_MAX_LEN as u64;
    }
    if copy_len == 0 {
        return;
    }
    let ok = copy_user_bytes(&mut p.second_bytes, user, 0, copy_len as usize);
    if ok {
        p.second_payload_len = copy_len as u16;
    }
}

/// The contents of the TCP probes' maps, counters and ring buffer.
pub struct TcpModel {
    pub target_tgids: Map<u32, u8>,
    pub config: Option<RiskTargetConfig>,
    pub target_pid: u32,
    pub connect_start: Map<u64, u64>,
    pub recv_inflight: Map<u32, TcpRecvInflight>,
    pub epoll_wait_enter: Map<u32, u64>,
    pub epoll_event_exit: Map<u32, u64>,
    pub request_heads: Map<u64, PayloadModel>,
    pub request_start: Map<u64, TcpRequestContext>,
    pub payload_arrival: Map<u64, u64>,
    pub active_flows: Map<u64, u8>,
    pub counters: Seq<u64>,
    pub output: Seq<OutputModel>,
    /// The bytes of the ring buffer taken by the records not yet consumed.
    pub ring_used: nat,
    pub scratch: PayloadModel,
}

/// `c[i] + d`, wrapping.
pub open spec fn counter_add(c: Seq<u64>, i: usize, d: u64) -> Seq<u64> {
    c.update(i as int, wrapping_add(c[i as int], d))
}

/// `s` with counter `i` increased by `d`.
pub open spec fn with_count(s: TcpModel, i: usize, d: u64) -> TcpModel {
    TcpModel { counters: counter_add(s.counters, i, d), ..s }
}

/// Size of the slow-event ring buffer, in bytes.
pub const SLOW_TCP_EVENTS_BYTES: u64 = 262144;
/// What a slow TCP event takes in the ring buffer: the record and its header,
/// rounded up to eight bytes.
pub const SLOW_TCP_EVENT_RECORD_BYTES: u64 = 168;
/// What a payload record takes in the ring buffer: the record and its header,
/// rounded up to eight bytes.
pub const HTTP_PAYLOAD_EVENT_RECORD_BYTES: u64 = 2072;

/// What a record takes in the ring buffer.
pub open spec fn record_bytes(o: OutputModel) -> nat {
    match o {
        OutputModel::SlowTcp(_) => SLOW_TCP_EVENT_RECORD_BYTES as nat,
        OutputModel::Payload(_) => HTTP_PAYLOAD_EVENT_RECORD_BYTES as nat,
    }
}

/// What the records take in the ring buffer.
pub open spec fn ring_bytes(output: Seq<OutputModel>) -> nat
    decreases output.len(),
{
    if output.len() == 0 { 0 } else { ring_bytes(output.drop_last()) + record_bytes(output.last()) }
}

/// `s` after offering `o` to the ring buffer: a record that fits in the room
/// the unconsumed records leave is appended; one that does not is dropped and
/// counted as a dropped event.
pub open spec fn with_output(s: TcpModel, o: OutputModel) -> TcpModel {
    if s.ring_used + record_bytes(o) <= SLOW_TCP_EVENTS_BYTES {
        TcpModel { output: s.output.push(o), ring_used: s.ring_used + record_bytes(o), ..s }
    } else {
        with_count(s, RISK_TCP_EVENT_DROPPED_INDEX, 1)
    }
}

/// The socket tuple of a target server socket: the configured port is its local port.
pub open spec fn server_tuple(s: TcpModel, tuple: Option<TcpSocketTuple>) -> Option<TcpSocketTuple> {
    match (s.config, tuple) {
        (Some(c), Some(t)) => if t.sport == c.server_port { Some(t) } else { None },
        _ => None,
    }
}

/// As [`server_tuple`], and only for a target process.
pub open spec fn target_server_tuple(s: TcpModel, tgid: u32, tuple: Option<TcpSocketTuple>) -> Option<TcpSocketTuple> {
    if s.target_tgids.contains_key(tgid) { server_tuple(s, tuple) } else { None }
}

/// Entering `epoll_wait` in a target process: the thread's last ready time is
/// dropped and its wait start recorded (counted as dropped if the map is full).
pub open spec fn spec_epoll_enter(s: TcpModel, tgid: u32, tid: u32, now: u64) -> TcpModel {
    if !s.target_tgids.contains_key(tgid) {
        s
    } else {
        let ok = bounded_insert_ok(s.epoll_wait_enter, TCP_THREAD_MAP_ENTRIES as nat, tid);
        let s1 = TcpModel {
            epoll_event_exit: s.epoll_event_exit.remove(tid),
            epoll_wait_enter: bounded_insert(s.epoll_wait_enter, TCP_THREAD_MAP_ENTRIES as nat, tid, now),
            ..s
        };
        if ok { s1 } else { with_count(s1, RISK_TCP_EVENT_DROPPED_INDEX, 1) }
    }
}

/// Leaving an `epoll_wait` that the thread entered: events ready record the
/// time they became ready, none clears it.
pub open spec fn spec_epoll_exit(s: TcpModel, tgid: u32, tid: u32, ready: i64, now: u64) -> TcpModel {
    if !s.target_tgids.contains_key(tgid) || !s.epoll_wait_enter.contains_key(tid) {
        s
    } else {
        let s1 = TcpModel { epoll_wait_enter: s.epoll_wait_enter.remove(tid), ..s };
        if ready <= 0 {
            TcpModel { epoll_event_exit: s1.epoll_event_exit.remove(tid), ..s1 }
        } else {
            let ok = bounded_insert_ok(s1.epoll_event_exit, TCP_THREAD_MAP_ENTRIES as nat, tid);
            let s2 = TcpModel {
                epoll_event_exit: bounded_insert(s1.epoll_event_exit, TCP_THREAD_MAP_ENTRIES as nat, tid, now),
                ..s1
            };
            if ok { s2 } else { with_count(s2, RISK_TCP_EVENT_DROPPED_INDEX, 1) }
        }
    }
}

/// Payload queued on a server socket: counted, and its time kept as the
/// request's arrival unless the socket already has an arrival or an open request.
pub open spec fn spec_data_queue(s: TcpModel, socket_key: u64, tuple: Option<TcpSocketTuple>, now: u64, victim: u64) -> TcpModel {
    if server_tuple(s, tuple) is None {
        s
    } else {
        let s1 = with_count(s, RISK_TCP_PAYLOAD_ARRIVAL_INDEX, 1);
        if s.active_flows.contains_key(socket_key) || s.payload_arrival.contains_key(socket_key) {
            s1
        } else {
            TcpModel { payload_arrival: lru_insert(s1.payload_arrival, TCP_FLOW_LRU_ENTRIES as nat, socket_key, now, victim), ..s1 }
        }
    }
}

/// The user buffer of a receive, or none (zero, zero).
pub open spec fn user_buffer_or_none(msg: Option<MsgIter>) -> (u64, u64) {
    match msg {
        Some(it) => match spec_msg_user_buffer(it) {
            Some(b) => b,
            None => (0, 0),
        },
        None => (0, 0),
    }
}

/// Entering `tcp_recvmsg` on a target server socket: the thread's last epoll
/// return is taken (read and removed, so it is credited to this receive only)
/// and the receive is kept in flight for the thread with its buffer, entry
/// time and that epoll return time.
pub open spec fn spec_recvmsg(
    s: TcpModel,
    tgid: u32,
    tid: u32,
    socket_key: u64,
    tuple: Option<TcpSocketTuple>,
    msg: Option<MsgIter>,
    now: u64,
) -> TcpModel {
    if target_server_tuple(s, tgid, tuple) is None {
        s
    } else {
        let (user_buffer, buffer_len) = user_buffer_or_none(msg);
        let epoll_exit_ns = if s.epoll_event_exit.contains_key(tid) { s.epoll_event_exit[tid] } else { 0 };
        let inflight = TcpRecvInflight { socket_key, user_buffer, buffer_len, recv_enter_ns: now, epoll_exit_ns };
        let ok = bounded_insert_ok(s.recv_inflight, TCP_THREAD_MAP_ENTRIES as nat, tid);
        let s1 = TcpModel {
            recv_inflight: bounded_insert(s.recv_inflight, TCP_THREAD_MAP_ENTRIES as nat, tid, inflight),
            epoll_event_exit: s.epoll_event_exit.remove(tid),
            ..s
        };
        if ok { s1 } else { with_count(s1, RISK_TCP_EVENT_DROPPED_INDEX, 1) }
    }
}

/// The scratch payload reset for a new capture on `socket_key` in `direction`.
pub open spec fn reset_payload(p: PayloadModel, socket_key: u64, direction: u8) -> PayloadModel {
    PayloadModel { socket_key, direction, pad: zeros(3), first_len: 0, second_len: 0, ..p }
}

/// Capturing the head of a request: the first read captures up to two chunks
/// and keeps them if any byte was captured; a later read completes the second
/// chunk of the kept head.
pub open spec fn spec_capture_request_head(
    s: TcpModel,
    socket_key: u64,
    inflight: TcpRecvInflight,
    bytes_read: u64,
    first_read: bool,
    user: Seq<u8>,
    victim: u64,
) -> TcpModel {
    if inflight.user_buffer == 0 || inflight.buffer_len == 0 {
        s
    } else if first_read {
        let p = spec_capture_first(
            reset_payload(s.scratch, socket_key, HTTP_PAYLOAD_DIRECTION_REQUEST), user, inflight.buffer_len, bytes_read);
        let s1 = TcpModel { scratch: p, ..s };
        if p.first_len != 0 {
            TcpModel { request_heads: lru_insert(s1.request_heads, HTTP_REQUEST_HEADS_ENTRIES as nat, socket_key, p, victim), ..s1 }
        } else {
            s1
        }
    } else if s.request_heads.contains_key(socket_key) {
        TcpModel {
            request_heads: s.request_heads.insert(
                socket_key,
                spec_capture_second(s.request_heads[socket_key], user, inflight.buffer_len, bytes_read),
            ),
            ..s
        }
    } else {
        s
    }
}

/// One receive phase: its latency is added to its total; reaching the
/// threshold counts it as slow and reports it.
pub open spec fn spec_phase(
    s: TcpModel,
    t: TcpSocketTuple,
    timestamp_ns: u64,
    value: u64,
    total_index: usize,
    slow_index: usize,
    phase: u8,
    threshold: u64,
) -> TcpModel {
    let s1 = with_count(s, total_index, value);
    if value >= threshold {
        with_output(with_count(s1, slow_index, 1), OutputModel::SlowTcp(slow_tcp_event(t, timestamp_ns, value, phase)))
    } else {
        s1
    }
}

/// The receive phases of a request's first read: arrival to epoll, epoll to receive, the receive itself.
pub open spec fn spec_recv_phases(s: TcpModel, t: TcpSocketTuple, timestamp_ns: u64, timings: RequestTimings, threshold: u64) -> TcpModel {
    let s1 = spec_phase(s, t, timestamp_ns, timings.arrival_to_epoll_ns,
        RISK_TCP_ARRIVAL_TO_EPOLL_LATENCY_NS_INDEX, RISK_TCP_ARRIVAL_TO_EPOLL_SLOW_INDEX, SLOW_TCP_PHASE_ARRIVAL_TO_EPOLL, threshold);
    let s2 = spec_phase(s1, t, timestamp_ns, timings.epoll_to_recv_ns,
        RISK_TCP_EPOLL_TO_RECV_LATENCY_NS_INDEX, RISK_TCP_EPOLL_TO_RECV_SLOW_INDEX, SLOW_TCP_PHASE_EPOLL_TO_RECV, threshold);
    spec_phase(s2, t, timestamp_ns, timings.recv_duration_ns,
        RISK_TCP_RECV_DURATION_NS_INDEX, RISK_TCP_RECV_DURATION_SLOW_INDEX, SLOW_TCP_PHASE_RECV_DURATION, threshold)
}

/// The request a successful read belongs to: the open one, or a new one that
/// starts at the socket's payload arrival (zero if none) and this read.
pub open spec fn read_request(s: TcpModel, inflight: TcpRecvInflight, now: u64) -> TcpRequestContext {
    let sk = inflight.socket_key;
    if s.request_start.contains_key(sk) {
        s.request_start[sk]
    } else {
        TcpRequestContext {
            arrival_ns: if s.payload_arrival.contains_key(sk) { s.payload_arrival[sk] } else { 0 },
            epoll_exit_ns: inflight.epoll_exit_ns,
            recv_enter_ns: inflight.recv_enter_ns,
            read_ns: now,
        }
    }
}

/// A successful read on a target server socket. It captures the request head,
/// keeps the request open and counts the read. The first read of a request
/// also marks the flow active and consumes its payload arrival; with an
/// arrival it counts and measures arrival to read (reported when slow) and the
/// receive phases.
pub open spec fn spec_read(
    s: TcpModel,
    inflight: TcpRecvInflight,
    t: TcpSocketTuple,
    bytes_read: u64,
    user: Seq<u8>,
    now: u64,
    head_victim: u64,
    flow_victim: u64,
) -> TcpModel {
    let sk = inflight.socket_key;
    let first_read = !s.request_start.contains_key(sk);
    let request = read_request(s, inflight, now);
    let s2 = spec_capture_request_head(s, sk, inflight, bytes_read, first_read, user, head_victim);
    let ok = bounded_insert_ok(s2.request_start, TCP_REQUEST_START_ENTRIES as nat, sk);
    let s2b = TcpModel {
        request_start: bounded_insert(s2.request_start, TCP_REQUEST_START_ENTRIES as nat, sk, request),
        ..s2
    };
    let s3 = with_count(if ok { s2b } else { with_count(s2b, RISK_TCP_EVENT_DROPPED_INDEX, 1) }, RISK_TCP_READ_INDEX, 1);
    if !first_read {
        s3
    } else {
        let s4 = TcpModel {
            active_flows: lru_insert(s3.active_flows, TCP_FLOW_LRU_ENTRIES as nat, sk, 1, flow_victim),
            payload_arrival: s3.payload_arrival.remove(sk),
            ..s3
        };
        if request.arrival_ns == 0 {
            s4
        } else {
            let s5 = with_count(s4, RISK_TCP_ARRIVAL_TO_READ_INDEX, 1);
            let latency = saturating_sub(now, request.arrival_ns);
            match s5.config {
                None => s5,
                Some(c) => {
                    let s6 = if latency >= c.slow_threshold_ns {
                        with_output(
                            with_count(s5, RISK_TCP_ARRIVAL_TO_READ_SLOW_INDEX, 1),
                            OutputModel::SlowTcp(slow_tcp_event(t, now, latency, SLOW_TCP_PHASE_ARRIVAL_TO_READ)),
                        )
                    } else {
                        s5
                    };
                    spec_recv_phases(
                        s6, t, now,
                        RequestTimings::spec_from_phase_timestamps(
                            request.arrival_ns, request.epoll_exit_ns, request.recv_enter_ns, request.read_ns, request.read_ns),
                        c.slow_threshold_ns,
                    )
                },
            }
        }
    }
}

/// Return of `tcp_recvmsg` on thread `tid`: the receive in flight ends; if it
/// read bytes on a target server socket, the read is recorded.
pub open spec fn spec_recvmsg_ret(
    s: TcpModel,
    tgid: u32,
    tid: u32,
    bytes_read: i64,
    tuple: Option<TcpSocketTuple>,
    user: Seq<u8>,
    now: u64,
    head_victim: u64,
    flow_victim: u64,
) -> TcpModel {
    if !s.recv_inflight.contains_key(tid) {
        s
    } else {
        let inflight = s.recv_inflight[tid];
        let s1 = TcpModel { recv_inflight: s.recv_inflight.remove(tid), ..s };
        if bytes_read <= 0 {
            s1
        } else {
            match target_server_tuple(s1, tgid, tuple) {
                None => s1,
                Some(t) => spec_read(s1, inflight, t, bytes_read as u64, user, now, head_victim, flow_victim),
            }
        }
    }
}

/// Reporting the kept head of the request on `socket_key`, if any.
pub open spec fn spec_output_request(s: TcpModel, socket_key: u64) -> TcpModel {
    if s.request_heads.contains_key(socket_key) {
        with_output(s, OutputModel::Payload(s.request_heads[socket_key]))
    } else {
        s
    }
}

/// Capturing and reporting the response being written, if its buffer is known
/// and any byte of it was captured.
pub open spec fn spec_output_response(s: TcpModel, socket_key: u64, msg: Option<MsgIter>, bytes_to_write: u64, user: Seq<u8>) -> TcpModel {
    match msg {
        None => s,
        Some(it) => match spec_msg_user_buffer(it) {
            None => s,
            Some((_user_buffer, buffer_len)) => {
                let p = spec_capture_first(
                    reset_payload(s.scratch, socket_key, HTTP_PAYLOAD_DIRECTION_RESPONSE), user, buffer_len, bytes_to_write);
                let s1 = TcpModel { scratch: p, ..s };
                if p.first_len != 0 { with_output(s1, OutputModel::Payload(p)) } else { s1 }
            },
        },
    }
}

/// The first write of a request closes it: read to write is measured (and
/// reported when slow); a request slower than 500 ms, or every request when
/// tracing all, has its head and response reported before its slow event; the
/// request and its head are dropped.
pub open spec fn spec_request_written(
    s: TcpModel,
    t: TcpSocketTuple,
    socket_key: u64,
    c: RiskTargetConfig,
    request: TcpRequestContext,
    msg: Option<MsgIter>,
    bytes_to_write: u64,
    user: Seq<u8>,
    now: u64,
) -> TcpModel {
    let rtw = saturating_sub(now, request.read_ns);
    let s3 = if rtw >= c.slow_threshold_ns {
        with_output(with_count(s, RISK_TCP_SLOW_INDEX, 1),
            OutputModel::SlowTcp(slow_tcp_event(t, now, rtw, SLOW_TCP_PHASE_READ_TO_WRITE)))
    } else {
        s
    };
    let timings = RequestTimings::spec_from_phase_timestamps(
        request.arrival_ns, request.epoll_exit_ns, request.recv_enter_ns, request.read_ns, now);
    let slow_http = timings.read_to_write_ns >= HTTP_REQUEST_SLOW_THRESHOLD_NS;
    let trace_all = c.flags & RISK_TARGET_FLAG_HTTP_TRACE_ALL != 0;
    let s4 = if trace_all || slow_http {
        spec_output_response(spec_output_request(s3, socket_key), socket_key, msg, bytes_to_write, user)
    } else {
        s3
    };
    let s5 = if slow_http {
        with_output(s4, OutputModel::SlowTcp(slow_http_event(t, socket_key, now, timings)))
    } else {
        s4
    };
    TcpModel { request_heads: s5.request_heads.remove(socket_key), ..s5 }
}

/// `tcp_sendmsg` on a target server socket: the flow stops being active and the
/// write is counted; the request open on the socket, if any, is closed.
pub open spec fn spec_sendmsg(
    s: TcpModel,
    tgid: u32,
    socket_key: u64,
    tuple: Option<TcpSocketTuple>,
    msg: Option<MsgIter>,
    bytes_to_write: u64,
    user: Seq<u8>,
    now: u64,
) -> TcpModel {
    match target_server_tuple(s, tgid, tuple) {
        None => s,
        Some(t) => {
            let s1 = with_count(TcpModel { active_flows: s.active_flows.remove(socket_key), ..s }, RISK_TCP_WRITE_INDEX, 1);
            if !s1.request_start.contains_key(socket_key) {
                TcpModel { request_heads: s1.request_heads.remove(socket_key), ..s1 }
            } else {
                let request = s1.request_start[socket_key];
                let s2 = TcpModel { request_start: s1.request_start.remove(socket_key), ..s1 };
                match s2.config {
                    None => TcpModel { request_heads: s2.request_heads.remove(socket_key), ..s2 },
                    Some(c) => spec_request_written(s2, t, socket_key, c, request, msg, bytes_to_write, user, now),
                }
            }
        },
    }
}

/// A socket that closes drops every request state kept for it.
pub open spec fn spec_cleanup_socket(s: TcpModel, socket_key: u64) -> TcpModel {
    TcpModel {
        request_start: s.request_start.remove(socket_key),
        payload_arrival: s.payload_arrival.remove(socket_key),
        active_flows: s.active_flows.remove(socket_key),
        request_heads: s.request_heads.remove(socket_key),
        ..s
    }
}

/// `inet_sock_set_state`: entering `TCP_CLOSE` cleans up the socket.
pub open spec fn spec_set_state(s: TcpModel, socket_key: u64, new_state: u32) -> TcpModel {
    if new_state == BPF_TCP_CLOSE { spec_cleanup_socket(s, socket_key) } else { s }
}

/// `tcp_v4_connect` by the target process: the connect's start is kept (if the map has room).
pub open spec fn spec_v4_connect(s: TcpModel, pid: u32, sock: u64, now: u64) -> TcpModel {
    if pid != s.target_pid {
        s
    } else {
        TcpModel { connect_start: bounded_insert(s.connect_start, TCP_THREAD_MAP_ENTRIES as nat, sock, now), ..s }
    }
}

/// A retransmit or reset on the configured server port is counted at `index`.
pub open spec fn spec_count_tcp_event(s: TcpModel, source_port: u16, index: usize) -> TcpModel {
    match s.config {
        Some(c) => if source_port == c.server_port { with_count(s, index, 1) } else { s },
        None => s,
    }
}


/// The maps, counters, scratch buffer and ring buffer of the TCP probes.
pub struct TcpProbeState {
    target_tgids: HashMap<u32, u8>,
    config: Option<RiskTargetConfig>,
    target_pid: u32,
    connect_start: HashMap<u64, u64>,
    recv_inflight: HashMap<u32, TcpRecvInflight>,
    epoll_wait_enter: HashMap<u32, u64>,
    epoll_event_exit: HashMap<u32, u64>,
    request_heads: HashMap<u64, HttpPayloadEvent>,
    request_start: HashMap<u64, TcpRequestContext>,
    payload_arrival: HashMap<u64, u64>,
    active_flows: HashMap<u64, u8>,
    counters: Vec<u64>,
    output: Vec<TcpProbeOutput>,
    ring_used: u64,
    scratch: HttpPayloadEvent,
}

impl View for TcpProbeState {
    type V = TcpModel;

    closed spec fn view(&self) -> TcpModel {
        TcpModel {
            target_tgids: self.target_tgids@,
            config: self.config,
            target_pid: self.target_pid,
            connect_start: self.connect_start@,
            recv_inflight: self.recv_inflight@,
            epoll_wait_enter: self.epoll_wait_enter@,
            epoll_event_exit: self.epoll_event_exit@,
            request_heads: self.request_heads@.map_values(|e: HttpPayloadEvent| e@),
            request_start: self.request_start@,
            payload_arrival: self.payload_arrival@,
            active_flows: self.active_flows@,
            counters: self.counters@,
            output: self.output@.map_values(|o: TcpProbeOutput| o@),
            ring_used: self.ring_used as nat,
            scratch: self.scratch@,
        }
    }
}

impl TcpProbeState {
    /// Whether the state is one the probes can be in: one slot per counter, and
    /// the ring buffer holds its unconsumed records within its size.
    pub open spec fn wf(&self) -> bool {
        &&& self@.counters.len() == RISK_TCP_COUNTERS
        &&& self@.ring_used == ring_bytes(self@.output)
        &&& self@.ring_used <= SLOW_TCP_EVENTS_BYTES
    }

    /// Empty maps, zero counters, an empty ring buffer, the given target settings.
    pub fn new(config: Option<RiskTargetConfig>, target_pid: u32) -> (r: Self)
        ensures
            r.wf(),
            r@.config == config,
            r@.target_pid == target_pid,
            r@.target_tgids.is_empty(),
            r@.connect_start.is_empty(),
            r@.recv_inflight.is_empty(),
            r@.epoll_wait_enter.is_empty(),
            r@.epoll_event_exit.is_empty(),
            r@.request_heads.is_empty(),
            r@.request_start.is_empty(),
            r@.payload_arrival.is_empty(),
            r@.active_flows.is_empty(),
            r@.counters == Seq::new(RISK_TCP_COUNTERS as nat, |i: int| 0u64),
            r@.output.len() == 0,
            r@.ring_used == 0,
    {
        let mut counters: Vec<u64> = Vec::new();
        let mut i: usize = 0;
        while i < RISK_TCP_COUNTERS
            invariant
                i <= RISK_TCP_COUNTERS,
                counters@ == Seq::new(i as nat, |j: int| 0u64),
            decreases RISK_TCP_COUNTERS - i,
        {
            counters.push(0);
            i = i + 1;
            assert(counters@ =~= Seq::new(i as nat, |j: int| 0u64));
        }
        let r = TcpProbeState {
            target_tgids: HashMap::new(),
            config,
            target_pid,
            connect_start: HashMap::new(),
            recv_inflight: HashMap::new(),
            epoll_wait_enter: HashMap::new(),
            epoll_event_exit: HashMap::new(),
            request_heads: HashMap::new(),
            request_start: HashMap::new(),
            payload_arrival: HashMap::new(),
            active_flows: HashMap::new(),
            counters,
            output: Vec::new(),
            ring_used: 0,
            scratch: HttpPayloadEvent::default(),
        };
        assert(r@.request_heads =~= Map::empty());
        assert(r@.output =~= Seq::empty());
        r
    }

    /// Adds a process to the target filter, as user space does; false if the filter is full.
    pub fn add_target_tgid(&mut self, tgid: u32) -> (ok: bool)
        requires
            old(self).wf(),
        ensures
            final(self).wf(),
            final(self)@ == (TcpModel {
                target_tgids: bounded_insert(old(self)@.target_tgids, crate::common::RISK_TARGET_TGIDS_MAX_ENTRIES as nat, tgid, 1),
                ..old(self)@
            }),
            ok == bounded_insert_ok(old(self)@.target_tgids, crate::common::RISK_TARGET_TGIDS_MAX_ENTRIES as nat, tgid),
    {
        map_insert_bounded(&mut self.target_tgids, crate::common::RISK_TARGET_TGIDS_MAX_ENTRIES as usize, tgid, 1)
    }

    /// Removes a process from the target filter.
    pub fn remove_target_tgid(&mut self, tgid: u32)
        requires
            old(self).wf(),
        ensures
            final(self).wf(),
            final(self)@ == (TcpModel { target_tgids: old(self)@.target_tgids.remove(tgid), ..old(self)@ }),
    {
        self.target_tgids.remove(&tgid);
    }

    fn add_risk_tcp_counter(&mut self, index: usize, delta: u64)
        requires
            old(self).wf(),
            index < RISK_TCP_COUNTERS,
        ensures
            final(self).wf(),
            final(self)@ == with_count(old(self)@, index, delta),
    {
        let v = add_wrapping(self.counters[index], delta);
        self.counters.set(index, v);
    }

    /// Offers `o` to the ring buffer (`output_slow_tcp_event`,
    /// `output_slow_http_event`, `output_http_payload`): appended if it fits,
    /// else dropped and counted.
    fn emit(&mut self, o: TcpProbeOutput)
        requires
            old(self).wf(),
        ensures
            final(self).wf(),
            final(self)@ == with_output(old(self)@, o@),
    {
        let cost: u64 = match o {
            TcpProbeOutput::SlowTcp(_) => SLOW_TCP_EVENT_RECORD_BYTES,
            TcpProbeOutput::Payload(_) => HTTP_PAYLOAD_EVENT_RECORD_BYTES,
        };
        if cost <= SLOW_TCP_EVENTS_BYTES - self.ring_used {
            let ghost before = self@.output;
            self.output.push(o);
            self.ring_used = self.ring_used + cost;
            proof {
                assert(self@.output =~= before.push(o@));
                assert(self@.output.drop_last() =~= before);
            }
        } else {
            self.add_risk_tcp_counter(RISK_TCP_EVENT_DROPPED_INDEX, 1);
        }
    }

    /// Consumes the records in the ring buffer, as user space reads them,
    /// freeing their room.
    pub fn drain_output(&mut self) -> (r: Vec<TcpProbeOutput>)
        requires
            old(self).wf(),
        ensures
            final(self).wf(),
            r@.map_values(|o: TcpProbeOutput| o@) == old(self)@.output,
            final(self)@ == (TcpModel { output: Seq::empty(), ring_used: 0, ..old(self)@ }),
    {
        let mut out: Vec<TcpProbeOutput> = Vec::new();
        std::mem::swap(&mut out, &mut self.output);
        self.ring_used = 0;
        assert(self@.output =~= Seq::<OutputModel>::empty());
        out
    }

    fn server_tuple(&self, tuple: Option<TcpSocketTuple>) -> (r: Option<TcpSocketTuple>)
        ensures
            r == server_tuple(self@, tuple),
    {
        match (self.config, tuple) {
            (Some(c), Some(t)) => if t.sport == c.server_port { Some(t) } else { None },
            _ => None,
        }
    }

    fn target_server_tuple(&self, tgid: u32, tuple: Option<TcpSocketTuple>) -> (r: Option<TcpSocketTuple>)
        ensures
            r == target_server_tuple(self@, tgid, tuple),
    {
        if !self.target_tgids.contains_key(&tgid) {
            return None;
        }
        self.server_tuple(tuple)
    }

    /// `sys_enter_epoll_wait` / `sys_enter_epoll_pwait` by thread `tid` of process `tgid`.
    pub fn sys_enter_epoll_wait(&mut self, tgid: u32, tid: u32, now: u64)
        requires
            old(self).wf(),
        ensures
            final(self).wf(),
            final(self)@ == spec_epoll_enter(old(self)@, tgid, tid, now),
    {
        if !self.target_tgids.contains_key(&tgid) {
            return;
        }
        self.epoll_event_exit.remove(&tid);
        let ok = map_insert_bounded(&mut self.epoll_wait_enter, TCP_THREAD_MAP_ENTRIES, tid, now);
        if !ok {
            self.add_risk_tcp_counter(RISK_TCP_EVENT_DROPPED_INDEX, 1);
        }
    }

    /// `sys_exit_epoll_wait` / `sys_exit_epoll_pwait` returning `ready` events.
    pub fn sys_exit_epoll_wait(&mut self, tgid: u32, tid: u32, ready: i64, now: u64)
        requires
            old(self).wf(),
        ensures
            final(self).wf(),
            final(self)@ == spec_epoll_exit(old(self)@, tgid, tid, ready, now),
    {
        if !self.target_tgids.contains_key(&tgid) || !self.epoll_wait_enter.contains_key(&tid) {
            return;
        }
        self.epoll_wait_enter.remove(&tid);
        if ready <= 0 {
            self.epoll_event_exit.remove(&tid);
            return;
        }
        let ok = map_insert_bounded(&mut self.epoll_event_exit, TCP_THREAD_MAP_ENTRIES, tid, now);
        if !ok {
            self.add_risk_tcp_counter(RISK_TCP_EVENT_DROPPED_INDEX, 1);
        }
    }

    /// `tcp_data_queue` on the socket at `socket_key` whose tuple the kernel gave
    /// as `tuple`. Where a new arrival meets a full arrival map, the kernel may
    /// evict another socket's arrival.
    pub fn tcp_data_queue(&mut self, socket_key: u64, tuple: Option<TcpSocketTuple>, now: u64)
        requires
            old(self).wf(),
        ensures
            final(self).wf(),
            exists|victim: u64| #[trigger] spec_data_queue(old(self)@, socket_key, tuple, now, victim) == final(self)@,
    {
        let victim = self.data_queue_step(socket_key, tuple, now);
        assert(spec_data_queue(old(self)@, socket_key, tuple, now, victim@) == self@);
    }

    fn data_queue_step(&mut self, socket_key: u64, tuple: Option<TcpSocketTuple>, now: u64) -> (victim: Ghost<u64>)
        requires
            old(self).wf(),
        ensures
            final(self).wf(),
            final(self)@ == spec_data_queue(old(self)@, socket_key, tuple, now, victim@),
    {
        if self.server_tuple(tuple).is_none() {
            return Ghost(0);
        }
        self.add_risk_tcp_counter(RISK_TCP_PAYLOAD_ARRIVAL_INDEX, 1);
        if self.active_flows.contains_key(&socket_key) || self.payload_arrival.contains_key(&socket_key) {
            return Ghost(0);
        }
        lru_insert_u64(&mut self.payload_arrival, TCP_FLOW_LRU_ENTRIES, socket_key, now)
    }

    /// Entry of `tcp_recvmsg` by thread `tid` of process `tgid` on the socket at `socket_key`.
    pub fn tcp_recvmsg(
        &mut self,
        tgid: u32,
        tid: u32,
        socket_key: u64,
        tuple: Option<TcpSocketTuple>,
        msg: Option<MsgIter>,
        now: u64,
    )
        requires
            old(self).wf(),
        ensures
            final(self).wf(),
            final(self)@ == spec_recvmsg(old(self)@, tgid, tid, socket_key, tuple, msg, now),
    {
        if self.target_server_tuple(tgid, tuple).is_none() {
            return;
        }
        let (user_buffer, buffer_len) = match msg {
            Some(it) => match msg_user_buffer(it) {
                Some(b) => b,
                None => (0, 0),
            },
            None => (0, 0),
        };
        let epoll_exit_ns: u64 = match self.epoll_event_exit.get(&tid) {
            Some(v) => *v,
            None => 0,
        };
        self.epoll_event_exit.remove(&tid);
        let inflight = TcpRecvInflight { socket_key, user_buffer, buffer_len, recv_enter_ns: now, epoll_exit_ns };
        let ok = map_insert_bounded(&mut self.recv_inflight, TCP_THREAD_MAP_ENTRIES, tid, inflight);
        if !ok {
            self.add_risk_tcp_counter(RISK_TCP_EVENT_DROPPED_INDEX, 1);
        }
    }

    fn capture_request_head(
        &mut self,
        socket_key: u64,
        inflight: &TcpRecvInflight,
        bytes_read: u64,
        first_read: bool,
        user: &[u8],
    ) -> (victim: Ghost<u64>)
        requires
            old(self).wf(),
        ensures
            final(self).wf(),
            final(self)@ == spec_capture_request_head(old(self)@, socket_key, *inflight, bytes_read, first_read, user@, victim@),
    {
        if inflight.user_buffer == 0 || inflight.buffer_len == 0 {
            return Ghost(0);
        }
        if first_read {
            self.scratch.socket_key = socket_key;
            self.scratch.direction = HTTP_PAYLOAD_DIRECTION_REQUEST;
            self.scratch._pad = [0u8; 3];
            self.scratch.first_payload_len = 0;
            self.scratch.second_payload_len = 0;
            assert(self.scratch@.pad =~= zeros(3));
            capture_first_payload_chunks(&mut self.scratch, user, inflight.buffer_len, bytes_read);
            if self.scratch.first_payload_len != 0 {
                let head = self.scratch;
                let ghost before = self.request_heads@;
                let victim = lru_insert_u64(&mut self.request_heads, HTTP_REQUEST_HEADS_ENTRIES, socket_key, head);
                proof {
                    let bv = before.map_values(|e: HttpPayloadEvent| e@);
                    assert(bv.dom() =~= before.dom());
                    assert(self@.request_heads =~= lru_insert(bv, HTTP_REQUEST_HEADS_ENTRIES as nat, socket_key, head@, victim@));
                }
                return victim;
            }
            return Ghost(0);
        }
        match self.request_heads.get(&socket_key) {
            Some(head) => {
                let mut head: HttpPayloadEvent = *head;
                capture_second_payload_chunk(&mut head, user, inflight.buffer_len, bytes_read);
                self.request_heads.insert(socket_key, head);
                assert(self@.request_heads =~= old(self)@.request_heads.insert(socket_key, head@));
            },
            None => {},
        }
        Ghost(0)
    }

    fn record_phase(
        &mut self,
        t: &TcpSocketTuple,
        timestamp_ns: u64,
        value: u64,
        total_index: usize,
        slow_index: usize,
        phase: u8,
        threshold: u64,
    )
        requires
            old(self).wf(),
            total_index < RISK_TCP_COUNTERS,
            slow_index < RISK_TCP_COUNTERS,
        ensures
            final(self).wf(),
            final(self)@ == spec_phase(old(self)@, *t, timestamp_ns, value, total_index, slow_index, phase, threshold),
    {
        self.add_risk_tcp_counter(total_index, value);
        if value >= threshold {
            self.add_risk_tcp_counter(slow_index, 1);
            let e = make_slow_tcp_event(t, timestamp_ns, value, phase);
            self.emit(TcpProbeOutput::SlowTcp(e));
        }
    }

    fn record_recv_phase_metrics(&mut self, t: &TcpSocketTuple, timestamp_ns: u64, timings: RequestTimings, threshold: u64)
        requires
            old(self).wf(),
        ensures
            final(self).wf(),
            final(self)@ == spec_recv_phases(old(self)@, *t, timestamp_ns, timings, threshold),
    {
        self.record_phase(t, timestamp_ns, timings.arrival_to_epoll_ns,
            RISK_TCP_ARRIVAL_TO_EPOLL_LATENCY_NS_INDEX, RISK_TCP_ARRIVAL_TO_EPOLL_SLOW_INDEX, SLOW_TCP_PHASE_ARRIVAL_TO_EPOLL, threshold);
        self.record_phase(t, timestamp_ns, timings.epoll_to_recv_ns,
            RISK_TCP_EPOLL_TO_RECV_LATENCY_NS_INDEX, RISK_TCP_EPOLL_TO_RECV_SLOW_INDEX, SLOW_TCP_PHASE_EPOLL_TO_RECV, threshold);
        self.record_phase(t, timestamp_ns, timings.recv_duration_ns,
            RISK_TCP_RECV_DURATION_NS_INDEX, RISK_TCP_RECV_DURATION_SLOW_INDEX, SLOW_TCP_PHASE_RECV_DURATION, threshold);
    }

    fn record_read(&mut self, inflight: &TcpRecvInflight, t: &TcpSocketTuple, bytes_read: u64, user: &[u8], now: u64)
        -> (victims: Ghost<(u64, u64)>)
        requires
            old(self).wf(),
        ensures
            final(self).wf(),
            final(self)@ == spec_read(old(self)@, *inflight, *t, bytes_read, user@, now, victims@.0, victims@.1),
    {
        let socket_key = inflight.socket_key;
        let existing: Option<TcpRequestContext> = match self.request_start.get(&socket_key) {
            Some(r) => Some(*r),
            None => None,
        };
        let first_read = existing.is_none();
        let request = match existing {
            Some(r) => r,
            None => {
                let arrival_ns: u64 = match self.payload_arrival.get(&socket_key) {
                    Some(a) => *a,
                    None => 0,
                };
                TcpRequestContext {
                    arrival_ns,
                    epoll_exit_ns: inflight.epoll_exit_ns,
                    recv_enter_ns: inflight.recv_enter_ns,
                    read_ns: now,
                }
            },
        };
        assert(request == read_request(old(self)@, *inflight, now));
        let head_victim = self.capture_request_head(socket_key, inflight, bytes_read, first_read, user);
        let ok = map_insert_bounded_u64(&mut self.request_start, TCP_REQUEST_START_ENTRIES, socket_key, request);
        if !ok {
            self.add_risk_tcp_counter(RISK_TCP_EVENT_DROPPED_INDEX, 1);
        }
        self.add_risk_tcp_counter(RISK_TCP_READ_INDEX, 1);
        if !first_read {
            return Ghost((head_victim@, 0));
        }
        let flow_victim = lru_insert_u64(&mut self.active_flows, TCP_FLOW_LRU_ENTRIES, socket_key, 1);
        self.payload_arrival.remove(&socket_key);
        let victims = Ghost((head_victim@, flow_victim@));
        if request.arrival_ns == 0 {
            return victims;
        }
        self.add_risk_tcp_counter(RISK_TCP_ARRIVAL_TO_READ_INDEX, 1);
        let latency_ns = now.saturating_sub(request.arrival_ns);
        let config = match self.config {
            Some(c) => c,
            None => { return victims; },
        };
        if latency_ns >= config.slow_threshold_ns {
            self.add_risk_tcp_counter(RISK_TCP_ARRIVAL_TO_READ_SLOW_INDEX, 1);
            let e = make_slow_tcp_event(t, now, latency_ns, SLOW_TCP_PHASE_ARRIVAL_TO_READ);
            self.emit(TcpProbeOutput::SlowTcp(e));
        }
        let timings = RequestTimings::from_phase_timestamps(
            request.arrival_ns, request.epoll_exit_ns, request.recv_enter_ns, request.read_ns, request.read_ns);
        self.record_recv_phase_metrics(t, now, timings, config.slow_threshold_ns);
        victims
    }

    /// Return of `tcp_recvmsg` on thread `tid` of process `tgid` with `bytes_read`;
    /// `tuple` is the kernel's tuple of the socket in flight and `user` the
    /// readable bytes of its buffer.
    pub fn tcp_recvmsg_ret(
        &mut self,
        tgid: u32,
        tid: u32,
        bytes_read: i64,
        tuple: Option<TcpSocketTuple>,
        user: &[u8],
        now: u64,
    )
        requires
            old(self).wf(),
        ensures
            final(self).wf(),
            exists|head_victim: u64, flow_victim: u64|
                #[trigger] spec_recvmsg_ret(old(self)@, tgid, tid, bytes_read, tuple, user@, now, head_victim, flow_victim)
                    == final(self)@,
    {
        let victims = self.recvmsg_ret_step(tgid, tid, bytes_read, tuple, user, now);
        assert(spec_recvmsg_ret(old(self)@, tgid, tid, bytes_read, tuple, user@, now, victims@.0, victims@.1) == self@);
    }

    fn recvmsg_ret_step(
        &mut self,
        tgid: u32,
        tid: u32,
        bytes_read: i64,
        tuple: Option<TcpSocketTuple>,
        user: &[u8],
        now: u64,
    ) -> (victims: Ghost<(u64, u64)>)
        requires
            old(self).wf(),
        ensures
            final(self).wf(),
            final(self)@ == spec_recvmsg_ret(old(self)@, tgid, tid, bytes_read, tuple, user@, now, victims@.0, victims@.1),
    {
        let inflight: TcpRecvInflight = match self.recv_inflight.get(&tid) {
            Some(i) => *i,
            None => { return Ghost((0, 0)); },
        };
        self.recv_inflight.remove(&tid);
        if bytes_read <= 0 {
            return Ghost((0, 0));
        }
        let t = match self.target_server_tuple(tgid, tuple) {
            Some(t) => t,
            None => { return Ghost((0, 0)); },
        };
        self.record_read(&inflight, &t, bytes_read as u64, user, now)
    }

    fn output_http_request_payload(&mut self, socket_key: u64)
        requires
            old(self).wf(),
        ensures
            final(self).wf(),
            final(self)@ == spec_output_request(old(self)@, socket_key),
    {
        match self.request_heads.get(&socket_key) {
            Some(head) => {
                let head: HttpPayloadEvent = *head;
                self.emit(TcpProbeOutput::Payload(head));
            },
            None => {},
        }
    }

    fn output_http_response_payload(&mut self, socket_key: u64, msg: Option<MsgIter>, bytes_to_write: u64, user: &[u8])
        requires
            old(self).wf(),
        ensures
            final(self).wf(),
            final(self)@ == spec_output_response(old(self)@, socket_key, msg, bytes_to_write, user@),
    {
        let it = match msg {
            Some(it) => it,
            None => { return; },
        };
        let (_user_buffer, buffer_len) = match msg_user_buffer(it) {
            Some(b) => b,
            None => { return; },
        };
        self.scratch.socket_key = socket_key;
        self.scratch.direction = HTTP_PAYLOAD_DIRECTION_RESPONSE;
        self.scratch._pad = [0u8; 3];
        self.scratch.first_payload_len = 0;
        self.scratch.second_payload_len = 0;
        assert(self.scratch@.pad =~= zeros(3));
        capture_first_payload_chunks(&mut self.scratch, user, buffer_len, bytes_to_write);
        if self.scratch.first_payload_len != 0 {
            let response = self.scratch;
            self.emit(TcpProbeOutput::Payload(response));
        }
    }

    /// `tcp_sendmsg` by process `tgid` on the socket at `socket_key`, writing
    /// `bytes_to_write` from the message `msg` whose readable user bytes are `user`.
    pub fn tcp_sendmsg(
        &mut self,
        tgid: u32,
        socket_key: u64,
        tuple: Option<TcpSocketTuple>,
        msg: Option<MsgIter>,
        bytes_to_write: u64,
        user: &[u8],
        now: u64,
    )
        requires
            old(self).wf(),
        ensures
            final(self).wf(),
            final(self)@ == spec_sendmsg(old(self)@, tgid, socket_key, tuple, msg, bytes_to_write, user@, now),
    {
        let t = match self.target_server_tuple(tgid, tuple) {
            Some(t) => t,
            None => { return; },
        };
        self.active_flows.remove(&socket_key);
        self.add_risk_tcp_counter(RISK_TCP_WRITE_INDEX, 1);
        let request: TcpRequestContext = match self.request_start.get(&socket_key) {
            Some(r) => *r,
            None => {
                self.request_heads.remove(&socket_key);
                assert(self@.request_heads =~= old(self)@.request_heads.remove(socket_key));
                return;
            },
        };
        self.request_start.remove(&socket_key);
        let config = match self.config {
            Some(c) => c,
            None => {
                self.request_heads.remove(&socket_key);
                assert(self@.request_heads =~= old(self)@.request_heads.remove(socket_key));
                return;
            },
        };
        let ghost s2 = self@;
        let read_to_write_ns = now.saturating_sub(request.read_ns);
        if read_to_write_ns >= config.slow_threshold_ns {
            self.add_risk_tcp_counter(RISK_TCP_SLOW_INDEX, 1);
            let e = make_slow_tcp_event(&t, now, read_to_write_ns, SLOW_TCP_PHASE_READ_TO_WRITE);
            self.emit(TcpProbeOutput::SlowTcp(e));
        }
        let timings = RequestTimings::from_phase_timestamps(
            request.arrival_ns, request.epoll_exit_ns, request.recv_enter_ns, request.read_ns, now);
        let slow_http = timings.http_request_latency_ns() >= HTTP_REQUEST_SLOW_THRESHOLD_NS;
        let trace_all = config.flags & RISK_TARGET_FLAG_HTTP_TRACE_ALL != 0;
        if trace_all || slow_http {
            self.output_http_request_payload(socket_key);
            self.output_http_response_payload(socket_key, msg, bytes_to_write, user);
        }
        if slow_http {
            let e = make_slow_http_event(&t, socket_key, now, timings);
            self.emit(TcpProbeOutput::SlowTcp(e));
        }
        let ghost s5 = self@;
        self.request_heads.remove(&socket_key);
        assert(self@.request_heads =~= s5.request_heads.remove(socket_key));
        assert(self@ == spec_request_written(s2, t, socket_key, config, request, msg, bytes_to_write, user@, now));
    }

    /// `inet_sock_set_state` of the socket at `socket_key` into `new_state`.
    pub fn inet_sock_set_state(&mut self, socket_key: u64, old_state: u32, new_state: u32)
        requires
            old(self).wf(),
        ensures
            final(self).wf(),
            final(self)@ == spec_set_state(old(self)@, socket_key, new_state),
    {
        if new_state == BPF_TCP_CLOSE {
            self.cleanup_socket_request_state(socket_key);
        }
    }

    /// Drops every request state kept for the socket at `socket_key`.
    pub fn cleanup_socket_request_state(&mut self, socket_key: u64)
        requires
            old(self).wf(),
        ensures
            final(self).wf(),
            final(self)@ == spec_cleanup_socket(old(self)@, socket_key),
    {
        self.request_start.remove(&socket_key);
        self.payload_arrival.remove(&socket_key);
        self.active_flows.remove(&socket_key);
        self.request_heads.remove(&socket_key);
        assert(self@.request_heads =~= old(self)@.request_heads.remove(socket_key));
    }

    /// `tcp_v4_connect` by process `pid` on the socket at `sock`.
    pub fn tcp_v4_connect(&mut self, pid: u32, sock: u64, now: u64)
        requires
            old(self).wf(),
        ensures
            final(self).wf(),
            final(self)@ == spec_v4_connect(old(self)@, pid, sock, now),
    {
        if pid != self.target_pid {
            return;
        }
        let _ = map_insert_bounded_u64(&mut self.connect_start, TCP_THREAD_MAP_ENTRIES, sock, now);
    }

    fn count_target_tcp_event(&mut self, source_port: u16, index: usize)
        requires
            old(self).wf(),
            index < RISK_TCP_COUNTERS,
        ensures
            final(self).wf(),
            final(self)@ == spec_count_tcp_event(old(self)@, source_port, index),
    {
        match self.config {
            Some(c) => {
                if source_port == c.server_port {
                    self.add_risk_tcp_counter(index, 1);
                }
            },
            None => {},
        }
    }

    /// `tcp_send_reset` from local port `source_port`.
    pub fn tcp_send_reset(&mut self, source_port: u16)
        requires
            old(self).wf(),
        ensures
            final(self).wf(),
            final(self)@ == spec_count_tcp_event(old(self)@, source_port, RISK_TCP_SEND_RESET_INDEX),
    {
        self.count_target_tcp_event(source_port, RISK_TCP_SEND_RESET_INDEX);
    }

    /// `tcp_receive_reset` on local port `source_port`.
    pub fn tcp_receive_reset(&mut self, source_port: u16)
        requires
            old(self).wf(),
        ensures
            final(self).wf(),
            final(self)@ == spec_count_tcp_event(old(self)@, source_port, RISK_TCP_RECEIVE_RESET_INDEX),
    {
        self.count_target_tcp_event(source_port, RISK_TCP_RECEIVE_RESET_INDEX);
    }

    /// `tcp_retransmit_skb` from local port `source_port`.
    pub fn tcp_retransmit_skb(&mut self, source_port: u16)
        requires
            old(self).wf(),
        ensures
            final(self).wf(),
            final(self)@ == spec_count_tcp_event(old(self)@, source_port, RISK_TCP_RETRANSMIT_INDEX),
    {
        self.count_target_tcp_event(source_port, RISK_TCP_RETRANSMIT_INDEX);
    }

    pub fn counters(&self) -> (r: &Vec<u64>)
        ensures
            r@ == self@.counters,
    {
        &self.counters
    }

    pub fn output(&self) -> (r: &Vec<TcpProbeOutput>)
        ensures
            r@.map_values(|o: TcpProbeOutput| o@) == self@.output,
    {
        &self.output
    }

    /// The request open on `socket_key`, if any.
    pub fn request_start(&self, socket_key: u64) -> (r: Option<TcpRequestContext>)
        ensures
            r == (if self@.request_start.contains_key(socket_key) { Some(self@.request_start[socket_key]) } else { None }),
    {
        match self.request_start.get(&socket_key) {
            Some(r) => Some(*r),
            None => None,
        }
    }

    /// The kept payload arrival of `socket_key`, if any.
    pub fn payload_arrival(&self, socket_key: u64) -> (r: Option<u64>)
        ensures
            r == (if self@.payload_arrival.contains_key(socket_key) { Some(self@.payload_arrival[socket_key]) } else { None }),
    {
        match self.payload_arrival.get(&socket_key) {
            Some(a) => Some(*a),
            None => None,
        }
    }

    /// Whether the flow on `socket_key` is between its first read and first write.
    pub fn is_active_flow(&self, socket_key: u64) -> (r: bool)
        ensures
            r == self@.active_flows.contains_key(socket_key),
    {
        self.active_flows.contains_key(&socket_key)
    }

    /// Whether a request head is kept for `socket_key`.
    pub fn has_request_head(&self, socket_key: u64) -> (r: bool)
        ensures
            r == self@.request_heads.contains_key(socket_key),
    {
        self.request_heads.contains_key(&socket_key)
    }
}


/// A socket entering `TCP_CLOSE` leaves no request state behind (open request,
/// payload arrival, active mark, request head), so a new socket at the same
/// address starts clean; other sockets keep theirs.
pub proof fn lemma_close_cleans_socket(s: TcpModel, socket_key: u64, other: u64)
    requires
        other != socket_key,
    ensures
        ({
            let t = spec_set_state(s, socket_key, BPF_TCP_CLOSE);
            &&& !t.request_start.contains_key(socket_key)
            &&& !t.payload_arrival.contains_key(socket_key)
            &&& !t.active_flows.contains_key(socket_key)
            &&& !t.request_heads.contains_key(socket_key)
            &&& t.request_start.contains_key(other) == s.request_start.contains_key(other)
            &&& t.payload_arrival.contains_key(other) == s.payload_arrival.contains_key(other)
            &&& t.active_flows.contains_key(other) == s.active_flows.contains_key(other)
            &&& t.request_heads.contains_key(other) == s.request_heads.contains_key(other)
        }),
{
}

/// Payload arriving on a socket keeps the first arrival: an arrival already
/// kept, or an active request, is not overwritten (whatever the kernel evicts).
pub proof fn lemma_first_arrival_kept(s: TcpModel, socket_key: u64, tuple: Option<TcpSocketTuple>, now: u64, victim: u64)
    ensures
        ({
            let t = spec_data_queue(s, socket_key, tuple, now, victim);
            &&& s.payload_arrival.contains_key(socket_key) ==> t.payload_arrival[socket_key] == s.payload_arrival[socket_key]
            &&& s.active_flows.contains_key(socket_key) ==> t.payload_arrival == s.payload_arrival
            &&& (server_tuple(s, tuple) is Some && !s.active_flows.contains_key(socket_key)
                && !s.payload_arrival.contains_key(socket_key)) ==> t.payload_arrival[socket_key] == now
        }),
{
}

/// The first successful read of an idle socket opens a request that starts at
/// the socket's payload arrival and at this read, marks the flow active and
/// consumes the arrival (given room for the request; whatever the kernel
/// evicts from its LRU maps).
pub proof fn lemma_first_read_opens_request(
    s: TcpModel,
    inflight: TcpRecvInflight,
    t: TcpSocketTuple,
    bytes_read: u64,
    user: Seq<u8>,
    now: u64,
    head_victim: u64,
    flow_victim: u64,
)
    requires
        s.counters.len() == RISK_TCP_COUNTERS,
        !s.request_start.contains_key(inflight.socket_key),
        s.request_start.len() < TCP_REQUEST_START_ENTRIES,
    ensures
        ({
            let sk = inflight.socket_key;
            let r = spec_read(s, inflight, t, bytes_read, user, now, head_victim, flow_victim);
            &&& r.request_start.contains_key(sk)
            &&& r.request_start[sk] == (TcpRequestContext {
                arrival_ns: if s.payload_arrival.contains_key(sk) { s.payload_arrival[sk] } else { 0 },
                epoll_exit_ns: inflight.epoll_exit_ns,
                recv_enter_ns: inflight.recv_enter_ns,
                read_ns: now,
            })
            &&& r.active_flows.contains_key(sk)
            &&& !r.payload_arrival.contains_key(sk)
        }),
{
    let sk = inflight.socket_key;
    let s2 = spec_capture_request_head(s, sk, inflight, bytes_read, true, user, head_victim);
    assert(s2.request_start == s.request_start);
    assert(s2.payload_arrival == s.payload_arrival);
    assert(s2.active_flows == s.active_flows);
}

/// A later read of the same request keeps the request as it was opened.
pub proof fn lemma_later_read_keeps_request(
    s: TcpModel,
    inflight: TcpRecvInflight,
    t: TcpSocketTuple,
    bytes_read: u64,
    user: Seq<u8>,
    now: u64,
    head_victim: u64,
    flow_victim: u64,
)
    requires
        s.request_start.contains_key(inflight.socket_key),
    ensures
        spec_read(s, inflight, t, bytes_read, user, now, head_victim, flow_victim).request_start == s.request_start,
{
    let sk = inflight.socket_key;
    let s2 = spec_capture_request_head(s, sk, inflight, bytes_read, false, user, head_victim);
    assert(s2.request_start == s.request_start);
    assert(s.request_start.insert(sk, s.request_start[sk]) =~= s.request_start);
}

/// The first write on a target server socket ends the request: no open
/// request, no head and no active mark remain for the socket.
pub proof fn lemma_write_closes_request(
    s: TcpModel,
    tgid: u32,
    socket_key: u64,
    tuple: Option<TcpSocketTuple>,
    msg: Option<MsgIter>,
    bytes_to_write: u64,
    user: Seq<u8>,
    now: u64,
)
    requires
        target_server_tuple(s, tgid, tuple) is Some,
    ensures
        ({
            let t = spec_sendmsg(s, tgid, socket_key, tuple, msg, bytes_to_write, user, now);
            &&& !t.request_start.contains_key(socket_key)
            &&& !t.request_heads.contains_key(socket_key)
            &&& !t.active_flows.contains_key(socket_key)
        }),
{
}

/// A request whose read-to-write time reaches 500 ms is reported: its kept
/// head goes on the ring buffer before its slow-request event, which is the
/// last thing this write reports (given room in the ring buffer for all the
/// write's records).
pub proof fn lemma_slow_request_head_precedes_event(
    s: TcpModel,
    t: TcpSocketTuple,
    socket_key: u64,
    c: RiskTargetConfig,
    request: TcpRequestContext,
    msg: Option<MsgIter>,
    bytes_to_write: u64,
    user: Seq<u8>,
    now: u64,
)
    requires
        request.read_ns != 0,
        now >= request.read_ns,
        now - request.read_ns >= HTTP_REQUEST_SLOW_THRESHOLD_NS,
        s.request_heads.contains_key(socket_key),
        s.ring_used + 2 * SLOW_TCP_EVENT_RECORD_BYTES + 2 * HTTP_PAYLOAD_EVENT_RECORD_BYTES <= SLOW_TCP_EVENTS_BYTES,
    ensures
        ({
            let r = spec_request_written(s, t, socket_key, c, request, msg, bytes_to_write, user, now);
            let timings = RequestTimings::spec_from_phase_timestamps(
                request.arrival_ns, request.epoll_exit_ns, request.recv_enter_ns, request.read_ns, now);
            &&& r.output.len() >= s.output.len() + 2
            &&& r.output.last() == OutputModel::SlowTcp(slow_http_event(t, socket_key, now, timings))
            &&& exists|i: int| s.output.len() <= i < r.output.len() - 1
                && r.output[i] == OutputModel::Payload(s.request_heads[socket_key])
        }),
{
    let rtw = saturating_sub(now, request.read_ns);
    let s3 = if rtw >= c.slow_threshold_ns {
        with_output(with_count(s, RISK_TCP_SLOW_INDEX, 1),
            OutputModel::SlowTcp(slow_tcp_event(t, now, rtw, SLOW_TCP_PHASE_READ_TO_WRITE)))
    } else {
        s
    };
    assert(s3.request_heads == s.request_heads);
    assert(s3.ring_used <= s.ring_used + SLOW_TCP_EVENT_RECORD_BYTES);
    assert(s3.output.len() >= s.output.len());
    let s_req = spec_output_request(s3, socket_key);
    let i = s3.output.len() as int;
    assert(s_req.output == s3.output.push(OutputModel::Payload(s.request_heads[socket_key])));
    assert(s_req.output[i] == OutputModel::Payload(s.request_heads[socket_key]));
    assert(s_req.ring_used == s3.ring_used + HTTP_PAYLOAD_EVENT_RECORD_BYTES);
    let s4 = spec_output_response(s_req, socket_key, msg, bytes_to_write, user);
    assert(s4.output.len() >= s_req.output.len());
    assert(s4.output[i] == s_req.output[i]);
    assert(s4.ring_used <= s_req.ring_used + HTTP_PAYLOAD_EVENT_RECORD_BYTES);
    let timings = RequestTimings::spec_from_phase_timestamps(
        request.arrival_ns, request.epoll_exit_ns, request.recv_enter_ns, request.read_ns, now);
    assert(timings.read_to_write_ns >= HTTP_REQUEST_SLOW_THRESHOLD_NS);
    let s5 = with_output(s4, OutputModel::SlowTcp(slow_http_event(t, socket_key, now, timings)));
    let r = spec_request_written(s, t, socket_key, c, request, msg, bytes_to_write, user, now);
    assert(r.output == s5.output);
    assert(r.output[i] == s4.output[i]);
}

/// Events of processes outside the target filter change nothing.
pub proof fn lemma_non_target_process_untouched(
    s: TcpModel,
    tgid: u32,
    tid: u32,
    socket_key: u64,
    tuple: Option<TcpSocketTuple>,
    msg: Option<MsgIter>,
    ready: i64,
    bytes_to_write: u64,
    user: Seq<u8>,
    now: u64,
)
    requires
        !s.target_tgids.contains_key(tgid),
    ensures
        spec_epoll_enter(s, tgid, tid, now) == s,
        spec_epoll_exit(s, tgid, tid, ready, now) == s,
        spec_recvmsg(s, tgid, tid, socket_key, tuple, msg, now) == s,
        spec_sendmsg(s, tgid, socket_key, tuple, msg, bytes_to_write, user, now) == s,
{
}

/// A request answered within 500 ms of its read, on a target without the
/// trace-all flag, reports neither payloads nor a slow-request event: at most
/// the read-to-write phase event is added (when the ring buffer has room for it).
pub proof fn lemma_fast_request_not_reported(
    s: TcpModel,
    t: TcpSocketTuple,
    socket_key: u64,
    c: RiskTargetConfig,
    request: TcpRequestContext,
    msg: Option<MsgIter>,
    bytes_to_write: u64,
    user: Seq<u8>,
    now: u64,
)
    requires
        c.flags & RISK_TARGET_FLAG_HTTP_TRACE_ALL == 0,
        saturating_sub(now, request.read_ns) < HTTP_REQUEST_SLOW_THRESHOLD_NS,
    ensures
        ({
            let r = spec_request_written(s, t, socket_key, c, request, msg, bytes_to_write, user, now);
            let rtw = saturating_sub(now, request.read_ns);
            &&& rtw < c.slow_threshold_ns ==> r.output == s.output
            &&& rtw >= c.slow_threshold_ns ==> (r.output == s.output || r.output
                == s.output.push(OutputModel::SlowTcp(slow_tcp_event(t, now, rtw, SLOW_TCP_PHASE_READ_TO_WRITE))))
        }),
{
    let timings = RequestTimings::spec_from_phase_timestamps(
        request.arrival_ns, request.epoll_exit_ns, request.recv_enter_ns, request.read_ns, now);
    assert(timings.read_to_write_ns <= saturating_sub(now, request.read_ns));
}

/// Keep-alive: after a write closes a request, the next read on the same
/// socket opens a new request that starts at that read, so a later request is
/// never timed from an earlier one (given room for the request).
pub proof fn lemma_keep_alive_request_starts_at_its_read(
    s: TcpModel,
    tgid: u32,
    tuple: Option<TcpSocketTuple>,
    msg: Option<MsgIter>,
    bytes_to_write: u64,
    written: Seq<u8>,
    write_ns: u64,
    inflight: TcpRecvInflight,
    t: TcpSocketTuple,
    bytes_read: u64,
    read: Seq<u8>,
    read_ns: u64,
    head_victim: u64,
    flow_victim: u64,
)
    requires
        target_server_tuple(s, tgid, tuple) is Some,
        s.counters.len() == RISK_TCP_COUNTERS,
        s.request_start.dom().finite(),
        s.request_start.len() < TCP_REQUEST_START_ENTRIES,
    ensures
        ({
            let sk = inflight.socket_key;
            let w = spec_sendmsg(s, tgid, sk, tuple, msg, bytes_to_write, written, write_ns);
            let r = spec_read(w, inflight, t, bytes_read, read, read_ns, head_victim, flow_victim);
            &&& r.request_start.contains_key(sk)
            &&& r.request_start[sk].read_ns == read_ns
            &&& r.request_start[sk].recv_enter_ns == inflight.recv_enter_ns
            &&& r.active_flows.contains_key(sk)
        }),
{
    let sk = inflight.socket_key;
    let w = spec_sendmsg(s, tgid, sk, tuple, msg, bytes_to_write, written, write_ns);
    lemma_write_closes_request(s, tgid, sk, tuple, msg, bytes_to_write, written, write_ns);
    assert(w.request_start =~= s.request_start.remove(sk) || w.request_start =~= s.request_start);
    assert(w.request_start.len() < TCP_REQUEST_START_ENTRIES);
    assert(w.counters.len() == RISK_TCP_COUNTERS);
    lemma_first_read_opens_request(w, inflight, t, bytes_read, read, read_ns, head_victim, flow_victim);
}

/// A receive entered on a target server socket takes the thread's last epoll
/// return: the receive in flight carries it and the thread holds none after,
/// so one epoll return is credited to at most one receive.
pub proof fn lemma_epoll_return_credited_once(
    s: TcpModel,
    tgid: u32,
    tid: u32,
    socket_key: u64,
    tuple: Option<TcpSocketTuple>,
    msg: Option<MsgIter>,
    now: u64,
)
    requires
        target_server_tuple(s, tgid, tuple) is Some,
        s.recv_inflight.contains_key(tid) || s.recv_inflight.len() < TCP_THREAD_MAP_ENTRIES,
    ensures
        ({
            let r = spec_recvmsg(s, tgid, tid, socket_key, tuple, msg, now);
            &&& !r.epoll_event_exit.contains_key(tid)
            &&& r.recv_inflight.contains_key(tid)
            &&& r.recv_inflight[tid].epoll_exit_ns
                == (if s.epoll_event_exit.contains_key(tid) { s.epoll_event_exit[tid] } else { 0 })
        }),
{
}

/// Offering a record to the ring buffer appends it or leaves the records as
/// they were, and takes no more room than the record's; with room it is appended.
proof fn lemma_with_output_bounds(s: TcpModel, o: OutputModel)
    ensures
        with_output(s, o).ring_used <= s.ring_used + record_bytes(o),
        with_output(s, o).output == s.output.push(o) || with_output(s, o).output == s.output,
        s.ring_used + record_bytes(o) <= SLOW_TCP_EVENTS_BYTES ==> with_output(s, o).output == s.output.push(o),
        with_output(s, o).request_heads == s.request_heads,
{
}

/// A write closing a request whose read-to-write time reaches 500 ms ends with
/// that request's slow-request event, given room for the write's records.
proof fn lemma_request_written_ends_with_event(
    s: TcpModel,
    t: TcpSocketTuple,
    socket_key: u64,
    c: RiskTargetConfig,
    request: TcpRequestContext,
    msg: Option<MsgIter>,
    bytes_to_write: u64,
    user: Seq<u8>,
    now: u64,
)
    requires
        request.read_ns != 0,
        now >= request.read_ns,
        now - request.read_ns >= HTTP_REQUEST_SLOW_THRESHOLD_NS,
        s.ring_used + 2 * SLOW_TCP_EVENT_RECORD_BYTES + 2 * HTTP_PAYLOAD_EVENT_RECORD_BYTES <= SLOW_TCP_EVENTS_BYTES,
    ensures
        ({
            let r = spec_request_written(s, t, socket_key, c, request, msg, bytes_to_write, user, now);
            let timings = RequestTimings::spec_from_phase_timestamps(
                request.arrival_ns, request.epoll_exit_ns, request.recv_enter_ns, request.read_ns, now);
            &&& r.output.len() > s.output.len()
            &&& r.output.last() == OutputModel::SlowTcp(slow_http_event(t, socket_key, now, timings))
        }),
{
    let rtw = saturating_sub(now, request.read_ns);
    let o3 = OutputModel::SlowTcp(slow_tcp_event(t, now, rtw, SLOW_TCP_PHASE_READ_TO_WRITE));
    lemma_with_output_bounds(with_count(s, RISK_TCP_SLOW_INDEX, 1), o3);
    let s3 = if rtw >= c.slow_threshold_ns { with_output(with_count(s, RISK_TCP_SLOW_INDEX, 1), o3) } else { s };
    assert(s3.ring_used <= s.ring_used + SLOW_TCP_EVENT_RECORD_BYTES);
    let s_req = spec_output_request(s3, socket_key);
    if s3.request_heads.contains_key(socket_key) {
        lemma_with_output_bounds(s3, OutputModel::Payload(s3.request_heads[socket_key]));
    }
    assert(s_req.ring_used <= s3.ring_used + HTTP_PAYLOAD_EVENT_RECORD_BYTES);
    let s4 = spec_output_response(s_req, socket_key, msg, bytes_to_write, user);
    assert(s4.ring_used <= s_req.ring_used + HTTP_PAYLOAD_EVENT_RECORD_BYTES);
    assert(s3.output.len() >= s.output.len());
    assert(s_req.output.len() >= s3.output.len());
    assert(s4.output.len() >= s_req.output.len());
    let timings = RequestTimings::spec_from_phase_timestamps(
        request.arrival_ns, request.epoll_exit_ns, request.recv_enter_ns, request.read_ns, now);
    assert(timings.read_to_write_ns >= HTTP_REQUEST_SLOW_THRESHOLD_NS);
    let o5 = OutputModel::SlowTcp(slow_http_event(t, socket_key, now, timings));
    lemma_with_output_bounds(s4, o5);
    let s5 = with_output(s4, o5);
    assert(s5.output == s4.output.push(o5));
}

/// A request answered 500 ms or more after its first read is reported by a
/// slow-request event, the last record of the write, that carries the
/// request's phases field for field: arrival to epoll return and epoll return
/// to receive entry (for an arrival, epoll return and receive entry recorded in
/// that order), the receive itself (receive entry to read), arrival to read,
/// and read to write, which is also its latency; it names the socket, the
/// write's time and the socket's owner and ports (given room in the ring
/// buffer for the write's records).
pub proof fn lemma_slow_request_event_carries_phases(
    s: TcpModel,
    tgid: u32,
    socket_key: u64,
    tuple: Option<TcpSocketTuple>,
    msg: Option<MsgIter>,
    bytes_to_write: u64,
    user: Seq<u8>,
    now: u64,
)
    requires
        target_server_tuple(s, tgid, tuple) is Some,
        s.config is Some,
        s.request_start.contains_key(socket_key),
        s.request_start[socket_key].read_ns != 0,
        s.request_start[socket_key].read_ns <= now,
        now - s.request_start[socket_key].read_ns >= HTTP_REQUEST_SLOW_THRESHOLD_NS,
        s.ring_used + 2 * SLOW_TCP_EVENT_RECORD_BYTES + 2 * HTTP_PAYLOAD_EVENT_RECORD_BYTES <= SLOW_TCP_EVENTS_BYTES,
    ensures
        ({
            let q = s.request_start[socket_key];
            let r = spec_sendmsg(s, tgid, socket_key, tuple, msg, bytes_to_write, user, now);
            let chain = 0 < q.arrival_ns && q.arrival_ns <= q.epoll_exit_ns && q.epoll_exit_ns <= q.recv_enter_ns;
            &&& r.output.len() > s.output.len()
            &&& r.output.last() is SlowTcp
            &&& r.output.last()->SlowTcp_0.phase == SLOW_TCP_PHASE_ARRIVAL_TO_WRITE
            &&& r.output.last()->SlowTcp_0.socket_key == socket_key
            &&& r.output.last()->SlowTcp_0.timestamp_ns == now
            &&& r.output.last()->SlowTcp_0.tgid == tuple->Some_0.pid
            &&& r.output.last()->SlowTcp_0.tid == tuple->Some_0.tid
            &&& r.output.last()->SlowTcp_0.source_port == tuple->Some_0.sport
            &&& r.output.last()->SlowTcp_0.destination_port == tuple->Some_0.dport
            &&& r.output.last()->SlowTcp_0.latency_ns == now - q.read_ns
            &&& r.output.last()->SlowTcp_0.read_to_write_ns == now - q.read_ns
            &&& r.output.last()->SlowTcp_0.arrival_to_epoll_ns
                == (if chain { q.epoll_exit_ns - q.arrival_ns } else { 0 })
            &&& r.output.last()->SlowTcp_0.epoll_to_recv_ns
                == (if chain { q.recv_enter_ns - q.epoll_exit_ns } else { 0 })
            &&& r.output.last()->SlowTcp_0.recv_duration_ns
                == (if 0 < q.recv_enter_ns && q.recv_enter_ns <= q.read_ns { q.read_ns - q.recv_enter_ns } else { 0 })
            &&& r.output.last()->SlowTcp_0.arrival_to_read_ns
                == (if 0 < q.arrival_ns && q.arrival_ns <= q.read_ns { q.read_ns - q.arrival_ns } else { 0 })
        }),
{
    let t = target_server_tuple(s, tgid, tuple)->Some_0;
    let c = s.config->Some_0;
    let q = s.request_start[socket_key];
    let s1 = with_count(TcpModel { active_flows: s.active_flows.remove(socket_key), ..s }, RISK_TCP_WRITE_INDEX, 1);
    let s2 = TcpModel { request_start: s1.request_start.remove(socket_key), ..s1 };
    assert(s2.ring_used == s.ring_used);
    lemma_request_written_ends_with_event(s2, t, socket_key, c, q, msg, bytes_to_write, user, now);
    assert(spec_sendmsg(s, tgid, socket_key, tuple, msg, bytes_to_write, user, now)
        == spec_request_written(s2, t, socket_key, c, q, msg, bytes_to_write, user, now));
}

/// A later read of an open request completes the second chunk of its kept head
/// where that chunk is still empty: with a known user buffer, the chunk becomes
/// the first n bytes of what the read returned, n being the least of the bytes
/// read, the buffer's length and 1024, whenever those n bytes are readable; the
/// first chunk stays as it was (whatever the kernel evicts).
pub proof fn lemma_later_read_completes_second_chunk(
    s: TcpModel,
    tgid: u32,
    tid: u32,
    bytes_read: i64,
    tuple: Option<TcpSocketTuple>,
    user: Seq<u8>,
    now: u64,
    head_victim: u64,
    flow_victim: u64,
)
    requires
        s.recv_inflight.contains_key(tid),
        bytes_read > 0,
        target_server_tuple(s, tgid, tuple) is Some,
        s.request_start.contains_key(s.recv_inflight[tid].socket_key),
        s.request_heads.contains_key(s.recv_inflight[tid].socket_key),
        s.request_heads[s.recv_inflight[tid].socket_key].second_len == 0,
        s.request_heads[s.recv_inflight[tid].socket_key].second.len() == HTTP_PAYLOAD_CHUNK_MAX_LEN,
        s.recv_inflight[tid].user_buffer != 0,
        s.recv_inflight[tid].buffer_len != 0,
        min_int(min_int(bytes_read as int, s.recv_inflight[tid].buffer_len as int), HTTP_PAYLOAD_CHUNK_MAX_LEN as int)
            <= user.len(),
    ensures
        ({
            let sk = s.recv_inflight[tid].socket_key;
            let n = min_int(min_int(bytes_read as int, s.recv_inflight[tid].buffer_len as int), HTTP_PAYLOAD_CHUNK_MAX_LEN as int);
            let r = spec_recvmsg_ret(s, tgid, tid, bytes_read, tuple, user, now, head_victim, flow_victim);
            &&& r.request_heads.contains_key(sk)
            &&& r.request_heads[sk].second_len == n
            &&& r.request_heads[sk].second.len() == HTTP_PAYLOAD_CHUNK_MAX_LEN
            &&& r.request_heads[sk].second.subrange(0, n) == user.subrange(0, n)
            &&& r.request_heads[sk].first == s.request_heads[sk].first
            &&& r.request_heads[sk].first_len == s.request_heads[sk].first_len
        }),
{
    let inflight = s.recv_inflight[tid];
    let sk = inflight.socket_key;
    let n = min_int(min_int(bytes_read as int, inflight.buffer_len as int), HTTP_PAYLOAD_CHUNK_MAX_LEN as int);
    let s1 = TcpModel { recv_inflight: s.recv_inflight.remove(tid), ..s };
    let t = target_server_tuple(s1, tgid, tuple)->Some_0;
    let head = s.request_heads[sk];
    let c = spec_copy(head.second, user, 0, n);
    assert(c.0 =~= user.subrange(0, n) + head.second.subrange(n, head.second.len() as int));
    assert(c.0.subrange(0, n) =~= user.subrange(0, n));
    let s2 = spec_capture_request_head(s1, sk, inflight, bytes_read as u64, false, user, head_victim);
    assert(s2.request_heads == s.request_heads.insert(sk, spec_capture_second(head, user, inflight.buffer_len, bytes_read as u64)));
    assert(spec_recvmsg_ret(s, tgid, tid, bytes_read, tuple, user, now, head_victim, flow_victim)
        == spec_read(s1, inflight, t, bytes_read as u64, user, now, head_victim, flow_victim));
}

/// A later read leaves a kept request head whose second chunk is already
/// filled exactly as it was: the second chunk is captured once.
pub proof fn lemma_later_read_keeps_filled_second_chunk(
    s: TcpModel,
    tgid: u32,
    tid: u32,
    bytes_read: i64,
    tuple: Option<TcpSocketTuple>,
    user: Seq<u8>,
    now: u64,
    head_victim: u64,
    flow_victim: u64,
)
    requires
        s.recv_inflight.contains_key(tid),
        s.request_start.contains_key(s.recv_inflight[tid].socket_key),
        s.request_heads.contains_key(s.recv_inflight[tid].socket_key),
        s.request_heads[s.recv_inflight[tid].socket_key].second_len != 0,
    ensures
        ({
            let sk = s.recv_inflight[tid].socket_key;
            let r = spec_recvmsg_ret(s, tgid, tid, bytes_read, tuple, user, now, head_victim, flow_victim);
            &&& r.request_heads.contains_key(sk)
            &&& r.request_heads[sk] == s.request_heads[sk]
        }),
{
    let inflight = s.recv_inflight[tid];
    let sk = inflight.socket_key;
    let s1 = TcpModel { recv_inflight: s.recv_inflight.remove(tid), ..s };
    if bytes_read > 0 && target_server_tuple(s1, tgid, tuple) is Some {
        let t = target_server_tuple(s1, tgid, tuple)->Some_0;
        assert(spec_recvmsg_ret(s, tgid, tid, bytes_read, tuple, user, now, head_victim, flow_victim)
            == spec_read(s1, inflight, t, bytes_read as u64, user, now, head_victim, flow_victim));
        let s2 = spec_capture_request_head(s1, sk, inflight, bytes_read as u64, false, user, head_victim);
        assert(s2.request_heads =~= s.request_heads.insert(sk, s.request_heads[sk]) || s2.request_heads == s.request_heads);
    }
}

/// One receive phase adds its value to its own total, counts it as slow at its
/// own slow index exactly when it reaches the threshold, may count a dropped
/// event, and touches no other counter; it reports at most its own event.
proof fn lemma_phase_effect(
    s: TcpModel,
    t: TcpSocketTuple,
    timestamp_ns: u64,
    value: u64,
    total_index: usize,
    slow_index: usize,
    phase: u8,
    threshold: u64,
)
    requires
        s.counters.len() == RISK_TCP_COUNTERS,
        total_index < RISK_TCP_COUNTERS,
        slow_index < RISK_TCP_COUNTERS,
        total_index != slow_index,
        total_index != RISK_TCP_EVENT_DROPPED_INDEX,
        slow_index != RISK_TCP_EVENT_DROPPED_INDEX,
    ensures
        ({
            let r = spec_phase(s, t, timestamp_ns, value, total_index, slow_index, phase, threshold);
            &&& r.counters.len() == RISK_TCP_COUNTERS
            &&& r.counters[total_index as int] == wrapping_add(s.counters[total_index as int], value)
            &&& r.counters[slow_index as int] == (if value >= threshold {
                wrapping_add(s.counters[slow_index as int], 1)
            } else {
                s.counters[slow_index as int]
            })
            &&& forall|j: int| 0 <= j < RISK_TCP_COUNTERS && j != total_index && j != slow_index
                && j != RISK_TCP_EVENT_DROPPED_INDEX ==> #[trigger] r.counters[j] == s.counters[j]
            &&& r.output == s.output || r.output
                == s.output.push(OutputModel::SlowTcp(slow_tcp_event(t, timestamp_ns, value, phase)))
        }),
{
}

/// Whether every slow-phase record from `from` on carries its phase's latency.
spec fn phase_events_carry(out: Seq<OutputModel>, from: int, now: u64, a2e: u64, e2r: u64, rd: u64) -> bool {
    forall|i: int| from <= i < out.len() && (#[trigger] out[i]) is SlowTcp ==> {
        let ev = out[i]->SlowTcp_0;
        &&& ev.timestamp_ns == now
        &&& ev.phase == SLOW_TCP_PHASE_ARRIVAL_TO_EPOLL ==> ev.latency_ns == a2e
        &&& ev.phase == SLOW_TCP_PHASE_EPOLL_TO_RECV ==> ev.latency_ns == e2r
        &&& ev.phase == SLOW_TCP_PHASE_RECV_DURATION ==> ev.latency_ns == rd
    }
}

proof fn lemma_phase_events_push(out: Seq<OutputModel>, from: int, now: u64, a2e: u64, e2r: u64, rd: u64, o: OutputModel)
    requires
        0 <= from,
        phase_events_carry(out, from, now, a2e, e2r, rd),
        phase_events_carry(seq![o], 0, now, a2e, e2r, rd),
    ensures
        phase_events_carry(out.push(o), from, now, a2e, e2r, rd),
{
    assert forall|i: int| from <= i < out.push(o).len() && (#[trigger] out.push(o)[i]) is SlowTcp implies {
        let ev = out.push(o)[i]->SlowTcp_0;
        &&& ev.timestamp_ns == now
        &&& ev.phase == SLOW_TCP_PHASE_ARRIVAL_TO_EPOLL ==> ev.latency_ns == a2e
        &&& ev.phase == SLOW_TCP_PHASE_EPOLL_TO_RECV ==> ev.latency_ns == e2r
        &&& ev.phase == SLOW_TCP_PHASE_RECV_DURATION ==> ev.latency_ns == rd
    } by {
        if i < out.len() {
            assert(out.push(o)[i] == out[i]);
        } else {
            assert(out.push(o)[i] == seq![o][0]);
        }
    }
}

/// The first read of a request on a target server socket, with a payload
/// arrival recorded and the thread's epoll return and receive entry after it
/// in that order, adds to the arrival-to-epoll total exactly epoll return minus
/// arrival, to the epoll-to-receive total exactly receive entry minus epoll
/// return, and to the receive-duration total exactly read time minus receive
/// entry (each wrapping); each phase counts as slow exactly when its own
/// latency reaches the threshold, and every slow-phase event the read reports
/// carries the read's time and its own phase's latency (whatever the kernel evicts).
pub proof fn lemma_first_read_phase_totals(
    s: TcpModel,
    tgid: u32,
    tid: u32,
    bytes_read: i64,
    tuple: Option<TcpSocketTuple>,
    user: Seq<u8>,
    now: u64,
    head_victim: u64,
    flow_victim: u64,
)
    requires
        s.counters.len() == RISK_TCP_COUNTERS,
        s.config is Some,
        s.recv_inflight.contains_key(tid),
        bytes_read > 0,
        target_server_tuple(s, tgid, tuple) is Some,
        !s.request_start.contains_key(s.recv_inflight[tid].socket_key),
        s.payload_arrival.contains_key(s.recv_inflight[tid].socket_key),
        0 < s.payload_arrival[s.recv_inflight[tid].socket_key],
        s.payload_arrival[s.recv_inflight[tid].socket_key] <= s.recv_inflight[tid].epoll_exit_ns,
        s.recv_inflight[tid].epoll_exit_ns <= s.recv_inflight[tid].recv_enter_ns,
        s.recv_inflight[tid].recv_enter_ns <= now,
    ensures
        ({
            let inflight = s.recv_inflight[tid];
            let arrival = s.payload_arrival[inflight.socket_key];
            let a2e = (inflight.epoll_exit_ns - arrival) as u64;
            let e2r = (inflight.recv_enter_ns - inflight.epoll_exit_ns) as u64;
            let rd = (now - inflight.recv_enter_ns) as u64;
            let threshold = s.config->Some_0.slow_threshold_ns;
            let r = spec_recvmsg_ret(s, tgid, tid, bytes_read, tuple, user, now, head_victim, flow_victim);
            let c = s.counters;
            &&& r.counters[RISK_TCP_ARRIVAL_TO_EPOLL_LATENCY_NS_INDEX as int]
                == wrapping_add(c[RISK_TCP_ARRIVAL_TO_EPOLL_LATENCY_NS_INDEX as int], a2e)
            &&& r.counters[RISK_TCP_EPOLL_TO_RECV_LATENCY_NS_INDEX as int]
                == wrapping_add(c[RISK_TCP_EPOLL_TO_RECV_LATENCY_NS_INDEX as int], e2r)
            &&& r.counters[RISK_TCP_RECV_DURATION_NS_INDEX as int]
                == wrapping_add(c[RISK_TCP_RECV_DURATION_NS_INDEX as int], rd)
            &&& r.counters[RISK_TCP_ARRIVAL_TO_EPOLL_SLOW_INDEX as int] == (if a2e >= threshold {
                wrapping_add(c[RISK_TCP_ARRIVAL_TO_EPOLL_SLOW_INDEX as int], 1)
            } else {
                c[RISK_TCP_ARRIVAL_TO_EPOLL_SLOW_INDEX as int]
            })
            &&& r.counters[RISK_TCP_EPOLL_TO_RECV_SLOW_INDEX as int] == (if e2r >= threshold {
                wrapping_add(c[RISK_TCP_EPOLL_TO_RECV_SLOW_INDEX as int], 1)
            } else {
                c[RISK_TCP_EPOLL_TO_RECV_SLOW_INDEX as int]
            })
            &&& r.counters[RISK_TCP_RECV_DURATION_SLOW_INDEX as int] == (if rd >= threshold {
                wrapping_add(c[RISK_TCP_RECV_DURATION_SLOW_INDEX as int], 1)
            } else {
                c[RISK_TCP_RECV_DURATION_SLOW_INDEX as int]
            })
            &&& r.output.len() >= s.output.len()
            &&& forall|i: int| s.output.len() <= i < r.output.len() && (#[trigger] r.output[i]) is SlowTcp ==> {
                let ev = r.output[i]->SlowTcp_0;
                &&& ev.timestamp_ns == now
                &&& ev.phase == SLOW_TCP_PHASE_ARRIVAL_TO_EPOLL ==> ev.latency_ns == a2e
                &&& ev.phase == SLOW_TCP_PHASE_EPOLL_TO_RECV ==> ev.latency_ns == e2r
                &&& ev.phase == SLOW_TCP_PHASE_RECV_DURATION ==> ev.latency_ns == rd
            }
        }),
{
    let inflight = s.recv_inflight[tid];
    let sk = inflight.socket_key;
    let arrival = s.payload_arrival[sk];
    let a2e = (inflight.epoll_exit_ns - arrival) as u64;
    let e2r = (inflight.recv_enter_ns - inflight.epoll_exit_ns) as u64;
    let rd = (now - inflight.recv_enter_ns) as u64;
    let cfg = s.config->Some_0;
    let th = cfg.slow_threshold_ns;
    let from = s.output.len() as int;
    let s1 = TcpModel { recv_inflight: s.recv_inflight.remove(tid), ..s };
    let t = target_server_tuple(s1, tgid, tuple)->Some_0;
    let br = bytes_read as u64;
    assert(spec_recvmsg_ret(s, tgid, tid, bytes_read, tuple, user, now, head_victim, flow_victim)
        == spec_read(s1, inflight, t, br, user, now, head_victim, flow_victim));
    let request = read_request(s1, inflight, now);
    assert(request.arrival_ns == arrival);
    let s2 = spec_capture_request_head(s1, sk, inflight, br, true, user, head_victim);
    assert(s2.counters == s.counters && s2.output == s.output && s2.config == s.config);
    let ok = bounded_insert_ok(s2.request_start, TCP_REQUEST_START_ENTRIES as nat, sk);
    let s2b = TcpModel { request_start: bounded_insert(s2.request_start, TCP_REQUEST_START_ENTRIES as nat, sk, request), ..s2 };
    let s3 = with_count(if ok { s2b } else { with_count(s2b, RISK_TCP_EVENT_DROPPED_INDEX, 1) }, RISK_TCP_READ_INDEX, 1);
    let s4 = TcpModel {
        active_flows: lru_insert(s3.active_flows, TCP_FLOW_LRU_ENTRIES as nat, sk, 1, flow_victim),
        payload_arrival: s3.payload_arrival.remove(sk),
        ..s3
    };
    let s5 = with_count(s4, RISK_TCP_ARRIVAL_TO_READ_INDEX, 1);
    let latency = saturating_sub(now, arrival);
    let o2 = OutputModel::SlowTcp(slow_tcp_event(t, now, latency, SLOW_TCP_PHASE_ARRIVAL_TO_READ));
    let s6 = if latency >= th { with_output(with_count(s5, RISK_TCP_ARRIVAL_TO_READ_SLOW_INDEX, 1), o2) } else { s5 };
    assert(s5.output == s.output);
    assert(s6.counters.len() == RISK_TCP_COUNTERS);
    assert(forall|j: int| RISK_TCP_ARRIVAL_TO_EPOLL_LATENCY_NS_INDEX <= j < RISK_TCP_COUNTERS
        ==> #[trigger] s6.counters[j] == s.counters[j]);
    assert(phase_events_carry(s.output, from, now, a2e, e2r, rd));
    assert(phase_events_carry(seq![o2], 0, now, a2e, e2r, rd));
    lemma_phase_events_push(s.output, from, now, a2e, e2r, rd, o2);
    assert(s6.output == s.output || s6.output == s.output.push(o2));
    assert(phase_events_carry(s6.output, from, now, a2e, e2r, rd));
    let timings = RequestTimings::spec_from_phase_timestamps(
        request.arrival_ns, request.epoll_exit_ns, request.recv_enter_ns, request.read_ns, request.read_ns);
    assert(timings.arrival_to_epoll_ns == a2e);
    assert(timings.epoll_to_recv_ns == e2r);
    assert(timings.recv_duration_ns == rd);
    let p1 = spec_phase(s6, t, now, a2e, RISK_TCP_ARRIVAL_TO_EPOLL_LATENCY_NS_INDEX,
        RISK_TCP_ARRIVAL_TO_EPOLL_SLOW_INDEX, SLOW_TCP_PHASE_ARRIVAL_TO_EPOLL, th);
    lemma_phase_effect(s6, t, now, a2e, RISK_TCP_ARRIVAL_TO_EPOLL_LATENCY_NS_INDEX,
        RISK_TCP_ARRIVAL_TO_EPOLL_SLOW_INDEX, SLOW_TCP_PHASE_ARRIVAL_TO_EPOLL, th);
    let e1 = OutputModel::SlowTcp(slow_tcp_event(t, now, a2e, SLOW_TCP_PHASE_ARRIVAL_TO_EPOLL));
    assert(phase_events_carry(seq![e1], 0, now, a2e, e2r, rd));
    lemma_phase_events_push(s6.output, from, now, a2e, e2r, rd, e1);
    assert(phase_events_carry(p1.output, from, now, a2e, e2r, rd));
    let p2 = spec_phase(p1, t, now, e2r, RISK_TCP_EPOLL_TO_RECV_LATENCY_NS_INDEX,
        RISK_TCP_EPOLL_TO_RECV_SLOW_INDEX, SLOW_TCP_PHASE_EPOLL_TO_RECV, th);
    lemma_phase_effect(p1, t, now, e2r, RISK_TCP_EPOLL_TO_RECV_LATENCY_NS_INDEX,
        RISK_TCP_EPOLL_TO_RECV_SLOW_INDEX, SLOW_TCP_PHASE_EPOLL_TO_RECV, th);
    let e2 = OutputModel::SlowTcp(slow_tcp_event(t, now, e2r, SLOW_TCP_PHASE_EPOLL_TO_RECV));
    assert(phase_events_carry(seq![e2], 0, now, a2e, e2r, rd));
    lemma_phase_events_push(p1.output, from, now, a2e, e2r, rd, e2);
    assert(phase_events_carry(p2.output, from, now, a2e, e2r, rd));
    let p3 = spec_phase(p2, t, now, rd, RISK_TCP_RECV_DURATION_NS_INDEX,
        RISK_TCP_RECV_DURATION_SLOW_INDEX, SLOW_TCP_PHASE_RECV_DURATION, th);
    lemma_phase_effect(p2, t, now, rd, RISK_TCP_RECV_DURATION_NS_INDEX,
        RISK_TCP_RECV_DURATION_SLOW_INDEX, SLOW_TCP_PHASE_RECV_DURATION, th);
    let e3 = OutputModel::SlowTcp(slow_tcp_event(t, now, rd, SLOW_TCP_PHASE_RECV_DURATION));
    assert(phase_events_carry(seq![e3], 0, now, a2e, e2r, rd));
    lemma_phase_events_push(p2.output, from, now, a2e, e2r, rd, e3);
    assert(phase_events_carry(p3.output, from, now, a2e, e2r, rd));
    assert(spec_read(s1, inflight, t, br, user, now, head_victim, flow_victim) == p3);
}

} // verus!
