//! Records shared between the probes and user space, and the pure logic on them.

use vstd::prelude::*;

verus! {

pub const SCHED_SWITCH_TARGET_TIDS_MAX_ENTRIES: u32 = 4096;
pub const SCHED_SWITCH_THREAD_STATE_MAX_ENTRIES: u32 = 32768;
pub const TASK_COMM_LEN: usize = 16;
pub const RISK_TARGET_CONFIG_MAX_ENTRIES: u32 = 1;
pub const RISK_TARGET_TGIDS_MAX_ENTRIES: u32 = 128;
pub const SLOW_TCP_PHASE_READ_TO_WRITE: u8 = 1;
pub const SLOW_TCP_PHASE_ARRIVAL_TO_READ: u8 = 2;
pub const SLOW_TCP_PHASE_ARRIVAL_TO_WRITE: u8 = 3;
pub const SLOW_TCP_PHASE_ARRIVAL_TO_EPOLL: u8 = 4;
pub const SLOW_TCP_PHASE_EPOLL_TO_RECV: u8 = 5;
pub const SLOW_TCP_PHASE_RECV_DURATION: u8 = 6;
pub const HTTP_REQUEST_ID_MAX_LEN: usize = 64;
pub const HTTP_PAYLOAD_CHUNK_MAX_LEN: usize = 1024;
pub const HTTP_PAYLOAD_DIRECTION_REQUEST: u8 = 1;
pub const HTTP_PAYLOAD_DIRECTION_RESPONSE: u8 = 2;
pub const RISK_TARGET_FLAG_HTTP_TRACE_ALL: u16 = 1;

/// Length of the JSON key prefix `"requestId":"` that opens a request id.
pub const HTTP_REQUEST_ID_PREFIX_LEN: usize = 13;

pub open spec fn min_int(a: int, b: int) -> int {
    if a <= b { a } else { b }
}

/// How many bytes of a received payload go to the first and to the second
/// capture chunk: the readable bytes are capped by the user buffer and by two
/// chunks, the first chunk is filled first.
pub open spec fn spec_capture_lengths(bytes_read: u64, buffer_len: u64) -> (int, int) {
    let available = min_int(min_int(bytes_read as int, buffer_len as int), 2 * HTTP_PAYLOAD_CHUNK_MAX_LEN);
    let first = min_int(available, HTTP_PAYLOAD_CHUNK_MAX_LEN as int);
    (first, min_int(available - first, HTTP_PAYLOAD_CHUNK_MAX_LEN as int))
}

pub fn http_request_capture_lengths(bytes_read: u64, buffer_len: u64) -> (r: (usize, usize))
    ensures
        r.0 as int == spec_capture_lengths(bytes_read, buffer_len).0,
        r.1 as int == spec_capture_lengths(bytes_read, buffer_len).1,
{
    let mut available: u64 = if bytes_read < buffer_len { bytes_read } else { buffer_len };
    if available > 2048 {
        available = 2048;
    }
    let available: usize = available as usize;
    let first_len: usize = if available < HTTP_PAYLOAD_CHUNK_MAX_LEN { available } else { HTTP_PAYLOAD_CHUNK_MAX_LEN };
    let rest: usize = available - first_len;
    let second_len: usize = if rest < HTTP_PAYLOAD_CHUNK_MAX_LEN { rest } else { HTTP_PAYLOAD_CHUNK_MAX_LEN };
    (first_len, second_len)
}


pub const HTTP_REQUEST_ID_QUOTE: u8 = 34;

/// The bytes of the JSON key prefix `"requestId":"`.
pub open spec fn request_id_prefix() -> Seq<u8> {
    seq![34u8, 114u8, 101u8, 113u8, 117u8, 101u8, 115u8, 116u8, 73u8, 100u8, 34u8, 58u8, 34u8]
}

fn request_id_prefix_byte(i: usize) -> (b: u8)
    requires
        i < HTTP_REQUEST_ID_PREFIX_LEN,
    ensures
        b == request_id_prefix()[i as int],
{
    let prefix: [u8; 13] = [34, 114, 101, 113, 117, 101, 115, 116, 73, 100, 34, 58, 34];
    assert(prefix@ =~= request_id_prefix());
    prefix[i]
}

/// A request id captured from an HTTP payload.
#[derive(Clone, Copy, Debug, PartialEq, Eq)]
pub struct HttpRequestId {
    pub bytes: [u8; HTTP_REQUEST_ID_MAX_LEN],
    pub len: u8,
    pub _pad: [u8; 7],
}

impl HttpRequestId {
    /// The record that holds `id`: its bytes first, zeros after them.
    pub open spec fn holds(self, id: Seq<u8>) -> bool {
        &&& id.len() <= HTTP_REQUEST_ID_MAX_LEN
        &&& self.len as int == id.len()
        &&& self.bytes@.subrange(0, id.len() as int) == id
        &&& forall|i: int| id.len() <= i < HTTP_REQUEST_ID_MAX_LEN ==> self.bytes@[i] == 0
        &&& forall|i: int| 0 <= i < 7 ==> self._pad@[i] == 0
    }

    pub fn as_bytes(&self) -> (r: &[u8])
        requires
            self.len <= HTTP_REQUEST_ID_MAX_LEN,
        ensures
            r@ == self.bytes@.subrange(0, self.len as int),
    {
        let len: usize = self.len as usize;
        &self.bytes[0..len]
    }
}

/// The empty request id: all bytes zero.
pub open spec fn zero_request_id() -> HttpRequestId {
    HttpRequestId {
        bytes: vstd::array::spec_array_fill_for_copy_type::<u8, HTTP_REQUEST_ID_MAX_LEN>(0),
        len: 0,
        _pad: vstd::array::spec_array_fill_for_copy_type::<u8, 7>(0),
    }
}

impl Default for HttpRequestId {
    fn default() -> (r: Self)
        ensures
            r.holds(Seq::empty()),
            r == zero_request_id(),
    {
        let r = HttpRequestId { bytes: [0u8; HTTP_REQUEST_ID_MAX_LEN], len: 0, _pad: [0u8; 7] };
        assert(r.bytes@.subrange(0, 0) =~= Seq::<u8>::empty());
        r
    }
}

/// The abstract state of the request-id scanner.
pub struct ScanState {
    /// How many bytes of the key prefix have been matched.
    pub prefix_len: nat,
    /// Whether the scanner is inside the id value.
    pub capturing: bool,
    /// Whether an id has been captured completely.
    pub complete: bool,
    /// The id bytes captured so far.
    pub id: Seq<u8>,
}

/// One byte of the scan. A complete scan ignores further bytes. Inside a value,
/// a quote closes it (complete if anything was captured); a 65th byte drops the
/// value and returns to searching. Outside a value, the scanner matches the key
/// prefix byte by byte; a mismatch restarts the match, at one if the byte is a quote.
pub open spec fn scan_step(s: ScanState, b: u8) -> ScanState {
    if s.complete {
        s
    } else if s.capturing {
        if b == HTTP_REQUEST_ID_QUOTE {
            ScanState { capturing: false, complete: s.id.len() != 0, ..s }
        } else if s.id.len() >= HTTP_REQUEST_ID_MAX_LEN {
            ScanState { prefix_len: 0, capturing: false, complete: false, id: Seq::empty() }
        } else {
            ScanState { id: s.id.push(b), ..s }
        }
    } else if s.prefix_len >= HTTP_REQUEST_ID_PREFIX_LEN {
        ScanState { prefix_len: 0, ..s }
    } else if b == request_id_prefix()[s.prefix_len as int] {
        if s.prefix_len + 1 == HTTP_REQUEST_ID_PREFIX_LEN {
            ScanState { prefix_len: 0, capturing: true, ..s }
        } else {
            ScanState { prefix_len: s.prefix_len + 1, ..s }
        }
    } else {
        ScanState { prefix_len: if b == HTTP_REQUEST_ID_QUOTE { 1 } else { 0 }, ..s }
    }
}

/// The scan of a byte stream, one byte after the other.
pub open spec fn scan(s: ScanState, bytes: Seq<u8>) -> ScanState
    decreases bytes.len(),
{
    if bytes.len() == 0 {
        s
    } else {
        scan_step(scan(s, bytes.drop_last()), bytes.last())
    }
}

/// The state in which the scanner starts.
pub open spec fn scan_start() -> ScanState {
    ScanState { prefix_len: 0, capturing: false, complete: false, id: Seq::empty() }
}

/// Scanner for the `requestId` value of a JSON body that arrives in chunks.
#[derive(Clone, Copy, Debug, PartialEq, Eq)]
pub struct HttpRequestIdState {
    request_id: HttpRequestId,
    prefix_len: u8,
    capturing: u8,
    complete: u8,
    _pad: [u8; 5],
}

impl View for HttpRequestIdState {
    type V = ScanState;

    closed spec fn view(&self) -> ScanState {
        ScanState {
            prefix_len: self.prefix_len as nat,
            capturing: self.capturing != 0,
            complete: self.complete != 0,
            id: self.request_id.bytes@.subrange(0, self.request_id.len as int),
        }
    }
}

impl HttpRequestIdState {
    #[verifier::type_invariant]
    closed spec fn well_formed(self) -> bool {
        &&& self.request_id.holds(self.request_id.bytes@.subrange(0, self.request_id.len as int))
        &&& self.prefix_len < HTTP_REQUEST_ID_PREFIX_LEN
        &&& self.capturing <= 1
        &&& self.complete <= 1
        &&& forall|i: int| 0 <= i < 5 ==> self._pad@[i] == 0
    }

    /// A state that can be reached: what the record holds is bounded as the scanner bounds it.
    pub open spec fn reachable(s: ScanState) -> bool {
        s.prefix_len < HTTP_REQUEST_ID_PREFIX_LEN && s.id.len() <= HTTP_REQUEST_ID_MAX_LEN
    }

    /// Feeds the next received bytes to the scanner.
    pub fn consume(&mut self, chunk: &[u8])
        ensures
            final(self)@ == scan(old(self)@, chunk@),
            Self::reachable(final(self)@),
    {
        proof { use_type_invariant(&*self); }
        let ghost start = self@;
        let mut i: usize = 0;
        while i < chunk.len()
            invariant
                i <= chunk.len(),
                self@ == scan(start, chunk@.subrange(0, i as int)),
                start == old(self)@,
            decreases chunk.len() - i,
        {
            proof {
                use_type_invariant(&*self);
                assert(chunk@.subrange(0, i + 1).drop_last() =~= chunk@.subrange(0, i as int));
            }
            if self.complete != 0 {
                proof {
                    let done = chunk@.subrange(0, i as int);
                    let rest = chunk@.subrange(i as int, chunk@.len() as int);
                    assert(self@.complete);
                    lemma_scan_complete_stays(self@, rest);
                    lemma_scan_append(start, done, rest);
                    assert(done + rest =~= chunk@);
                    assert(scan(start, chunk@) == scan(self@, rest));
                    use_type_invariant(&*self);
                }
                return;
            }
            let byte = chunk[i];
            self.step(byte);
            i = i + 1;
        }
        assert(chunk@.subrange(0, chunk@.len() as int) =~= chunk@);
        proof { use_type_invariant(&*self); }
    }

    fn step(&mut self, byte: u8)
        requires
            !old(self)@.complete,
        ensures
            final(self)@ == scan_step(old(self)@, byte),
    {
        proof { use_type_invariant(&*self); }
        if self.capturing != 0 {
            if byte == HTTP_REQUEST_ID_QUOTE {
                if self.request_id.len != 0 {
                    self.complete = 1;
                }
                self.capturing = 0;
                return;
            }
            let index: usize = self.request_id.len as usize;
            if index >= HTTP_REQUEST_ID_MAX_LEN {
                self.capturing = 0;
                self.prefix_len = 0;
                self.request_id = HttpRequestId::default();
                proof { assert(self@.id =~= Seq::<u8>::empty()); }
                return;
            }
            let mut id = self.request_id;
            let ghost old_id = self@.id;
            id.bytes[index] = byte;
            id.len = id.len + 1;
            proof {
                assert(id.bytes@.subrange(0, id.len as int) =~= old_id.push(byte));
            }
            self.request_id = id;
            return;
        }
        let prefix_index: usize = self.prefix_len as usize;
        let expected = request_id_prefix_byte(prefix_index);
        if byte == expected {
            if prefix_index + 1 == HTTP_REQUEST_ID_PREFIX_LEN {
                self.prefix_len = 0;
                self.capturing = 1;
            } else {
                self.prefix_len = self.prefix_len + 1;
            }
        } else {
            self.prefix_len = if byte == HTTP_REQUEST_ID_QUOTE { 1 } else { 0 };
        }
    }

    pub fn is_complete(&self) -> (r: bool)
        ensures
            r == self@.complete,
    {
        self.complete != 0
    }

    pub fn as_bytes(&self) -> (r: &[u8])
        ensures
            r@ == self@.id,
    {
        proof { use_type_invariant(self); }
        self.request_id.as_bytes()
    }

    pub fn request_id(&self) -> (r: HttpRequestId)
        ensures
            r.holds(self@.id),
    {
        proof { use_type_invariant(self); }
        self.request_id
    }
}

impl Default for HttpRequestIdState {
    fn default() -> (r: Self)
        ensures
            r@ == scan_start(),
    {
        let r = HttpRequestIdState {
            request_id: HttpRequestId::default(),
            prefix_len: 0,
            capturing: 0,
            complete: 0,
            _pad: [0u8; 5],
        };
        assert(r@.id =~= Seq::<u8>::empty());
        r
    }
}

/// Once an id is complete, the scanner ignores whatever follows.
pub proof fn lemma_scan_complete_stays(s: ScanState, bytes: Seq<u8>)
    requires
        s.complete,
    ensures
        scan(s, bytes) == s,
    decreases bytes.len(),
{
    if bytes.len() > 0 {
        lemma_scan_complete_stays(s, bytes.drop_last());
    }
}

/// Scanning two chunks one after the other is scanning their concatenation:
/// where a receive splits the payload does not matter.
pub proof fn lemma_scan_append(s: ScanState, a: Seq<u8>, b: Seq<u8>)
    ensures
        scan(scan(s, a), b) == scan(s, a + b),
    decreases b.len(),
{
    if b.len() == 0 {
        assert(a + b =~= a);
    } else {
        lemma_scan_append(s, a, b.drop_last());
        assert((a + b).drop_last() =~= a + b.drop_last());
        assert((a + b).last() == b.last());
    }
}


proof fn lemma_prefix_bytes()
    ensures
        request_id_prefix().len() == HTTP_REQUEST_ID_PREFIX_LEN,
        request_id_prefix()[0] == HTTP_REQUEST_ID_QUOTE,
        request_id_prefix()[10] == HTTP_REQUEST_ID_QUOTE,
        request_id_prefix()[12] == HTTP_REQUEST_ID_QUOTE,
        forall|k: int|
            0 <= k < HTTP_REQUEST_ID_PREFIX_LEN && k != 0 && k != 10 && k != 12
                ==> request_id_prefix()[k] != HTTP_REQUEST_ID_QUOTE,
{
    let p = request_id_prefix();
    assert(p[1] == 114 && p[2] == 101 && p[3] == 113 && p[4] == 117 && p[5] == 101
        && p[6] == 115 && p[7] == 116 && p[8] == 73 && p[9] == 100 && p[11] == 58);
}

proof fn lemma_scan_prefix_steps(s: ScanState, k: nat)
    requires
        1 <= k < HTTP_REQUEST_ID_PREFIX_LEN,
        !s.complete,
        !s.capturing,
        s.prefix_len < HTTP_REQUEST_ID_PREFIX_LEN,
        s.prefix_len != 10,
        s.prefix_len != 12,
    ensures
        scan(s, request_id_prefix().take(k as int)) == (ScanState { prefix_len: k, ..s }),
    decreases k,
{
    let p = request_id_prefix();
    lemma_prefix_bytes();
    if k == 1 {
        assert(p.take(1).drop_last() =~= Seq::<u8>::empty());
        assert(p.take(1).last() == HTTP_REQUEST_ID_QUOTE);
        assert(scan(s, p.take(1).drop_last()) == s);
    } else {
        lemma_scan_prefix_steps(s, (k - 1) as nat);
        assert(p.take(k as int).drop_last() =~= p.take(k - 1));
        assert(p.take(k as int).last() == p[k - 1]);
    }
}

proof fn lemma_scan_captures(s: ScanState, id: Seq<u8>)
    requires
        !s.complete,
        s.capturing,
        s.id.len() + id.len() <= HTTP_REQUEST_ID_MAX_LEN,
        forall|i: int| 0 <= i < id.len() ==> id[i] != HTTP_REQUEST_ID_QUOTE,
    ensures
        scan(s, id) == (ScanState { id: s.id + id, ..s }),
    decreases id.len(),
{
    if id.len() == 0 {
        assert(s.id + id =~= s.id);
    } else {
        lemma_scan_captures(s, id.drop_last());
        assert(id.last() == id[id.len() - 1]);
        assert((s.id + id.drop_last()).push(id.last()) =~= s.id + id);
    }
}

/// Whenever the scanner is searching and not midway through a match that the
/// key's quote would extend, the bytes `"requestId":"`, a non-empty id of at
/// most 64 bytes without quotes, and a closing quote yield exactly that id.
pub proof fn lemma_request_id_extracted(s: ScanState, id: Seq<u8>)
    requires
        !s.complete,
        !s.capturing,
        s.id.len() == 0,
        s.prefix_len < HTTP_REQUEST_ID_PREFIX_LEN,
        s.prefix_len != 10,
        s.prefix_len != 12,
        0 < id.len() <= HTTP_REQUEST_ID_MAX_LEN,
        forall|i: int| 0 <= i < id.len() ==> id[i] != HTTP_REQUEST_ID_QUOTE,
    ensures
        scan(s, request_id_prefix() + id + seq![HTTP_REQUEST_ID_QUOTE])
            == (ScanState { prefix_len: 0, capturing: false, complete: true, id: id }),
{
    let p = request_id_prefix();
    lemma_prefix_bytes();
    lemma_scan_prefix_steps(s, 12);
    assert(p.drop_last() =~= p.take(12));
    assert(p.last() == p[12]);
    let after_prefix = scan(s, p);
    assert(after_prefix == (ScanState { prefix_len: 0, capturing: true, ..s }));
    lemma_scan_captures(after_prefix, id);
    assert(s.id + id =~= id);
    lemma_scan_append(s, p, id);
    let after_id = scan(s, p + id);
    assert(after_id == (ScanState { prefix_len: 0, capturing: true, complete: false, id: id }));
    let q = seq![HTTP_REQUEST_ID_QUOTE];
    lemma_scan_append(s, p + id, q);
    assert(q.drop_last() =~= Seq::<u8>::empty());
    assert(scan(after_id, q.drop_last()) == after_id);
    assert(scan(after_id, q) == scan_step(after_id, HTTP_REQUEST_ID_QUOTE));
}

/// The scanner, started afresh, picks the id out of a payload however it is
/// split into receives, provided the bytes before the key leave it searching
/// outside a partial match of the key's quotes.
pub proof fn lemma_request_id_extracted_from_payload(head: Seq<u8>, id: Seq<u8>, tail: Seq<u8>)
    requires
        !scan(scan_start(), head).complete,
        !scan(scan_start(), head).capturing,
        scan(scan_start(), head).id.len() == 0,
        scan(scan_start(), head).prefix_len != 10,
        scan(scan_start(), head).prefix_len != 12,
        HttpRequestIdState::reachable(scan(scan_start(), head)),
        0 < id.len() <= HTTP_REQUEST_ID_MAX_LEN,
        forall|i: int| 0 <= i < id.len() ==> id[i] != HTTP_REQUEST_ID_QUOTE,
    ensures
        scan(scan_start(), head + request_id_prefix() + id + seq![HTTP_REQUEST_ID_QUOTE] + tail)
            == (ScanState { prefix_len: 0, capturing: false, complete: true, id: id }),
{
    let s = scan(scan_start(), head);
    let body = request_id_prefix() + id + seq![HTTP_REQUEST_ID_QUOTE];
    lemma_request_id_extracted(s, id);
    lemma_scan_append(scan_start(), head, body);
    assert(head + request_id_prefix() + id + seq![HTTP_REQUEST_ID_QUOTE] =~= head + body);
    lemma_scan_append(scan_start(), head + body, tail);
    lemma_scan_complete_stays(scan(scan_start(), head + body), tail);
}


/// Whether `bytes` ends with `suffix`.
spec fn ends_with(bytes: Seq<u8>, suffix: Seq<u8>) -> bool {
    suffix.len() <= bytes.len() && bytes.subrange(bytes.len() - suffix.len(), bytes.len() as int) == suffix
}

/// Whether `id` is a non-empty id without quotes, of at most 64 bytes, that
/// `bytes` holds right after the key prefix and before a closing quote.
spec fn id_found_in(bytes: Seq<u8>, id: Seq<u8>) -> bool {
    &&& 0 < id.len() <= HTTP_REQUEST_ID_MAX_LEN
    &&& forall|j: int| 0 <= j < id.len() ==> id[j] != HTTP_REQUEST_ID_QUOTE
    &&& exists|i: int| 0 <= i && i + HTTP_REQUEST_ID_PREFIX_LEN + id.len() + 1 <= bytes.len()
        && #[trigger] bytes.subrange(i, i + HTTP_REQUEST_ID_PREFIX_LEN + id.len() + 1)
            == request_id_prefix() + id + seq![HTTP_REQUEST_ID_QUOTE]
}

/// What the scanner state says of the bytes scanned so far: a partial match is
/// the end of the stream; a value being captured follows the whole key prefix
/// at the end of the stream; a complete id was found in the stream.
spec fn scan_accounts_for(bytes: Seq<u8>, st: ScanState) -> bool {
    &&& st.prefix_len < HTTP_REQUEST_ID_PREFIX_LEN
    &&& st.id.len() <= HTTP_REQUEST_ID_MAX_LEN
    &&& !st.complete && !st.capturing ==> st.id.len() == 0
        && ends_with(bytes, request_id_prefix().take(st.prefix_len as int))
    &&& !st.complete && st.capturing ==> st.prefix_len == 0
        && ends_with(bytes, request_id_prefix() + st.id)
        && forall|j: int| 0 <= j < st.id.len() ==> st.id[j] != HTTP_REQUEST_ID_QUOTE
    &&& st.complete ==> id_found_in(bytes, st.id)
}

proof fn lemma_scan_accounts_step(bytes: Seq<u8>, st: ScanState, b: u8)
    requires
        scan_accounts_for(bytes, st),
    ensures
        scan_accounts_for(bytes.push(b), scan_step(st, b)),
{
    let p = request_id_prefix();
    let q = seq![HTTP_REQUEST_ID_QUOTE];
    let nb = bytes.push(b);
    let len = bytes.len() as int;
    let r = scan_step(st, b);
    lemma_prefix_bytes();
    assert(ends_with(nb, p.take(0))) by {
        assert(nb.subrange(nb.len() as int, nb.len() as int) =~= p.take(0));
    }
    if st.complete {
        let id = st.id;
        let i = choose|i: int| 0 <= i && i + HTTP_REQUEST_ID_PREFIX_LEN + id.len() + 1 <= bytes.len()
            && #[trigger] bytes.subrange(i, i + HTTP_REQUEST_ID_PREFIX_LEN + id.len() + 1) == p + id + q;
        assert(nb.subrange(i, i + HTTP_REQUEST_ID_PREFIX_LEN + id.len() + 1)
            =~= bytes.subrange(i, i + HTTP_REQUEST_ID_PREFIX_LEN + id.len() + 1));
    } else if st.capturing {
        let id = st.id;
        let n = p.len() + id.len();
        if b == HTTP_REQUEST_ID_QUOTE {
            if id.len() != 0 {
                let i = len - n;
                assert(bytes.subrange(len - n, len) == p + id);
                assert(nb.subrange(i, i + n + 1) =~= bytes.subrange(len - n, len) + q);
                assert(nb.subrange(i, i + HTTP_REQUEST_ID_PREFIX_LEN + id.len() + 1) == p + id + q);
            }
        } else if id.len() >= HTTP_REQUEST_ID_MAX_LEN {
        } else {
            assert(bytes.subrange(len - n, len) == p + id);
            assert(nb.subrange(len - n, len + 1) =~= bytes.subrange(len - n, len).push(b));
            assert(p + id.push(b) =~= (p + id).push(b));
            assert(ends_with(nb, p + r.id));
        }
    } else {
        let k = st.prefix_len as int;
        if b == p[k] {
            assert(bytes.subrange(len - k, len) == p.take(k));
            assert(nb.subrange(len - k, len + 1) =~= bytes.subrange(len - k, len).push(b));
            assert(p.take(k + 1) =~= p.take(k).push(p[k]));
            if k + 1 == HTTP_REQUEST_ID_PREFIX_LEN {
                assert(p.take(k + 1) =~= p);
                assert(p + r.id =~= p);
            }
        } else if b == HTTP_REQUEST_ID_QUOTE {
            assert(nb.subrange(len, len + 1) =~= p.take(1));
        }
    }
}

proof fn lemma_scan_accounts(bytes: Seq<u8>)
    ensures
        scan_accounts_for(bytes, scan(scan_start(), bytes)),
    decreases bytes.len(),
{
    if bytes.len() == 0 {
        assert(bytes.subrange(0, 0) =~= request_id_prefix().take(0));
    } else {
        lemma_scan_accounts(bytes.drop_last());
        lemma_scan_accounts_step(bytes.drop_last(), scan(scan_start(), bytes.drop_last()), bytes.last());
        assert(bytes.drop_last().push(bytes.last()) =~= bytes);
    }
}

/// The scanner never makes up an id: whenever the scan of a byte stream from
/// the start completes, its id is non-empty, at most 64 bytes and free of
/// quotes, and the stream holds the key prefix `"requestId":"` immediately
/// followed by that id and a closing quote.
pub proof fn lemma_scanned_id_follows_key(bytes: Seq<u8>)
    ensures
        scan(scan_start(), bytes).complete ==> ({
            let id = scan(scan_start(), bytes).id;
            &&& 0 < id.len() <= HTTP_REQUEST_ID_MAX_LEN
            &&& forall|j: int| 0 <= j < id.len() ==> id[j] != HTTP_REQUEST_ID_QUOTE
            &&& exists|i: int| 0 <= i && i + HTTP_REQUEST_ID_PREFIX_LEN + id.len() + 1 <= bytes.len()
                && #[trigger] bytes.subrange(i, i + HTTP_REQUEST_ID_PREFIX_LEN + id.len() + 1)
                    == request_id_prefix() + id + seq![HTTP_REQUEST_ID_QUOTE]
        }),
{
    lemma_scan_accounts(bytes);
}


/// One captured HTTP request or response, in up to two chunks.
#[derive(Clone, Copy, Debug, PartialEq, Eq)]
pub struct HttpPayloadEvent {
    pub socket_key: u64,
    pub direction: u8,
    pub _pad: [u8; 3],
    pub first_payload_len: u16,
    pub second_payload_len: u16,
    pub first_bytes: [u8; HTTP_PAYLOAD_CHUNK_MAX_LEN],
    pub second_bytes: [u8; HTTP_PAYLOAD_CHUNK_MAX_LEN],
}

/// The contents of an [`HttpPayloadEvent`].
pub struct PayloadModel {
    pub socket_key: u64,
    pub direction: u8,
    pub pad: Seq<u8>,
    pub first_len: u16,
    pub second_len: u16,
    pub first: Seq<u8>,
    pub second: Seq<u8>,
}

impl View for HttpPayloadEvent {
    type V = PayloadModel;

    open spec fn view(&self) -> PayloadModel {
        PayloadModel {
            socket_key: self.socket_key,
            direction: self.direction,
            pad: self._pad@,
            first_len: self.first_payload_len,
            second_len: self.second_payload_len,
            first: self.first_bytes@,
            second: self.second_bytes@,
        }
    }
}

/// `n` zero bytes.
pub open spec fn zeros(n: nat) -> Seq<u8> {
    Seq::new(n, |i: int| 0u8)
}

/// The contents of a default payload event: all zero.
pub open spec fn empty_payload() -> PayloadModel {
    PayloadModel {
        socket_key: 0,
        direction: 0,
        pad: zeros(3),
        first_len: 0,
        second_len: 0,
        first: zeros(HTTP_PAYLOAD_CHUNK_MAX_LEN as nat),
        second: zeros(HTTP_PAYLOAD_CHUNK_MAX_LEN as nat),
    }
}

impl Default for HttpPayloadEvent {
    fn default() -> (r: Self)
        ensures
            r.socket_key == 0,
            r.direction == 0,
            r.first_payload_len == 0,
            r.second_payload_len == 0,
            forall|i: int| 0 <= i < 3 ==> r._pad@[i] == 0,
            forall|i: int| 0 <= i < HTTP_PAYLOAD_CHUNK_MAX_LEN ==> r.first_bytes@[i] == 0,
            forall|i: int| 0 <= i < HTTP_PAYLOAD_CHUNK_MAX_LEN ==> r.second_bytes@[i] == 0,
            r@ == empty_payload(),
    {
        let r = HttpPayloadEvent {
            socket_key: 0,
            direction: 0,
            _pad: [0u8; 3],
            first_payload_len: 0,
            second_payload_len: 0,
            first_bytes: [0u8; HTTP_PAYLOAD_CHUNK_MAX_LEN],
            second_bytes: [0u8; HTTP_PAYLOAD_CHUNK_MAX_LEN],
        };
        assert(r@.pad =~= zeros(3));
        assert(r@.first =~= zeros(HTTP_PAYLOAD_CHUNK_MAX_LEN as nat));
        assert(r@.second =~= zeros(HTTP_PAYLOAD_CHUNK_MAX_LEN as nat));
        r
    }
}

impl HttpPayloadEvent {
    /// The bytes of the first chunk, as many as its length says, at most a chunk.
    pub fn first_payload(&self) -> (r: &[u8])
        ensures
            r@ == self.first_bytes@.subrange(
                0,
                min_int(self.first_payload_len as int, HTTP_PAYLOAD_CHUNK_MAX_LEN as int),
            ),
    {
        let len: usize = self.first_payload_len as usize;
        let payload_len: usize = if len < HTTP_PAYLOAD_CHUNK_MAX_LEN { len } else { HTTP_PAYLOAD_CHUNK_MAX_LEN };
        &self.first_bytes[0..payload_len]
    }

    /// The bytes of the second chunk, as many as its length says, at most a chunk.
    pub fn second_payload(&self) -> (r: &[u8])
        ensures
            r@ == self.second_bytes@.subrange(
                0,
                min_int(self.second_payload_len as int, HTTP_PAYLOAD_CHUNK_MAX_LEN as int),
            ),
    {
        let len: usize = self.second_payload_len as usize;
        let payload_len: usize = if len < HTTP_PAYLOAD_CHUNK_MAX_LEN { len } else { HTTP_PAYLOAD_CHUNK_MAX_LEN };
        &self.second_bytes[0..payload_len]
    }
}

/// `end - start`, or zero where that would be negative.
pub open spec fn saturating_delta(start: u64, end: u64) -> u64 {
    if end >= start { (end - start) as u64 } else { 0 }
}

/// `end - start` for a recorded start (non-zero) that does not lie after the end; else zero.
pub open spec fn spec_non_zero_delta(start: u64, end: u64) -> u64 {
    if start == 0 || end < start { 0 } else { (end - start) as u64 }
}

/// Whether the epoll timestamps form a chain after a recorded arrival.
pub open spec fn valid_epoll_chain(arrival: u64, epoll_exit: u64, recv_enter: u64) -> bool {
    arrival != 0 && epoll_exit >= arrival && recv_enter >= epoll_exit
}

/// The phases of one request on a server socket, in nanoseconds.
#[derive(Clone, Copy, Debug, Default, PartialEq, Eq)]
pub struct RequestTimings {
    pub arrival_to_epoll_ns: u64,
    pub epoll_to_recv_ns: u64,
    pub recv_duration_ns: u64,
    pub arrival_to_read_ns: u64,
    pub read_to_write_ns: u64,
    pub arrival_to_write_ns: u64,
}

impl RequestTimings {
    /// The latency of the request itself: from its first read to its first write.
    pub fn http_request_latency_ns(&self) -> (r: u64)
        ensures
            r == self.read_to_write_ns,
    {
        self.read_to_write_ns
    }

    pub fn from_timestamps(arrival_ns: u64, read_ns: u64, write_ns: u64) -> (r: Self)
        ensures
            r.arrival_to_epoll_ns == 0,
            r.epoll_to_recv_ns == 0,
            r.recv_duration_ns == 0,
            r.arrival_to_read_ns == saturating_delta(arrival_ns, read_ns),
            r.read_to_write_ns == saturating_delta(read_ns, write_ns),
            r.arrival_to_write_ns == saturating_delta(arrival_ns, write_ns),
    {
        RequestTimings {
            arrival_to_epoll_ns: 0,
            epoll_to_recv_ns: 0,
            recv_duration_ns: 0,
            arrival_to_read_ns: read_ns.saturating_sub(arrival_ns),
            read_to_write_ns: write_ns.saturating_sub(read_ns),
            arrival_to_write_ns: write_ns.saturating_sub(arrival_ns),
        }
    }

    pub open spec fn spec_from_phase_timestamps(
        arrival_ns: u64,
        epoll_exit_ns: u64,
        recv_enter_ns: u64,
        read_ns: u64,
        write_ns: u64,
    ) -> RequestTimings {
        let valid = valid_epoll_chain(arrival_ns, epoll_exit_ns, recv_enter_ns);
        RequestTimings {
            arrival_to_epoll_ns: if valid { (epoll_exit_ns - arrival_ns) as u64 } else { 0 },
            epoll_to_recv_ns: if valid { (recv_enter_ns - epoll_exit_ns) as u64 } else { 0 },
            recv_duration_ns: spec_non_zero_delta(recv_enter_ns, read_ns),
            arrival_to_read_ns: spec_non_zero_delta(arrival_ns, read_ns),
            read_to_write_ns: spec_non_zero_delta(read_ns, write_ns),
            arrival_to_write_ns: spec_non_zero_delta(arrival_ns, write_ns),
        }
    }

    pub fn from_phase_timestamps(
        arrival_ns: u64,
        epoll_exit_ns: u64,
        recv_enter_ns: u64,
        read_ns: u64,
        write_ns: u64,
    ) -> (r: Self)
        ensures
            r == Self::spec_from_phase_timestamps(arrival_ns, epoll_exit_ns, recv_enter_ns, read_ns, write_ns),
    {
        let valid_epoll = arrival_ns != 0 && epoll_exit_ns >= arrival_ns && recv_enter_ns >= epoll_exit_ns;
        RequestTimings {
            arrival_to_epoll_ns: if valid_epoll { epoll_exit_ns - arrival_ns } else { 0 },
            epoll_to_recv_ns: if valid_epoll { recv_enter_ns - epoll_exit_ns } else { 0 },
            recv_duration_ns: non_zero_delta(recv_enter_ns, read_ns),
            arrival_to_read_ns: non_zero_delta(arrival_ns, read_ns),
            read_to_write_ns: non_zero_delta(read_ns, write_ns),
            arrival_to_write_ns: non_zero_delta(arrival_ns, write_ns),
        }
    }
}

pub fn non_zero_delta(start_ns: u64, end_ns: u64) -> (r: u64)
    ensures
        r == spec_non_zero_delta(start_ns, end_ns),
{
    if start_ns == 0 || end_ns < start_ns {
        return 0;
    }
    end_ns - start_ns
}

/// Arrival to write is the queueing time before the read plus the processing
/// time after it, for ordered timestamps.
pub proof fn lemma_arrival_to_write_splits(arrival_ns: u64, read_ns: u64, write_ns: u64)
    requires
        arrival_ns <= read_ns <= write_ns,
    ensures
        saturating_delta(arrival_ns, write_ns) as int
            == saturating_delta(arrival_ns, read_ns) + saturating_delta(read_ns, write_ns),
{
}

/// For a recorded arrival and ordered timestamps, arrival to read splits into
/// arrival to epoll exit, epoll exit to receive entry and the receive itself,
/// and arrival to write into arrival to read and read to write.
pub proof fn lemma_phases_split(
    arrival_ns: u64,
    epoll_exit_ns: u64,
    recv_enter_ns: u64,
    read_ns: u64,
    write_ns: u64,
)
    requires
        0 < arrival_ns <= epoll_exit_ns <= recv_enter_ns <= read_ns <= write_ns,
    ensures
        ({
            let t = RequestTimings::spec_from_phase_timestamps(
                arrival_ns, epoll_exit_ns, recv_enter_ns, read_ns, write_ns);
            &&& t.arrival_to_read_ns as int
                == t.arrival_to_epoll_ns + t.epoll_to_recv_ns + t.recv_duration_ns
            &&& t.arrival_to_write_ns as int == t.arrival_to_read_ns + t.read_to_write_ns
        }),
{
}

/// Without a recorded arrival, no phase that starts at the arrival is reported.
pub proof fn lemma_no_arrival_no_arrival_phases(
    epoll_exit_ns: u64,
    recv_enter_ns: u64,
    read_ns: u64,
    write_ns: u64,
)
    ensures
        ({
            let t = RequestTimings::spec_from_phase_timestamps(0, epoll_exit_ns, recv_enter_ns, read_ns, write_ns);
            &&& t.arrival_to_epoll_ns == 0
            &&& t.epoll_to_recv_ns == 0
            &&& t.arrival_to_read_ns == 0
            &&& t.arrival_to_write_ns == 0
        }),
{
}

/// Target process settings shared with the probes.
#[derive(Clone, Copy, Debug, Default, PartialEq, Eq)]
pub struct RiskTargetConfig {
    pub tgid: u32,
    pub server_port: u16,
    pub flags: u16,
    pub slow_threshold_ns: u64,
}

pub const AF_INET: u16 = 2;
pub const AF_INET6: u16 = 10;

/// The address tuple of a TCP flow as the server sees it.
#[derive(Clone, Copy, Debug, Default, Hash, PartialEq, Eq)]
pub struct TcpFlowKey {
    pub local_addr: [u32; 4],
    pub remote_addr: [u32; 4],
    pub local_port: u16,
    pub remote_port: u16,
    pub family: u16,
    pub _pad: u16,
}

impl TcpFlowKey {
    pub fn ipv4(local_addr: u32, remote_addr: u32, local_port: u16, remote_port: u16) -> (r: Self)
        ensures
            r.local_addr@ == seq![local_addr, 0u32, 0u32, 0u32],
            r.remote_addr@ == seq![remote_addr, 0u32, 0u32, 0u32],
            r.local_port == local_port,
            r.remote_port == remote_port,
            r.family == AF_INET,
            r._pad == 0,
    {
        let r = TcpFlowKey {
            local_addr: [local_addr, 0, 0, 0],
            remote_addr: [remote_addr, 0, 0, 0],
            local_port,
            remote_port,
            family: AF_INET,
            _pad: 0,
        };
        assert(r.local_addr@ =~= seq![local_addr, 0u32, 0u32, 0u32]);
        assert(r.remote_addr@ =~= seq![remote_addr, 0u32, 0u32, 0u32]);
        r
    }

    pub fn ipv6(local_addr: [u32; 4], remote_addr: [u32; 4], local_port: u16, remote_port: u16) -> (r: Self)
        ensures
            r.local_addr == local_addr,
            r.remote_addr == remote_addr,
            r.local_port == local_port,
            r.remote_port == remote_port,
            r.family == AF_INET6,
            r._pad == 0,
    {
        TcpFlowKey { local_addr, remote_addr, local_port, remote_port, family: AF_INET6, _pad: 0 }
    }
}

/// A slow TCP phase or slow HTTP request reported by the probes.
#[derive(Clone, Copy, Debug, PartialEq, Eq)]
pub struct SlowTcpEvent {
    pub timestamp_ns: u64,
    pub latency_ns: u64,
    pub arrival_to_epoll_ns: u64,
    pub epoll_to_recv_ns: u64,
    pub recv_duration_ns: u64,
    pub arrival_to_read_ns: u64,
    pub read_to_write_ns: u64,
    pub socket_key: u64,
    pub tgid: u32,
    pub tid: u32,
    pub source_addr_v4: u32,
    pub destination_addr_v4: u32,
    pub source_port: u16,
    pub destination_port: u16,
    pub family: u16,
    pub phase: u8,
    pub _pad: u8,
    pub request_id: HttpRequestId,
}

/// Key of the per-thread, per-task-state counters.
#[derive(Clone, Copy, Debug, Hash, PartialEq, Eq)]
pub struct SchedSwitchStateKey {
    pub state: u64,
    pub tid: u32,
    pub _pad: u32,
}

/// The command name of a thread, NUL padded.
#[derive(Clone, Copy, Debug, Hash, PartialEq, Eq)]
pub struct ThreadComm {
    pub comm: [u8; TASK_COMM_LEN],
}

/// A target thread that waited too long on the run queue.
#[derive(Clone, Copy, Debug, Default, PartialEq, Eq)]
pub struct SlowSchedEvent {
    pub wakeup_ns: u64,
    pub switch_in_ns: u64,
    pub latency_ns: u64,
    pub tid: u32,
    pub comm: [u8; TASK_COMM_LEN],
    pub _pad: u32,
}

/// When a thread left the CPU and in which task state.
#[derive(Clone, Copy, Debug, Hash, PartialEq, Eq)]
pub struct ThreadOffCpuStart {
    pub ts_ns: u64,
    pub state: u64,
}

/// The process whose connects are timed.
#[derive(Clone, Copy, Debug, Hash, PartialEq, Eq)]
pub struct TargetPid {
    pub pid: u32,
    pub _pad: u32,
}

/// Key of the per-process system-call counters.
#[derive(Clone, Copy, Debug, Hash, PartialEq, Eq)]
pub struct SysEnterType {
    pub pid: u32,
    pub enter_type: u32,
}

} // verus!
