//! What the exporter publishes: metric labels, the names of task states,
//! per-CPU totals and the joining of the OpenMetrics texts.

use vstd::prelude::*;
use vstd::utf8::{decode_utf8, valid_utf8};
use crate::common::{ThreadComm, TASK_COMM_LEN};
use crate::text::{append_hex, hexadecimal};

verus! {

/// Labels of the per-CPU counters.
pub struct SchedSwitchLabels {
    pub cpu: u32,
}

/// Labels of the per-thread, per-task-state counters.
pub struct ThreadStateLabels {
    pub tid: u32,
    pub comm: String,
    pub state: String,
}

/// Labels of the per-process TCP connect counter.
pub struct TcpLabels {
    pub pid: u32,
}

/// Labels of the per-process system-call counters.
pub struct SysEnterLabels {
    pub pid: u32,
    pub enter_type: u32,
}

/// The kernel's name of a task state value, where it has one.
pub open spec fn task_state_name(state: u64) -> Option<Seq<char>> {
    if state == 0 { Some("TASK_RUNNING"@) }
    else if state == 1 { Some("TASK_INTERRUPTIBLE"@) }
    else if state == 2 { Some("TASK_UNINTERRUPTIBLE"@) }
    else if state == 4 { Some("TASK_STOPPED"@) }
    else if state == 8 { Some("TASK_TRACED"@) }
    else if state == 16 { Some("EXIT_DEAD"@) }
    else if state == 32 { Some("EXIT_ZOMBIE"@) }
    else if state == 64 { Some("TASK_PARKED"@) }
    else if state == 128 { Some("TASK_DEAD"@) }
    else if state == 256 { Some("TASK_WAKEKILL"@) }
    else if state == 512 { Some("TASK_WAKING"@) }
    else if state == 1024 { Some("TASK_NOLOAD"@) }
    else if state == 2048 { Some("TASK_NEW"@) }
    else if state == 4096 { Some("TASK_RTLOCK_WAIT"@) }
    else { None }
}

/// The `state` label: the kernel's name of the task state, else `0x` and the value in hexadecimal.
pub open spec fn spec_state_label(state: u64) -> Seq<char> {
    match task_state_name(state) {
        Some(name) => name,
        None => "0x"@ + hexadecimal(state as nat),
    }
}

pub fn sched_switch_state_label(state: u64) -> (r: String)
    ensures
        r@ == spec_state_label(state),
{
    let name: &str = if state == 0 { "TASK_RUNNING" }
        else if state == 1 { "TASK_INTERRUPTIBLE" }
        else if state == 2 { "TASK_UNINTERRUPTIBLE" }
        else if state == 4 { "TASK_STOPPED" }
        else if state == 8 { "TASK_TRACED" }
        else if state == 16 { "EXIT_DEAD" }
        else if state == 32 { "EXIT_ZOMBIE" }
        else if state == 64 { "TASK_PARKED" }
        else if state == 128 { "TASK_DEAD" }
        else if state == 256 { "TASK_WAKEKILL" }
        else if state == 512 { "TASK_WAKING" }
        else if state == 1024 { "TASK_NOLOAD" }
        else if state == 2048 { "TASK_NEW" }
        else if state == 4096 { "TASK_RTLOCK_WAIT" }
        else {
            let mut s = String::from_str("0x");
            append_hex(&mut s, state);
            return s;
        };
    String::from_str(name)
}

/// What std's `String::from_utf8_lossy` makes of the bytes.
pub uninterp spec fn utf8_lossy(bytes: Seq<u8>) -> Seq<char>;

/// std's `String::from_utf8_lossy`, owned: the bytes decoded with each invalid
/// sequence replaced by U+FFFD. The contract names the result and states what
/// the documentation gives: valid UTF-8 decodes unchanged.
#[verifier::external_body]
fn decode_lossy(bytes: &[u8]) -> (r: String)
    ensures
        r@ == utf8_lossy(bytes@),
        valid_utf8(bytes@) ==> r@ == decode_utf8(bytes@),
{
    String::from_utf8_lossy(bytes).into_owned()
}

/// The bytes of a NUL-padded name before its first NUL (all of them if there is none).
pub open spec fn before_nul(bytes: Seq<u8>) -> Seq<u8> {
    if exists|k: int| 0 <= k < bytes.len() && bytes[k] == 0 {
        let k = choose|k: int| 0 <= k < bytes.len() && bytes[k] == 0 && forall|j: int| 0 <= j < k ==> bytes[j] != 0;
        bytes.subrange(0, k)
    } else {
        bytes
    }
}

/// The `comm` label: the thread's name up to its first NUL, decoded lossily.
pub fn thread_comm_label(thread_comm: &ThreadComm) -> (r: String)
    ensures
        r@ == utf8_lossy(before_nul(thread_comm.comm@)),
        valid_utf8(before_nul(thread_comm.comm@)) ==> r@ == decode_utf8(before_nul(thread_comm.comm@)),
{
    let ghost c = thread_comm.comm@;
    let mut name: Vec<u8> = Vec::new();
    let mut i: usize = 0;
    while i < TASK_COMM_LEN && thread_comm.comm[i] != 0
        invariant
            c == thread_comm.comm@,
            c.len() == TASK_COMM_LEN,
            i <= TASK_COMM_LEN,
            name@ == c.subrange(0, i as int),
            forall|j: int| 0 <= j < i ==> c[j] != 0,
        decreases TASK_COMM_LEN - i,
    {
        name.push(thread_comm.comm[i]);
        assert(name@ =~= c.subrange(0, i + 1));
        i = i + 1;
    }
    proof {
        if i < TASK_COMM_LEN {
            assert(c[i as int] == 0);
            let k = choose|k: int| 0 <= k < c.len() && c[k] == 0 && forall|j: int| 0 <= j < k ==> c[j] != 0;
            if k < i {
                assert(c[k] != 0);
            } else if k > i {
                assert(c[i as int] != 0);
            }
            assert(before_nul(c) == name@);
        } else {
            assert(name@ =~= c);
            assert(before_nul(c) == name@);
        }
    }
    decode_lossy(name.as_slice())
}

/// The line that ends an OpenMetrics text.
pub open spec fn eof_marker() -> Seq<char> {
    seq!['#', ' ', 'E', 'O', 'F', '\n']
}

/// The text without a trailing `# EOF\n` line (unchanged where it has none).
pub open spec fn spec_trim_eof(s: Seq<char>) -> Seq<char> {
    if s.len() >= 6 && s.subrange(s.len() - 6, s.len() as int) == eof_marker() {
        s.subrange(0, s.len() - 6)
    } else {
        s
    }
}

pub fn trim_openmetrics_eof(metrics: String) -> (r: String)
    ensures
        r@ == spec_trim_eof(metrics@),
{
    let n = metrics.as_str().unicode_len();
    if n >= 6 {
        let s = metrics.as_str();
        let ends = s.get_char(n - 6) == '#' && s.get_char(n - 5) == ' ' && s.get_char(n - 4) == 'E'
            && s.get_char(n - 3) == 'O' && s.get_char(n - 2) == 'F' && s.get_char(n - 1) == '\n';
        proof {
            let tail = metrics@.subrange(n - 6, n as int);
            if ends {
                assert(tail =~= eof_marker());
            } else {
                assert(tail != eof_marker()) by {
                    if tail == eof_marker() {
                        assert(tail[0] == '#' && tail[1] == ' ' && tail[2] == 'E');
                        assert(tail[3] == 'O' && tail[4] == 'F' && tail[5] == '\n');
                    }
                }
            }
        }
        if ends {
            return String::from_str(s.substring_char(0, n - 6));
        }
    }
    metrics
}

/// The exporter's page: the CPU text and the network text, each without its
/// end line, then one `# EOF\n`.
pub fn combine_metrics(cpu: String, network: String) -> (r: String)
    ensures
        r@ == spec_trim_eof(cpu@) + spec_trim_eof(network@) + eof_marker(),
{
    let mut out = trim_openmetrics_eof(cpu);
    let tail = trim_openmetrics_eof(network);
    out.append(tail.as_str());
    push_eof(&mut out);
    out
}

fn push_eof(s: &mut String)
    ensures
        final(s)@ == old(s)@ + eof_marker(),
{
    crate::text::push_char(s, '#');
    crate::text::push_char(s, ' ');
    crate::text::push_char(s, 'E');
    crate::text::push_char(s, 'O');
    crate::text::push_char(s, 'F');
    crate::text::push_char(s, '\n');
    assert(final(s)@ =~= old(s)@ + eof_marker());
}

/// The sum of the per-CPU values.
pub open spec fn total(values: Seq<u64>) -> nat
    decreases values.len(),
{
    if values.len() == 0 { 0 } else { total(values.drop_last()) + values.last() as nat }
}

/// The sum of the per-CPU values of one counter (the sum must fit a `u64`).
pub fn per_cpu_total(values: &[u64]) -> (r: u64)
    requires
        total(values@) <= u64::MAX,
    ensures
        r == total(values@),
{
    let mut sum: u64 = 0;
    let mut i: usize = 0;
    while i < values.len()
        invariant
            i <= values@.len(),
            total(values@) <= u64::MAX,
            sum == total(values@.subrange(0, i as int)),
        decreases values.len() - i,
    {
        proof {
            assert(values@.subrange(0, i + 1).drop_last() =~= values@.subrange(0, i as int));
            lemma_total_prefix_bound(values@, i + 1);
        }
        sum = sum + values[i];
        i = i + 1;
    }
    assert(values@.subrange(0, i as int) =~= values@);
    sum
}

/// A prefix sums to no more than the whole.
pub proof fn lemma_total_prefix_bound(values: Seq<u64>, n: int)
    requires
        0 <= n <= values.len(),
    ensures
        total(values.subrange(0, n)) <= total(values),
    decreases values.len() - n,
{
    if n < values.len() {
        lemma_total_prefix_bound(values, n + 1);
        assert(values.subrange(0, n + 1).drop_last() =~= values.subrange(0, n));
    } else {
        assert(values.subrange(0, n) =~= values);
    }
}

/// A process's per-CPU connect counts.
pub struct PidCounts {
    pub pid: u32,
    pub per_cpu: Vec<u64>,
}

/// The per-process totals of the live processes, in order.
pub open spec fn live_totals(entries: Seq<PidCounts>, alive: Seq<bool>) -> Seq<(u32, u64)>
    decreases entries.len(),
{
    if entries.len() == 0 || alive.len() == 0 {
        Seq::empty()
    } else {
        let prev = live_totals(entries.drop_last(), alive.drop_last());
        if alive.last() {
            prev.push((entries.last().pid, total(entries.last().per_cpu@) as u64))
        } else {
            prev
        }
    }
}

/// The processes that are gone, in order.
pub open spec fn stale_pids(entries: Seq<PidCounts>, alive: Seq<bool>) -> Seq<u32>
    decreases entries.len(),
{
    if entries.len() == 0 || alive.len() == 0 {
        Seq::empty()
    } else {
        let prev = stale_pids(entries.drop_last(), alive.drop_last());
        if alive.last() { prev } else { prev.push(entries.last().pid) }
    }
}

/// Splits the connect counters into the totals to publish for live processes
/// and the processes whose counters and labels are to be dropped.
pub fn split_connect_counts(entries: &Vec<PidCounts>, alive: &Vec<bool>) -> (r: (Vec<(u32, u64)>, Vec<u32>))
    requires
        entries@.len() == alive@.len(),
        forall|k: int| 0 <= k < entries@.len() ==> total(#[trigger] entries@[k].per_cpu@) <= u64::MAX,
    ensures
        r.0@ == live_totals(entries@, alive@),
        r.1@ == stale_pids(entries@, alive@),
{
    let mut live: Vec<(u32, u64)> = Vec::new();
    let mut stale: Vec<u32> = Vec::new();
    let n = entries.len();
    let mut i: usize = 0;
    while i < n
        invariant
            n == entries@.len(),
            n == alive@.len(),
            i <= n,
            forall|k: int| 0 <= k < entries@.len() ==> total(#[trigger] entries@[k].per_cpu@) <= u64::MAX,
            live@ == live_totals(entries@.subrange(0, i as int), alive@.subrange(0, i as int)),
            stale@ == stale_pids(entries@.subrange(0, i as int), alive@.subrange(0, i as int)),
        decreases n - i,
    {
        let e = &entries[i];
        proof {
            assert(entries@.subrange(0, i + 1).drop_last() =~= entries@.subrange(0, i as int));
            assert(alive@.subrange(0, i + 1).drop_last() =~= alive@.subrange(0, i as int));
            assert(entries@.subrange(0, i + 1).last() == entries@[i as int]);
            assert(alive@.subrange(0, i + 1).last() == alive@[i as int]);
        }
        if alive[i] {
            let sum = per_cpu_total(e.per_cpu.as_slice());
            live.push((e.pid, sum));
        } else {
            stale.push(e.pid);
        }
        i = i + 1;
    }
    assert(entries@.subrange(0, n as int) =~= entries@);
    assert(alive@.subrange(0, n as int) =~= alive@);
    (live, stale)
}

} // verus!
