//! The scheduler probes: run-queue latency and off-CPU time of target threads.
//!
//! The probes keep their state in kernel maps. [`SchedProbeState`] holds the
//! same maps as plain collections and applies the decisions the probes take on
//! `sched_wakeup`, `sched_wakeup_new` and `sched_switch`, so that what each
//! event does to the maps, the counters and the event log is stated and proved.
//! Hash maps are bounded as the kernel bounds them: an insert of a new key
//! into a full map fails and leaves it unchanged. The per-CPU arrays are
//! modelled by the slots of the CPU that runs the probe. The slow-wakeup ring
//! buffer takes an event only if it fits beside the events user space has not
//! consumed yet; one that does not fit is dropped.

use std::collections::HashMap;
use vstd::prelude::*;
use crate::bpf_map::{
    add_wrapping, bounded_insert, bounded_insert_ok, map_insert_bounded, map_insert_bounded_wide,
    saturating_sub, wrapping_add,
};
use crate::common::{
    RiskTargetConfig, SlowSchedEvent, ThreadComm, ThreadOffCpuStart, SCHED_SWITCH_TARGET_TIDS_MAX_ENTRIES,
    SCHED_SWITCH_THREAD_STATE_MAX_ENTRIES, TASK_COMM_LEN,
};

verus! {

broadcast use vstd::std_specs::hash::group_hash_axioms;

pub const RUNQUEUE_EVENT_COUNT_INDEX: usize = 0;
pub const RUNQUEUE_TOTAL_NS_INDEX: usize = 1;
pub const RUNQUEUE_SLOW_COUNT_INDEX: usize = 2;
/// Size of the slow-wakeup ring buffer, in bytes.
pub const SLOW_SCHED_EVENTS_BYTES: u64 = 65536;
/// What a slow-wakeup event takes in the ring buffer: the record and its
/// header, rounded up to eight bytes.
pub const SLOW_SCHED_EVENT_RECORD_BYTES: u64 = 56;

/// Whether the ring buffer, holding the unconsumed `events`, has room for one more.
pub open spec fn ring_has_room(events: Seq<SlowSchedEvent>) -> bool {
    (events.len() + 1) * SLOW_SCHED_EVENT_RECORD_BYTES <= SLOW_SCHED_EVENTS_BYTES
}

/// The key of a (task state, thread) counter.
pub open spec fn state_key(state: u64, tid: u32) -> u128 {
    (state as int * 0x1_0000_0000 + tid as int) as u128
}

fn make_state_key(state: u64, tid: u32) -> (k: u128)
    ensures
        k == state_key(state, tid),
{
    (state as u128) * 0x1_0000_0000 + (tid as u128)
}

/// Distinct (state, thread) pairs have distinct keys.
pub proof fn lemma_state_key_injective(s1: u64, t1: u32, s2: u64, t2: u32)
    ensures
        state_key(s1, t1) == state_key(s2, t2) ==> s1 == s2 && t1 == t2,
{
    if state_key(s1, t1) == state_key(s2, t2) {
        assert(s1 as int * 0x1_0000_0000 + t1 as int == s2 as int * 0x1_0000_0000 + t2 as int);
        if s1 < s2 {
            assert(s1 as int * 0x1_0000_0000 + 0x1_0000_0000 <= s2 as int * 0x1_0000_0000) by (nonlinear_arith)
                requires s1 < s2;
        } else if s2 < s1 {
            assert(s2 as int * 0x1_0000_0000 + 0x1_0000_0000 <= s1 as int * 0x1_0000_0000) by (nonlinear_arith)
                requires s2 < s1;
        }
    }
}

/// A kernel task state as recorded: negative states count as running (zero).
pub open spec fn spec_normalize_task_state(state: i64) -> u64 {
    if state < 0 { 0 } else { state as u64 }
}

pub fn normalize_task_state(state: i64) -> (r: u64)
    ensures
        r == spec_normalize_task_state(state),
{
    if state < 0 { 0 } else { state as u64 }
}

/// The map contents of the scheduler probes.
pub struct SchedModel {
    pub target_tids: Map<u32, u8>,
    pub sched_switch_total: u64,
    pub offcpu_start: Map<u32, ThreadOffCpuStart>,
    pub offcpu_total: Map<u128, u64>,
    pub switch_out_total: Map<u128, u64>,
    pub thread_comm: Map<u32, ThreadComm>,
    pub wakeup_ns: Map<u32, u64>,
    pub runqueue: Seq<u64>,
    pub slow_events: Seq<SlowSchedEvent>,
    pub config: Option<RiskTargetConfig>,
}

/// `m[k] + delta` (wrapping) where `k` is present, else `delta` inserted if there is room.
pub open spec fn spec_increment(m: Map<u128, u64>, cap: nat, k: u128, delta: u64) -> Map<u128, u64> {
    if m.contains_key(k) {
        m.insert(k, wrapping_add(m[k], delta))
    } else {
        bounded_insert(m, cap, k, delta)
    }
}

/// What a wakeup of `tid` does: a target thread without a pending wakeup gets
/// one at `now` if the map has room; otherwise nothing changes.
pub open spec fn spec_wakeup(s: SchedModel, tid: u32, now: u64) -> SchedModel {
    if !s.target_tids.contains_key(tid) || s.wakeup_ns.contains_key(tid) {
        s
    } else {
        SchedModel {
            wakeup_ns: bounded_insert(s.wakeup_ns, SCHED_SWITCH_TARGET_TIDS_MAX_ENTRIES as nat, tid, now),
            ..s
        }
    }
}

/// What switching a target thread out does: count the switch-out per state, and
/// record when and in which state it left the CPU and its command name.
pub open spec fn spec_switch_out(s: SchedModel, tid: u32, state: i64, comm: ThreadComm, now: u64) -> SchedModel {
    if !s.target_tids.contains_key(tid) {
        s
    } else {
        let st = spec_normalize_task_state(state);
        SchedModel {
            switch_out_total: spec_increment(
                s.switch_out_total, SCHED_SWITCH_THREAD_STATE_MAX_ENTRIES as nat, state_key(st, tid), 1),
            offcpu_start: bounded_insert(
                s.offcpu_start, SCHED_SWITCH_TARGET_TIDS_MAX_ENTRIES as nat, tid,
                ThreadOffCpuStart { ts_ns: now, state: st }),
            thread_comm: bounded_insert(s.thread_comm, SCHED_SWITCH_TARGET_TIDS_MAX_ENTRIES as nat, tid, comm),
            ..s
        }
    }
}

/// The run-queue part of switching a target thread in: a pending wakeup is
/// consumed, counted with its latency, and counted as slow when the latency
/// reaches the configured threshold; a slow one is reported if the ring buffer
/// has room for it, and otherwise dropped without a count.
pub open spec fn spec_switch_in_runqueue(s: SchedModel, tid: u32, comm: ThreadComm, now: u64) -> SchedModel {
    if !s.wakeup_ns.contains_key(tid) {
        s
    } else {
        let wakeup = s.wakeup_ns[tid];
        let latency = saturating_sub(now, wakeup);
        let counted = s.runqueue
            .update(RUNQUEUE_EVENT_COUNT_INDEX as int, wrapping_add(s.runqueue[RUNQUEUE_EVENT_COUNT_INDEX as int], 1))
            .update(RUNQUEUE_TOTAL_NS_INDEX as int, wrapping_add(s.runqueue[RUNQUEUE_TOTAL_NS_INDEX as int], latency));
        let slow = s.config matches Some(c) && latency >= c.slow_threshold_ns;
        SchedModel {
            runqueue: if slow {
                counted.update(RUNQUEUE_SLOW_COUNT_INDEX as int, wrapping_add(counted[RUNQUEUE_SLOW_COUNT_INDEX as int], 1))
            } else {
                counted
            },
            slow_events: if slow && ring_has_room(s.slow_events) {
                s.slow_events.push(SlowSchedEvent {
                    wakeup_ns: wakeup,
                    switch_in_ns: now,
                    latency_ns: latency,
                    tid,
                    comm: comm.comm,
                    _pad: 0,
                })
            } else {
                s.slow_events
            },
            wakeup_ns: s.wakeup_ns.remove(tid),
            ..s
        }
    }
}

/// The off-CPU part of switching a target thread in: the time since it left the
/// CPU is added to its (state, thread) total and the start is consumed.
pub open spec fn spec_switch_in_offcpu(s: SchedModel, tid: u32, now: u64) -> SchedModel {
    if !s.offcpu_start.contains_key(tid) {
        s
    } else {
        let start = s.offcpu_start[tid];
        SchedModel {
            offcpu_total: spec_increment(
                s.offcpu_total, SCHED_SWITCH_THREAD_STATE_MAX_ENTRIES as nat, state_key(start.state, tid),
                saturating_sub(now, start.ts_ns)),
            offcpu_start: s.offcpu_start.remove(tid),
            ..s
        }
    }
}

/// What switching a target thread in does.
pub open spec fn spec_switch_in(s: SchedModel, tid: u32, comm: ThreadComm, now: u64) -> SchedModel {
    if !s.target_tids.contains_key(tid) {
        s
    } else {
        let s1 = spec_switch_in_offcpu(spec_switch_in_runqueue(s, tid, comm, now), tid, now);
        SchedModel {
            thread_comm: bounded_insert(s1.thread_comm, SCHED_SWITCH_TARGET_TIDS_MAX_ENTRIES as nat, tid, comm),
            ..s1
        }
    }
}

/// What one `sched_switch` does: count it, then switch `prev` out and `next` in.
pub open spec fn spec_sched_switch(
    s: SchedModel,
    prev_pid: u32,
    prev_state: i64,
    prev_comm: ThreadComm,
    next_pid: u32,
    next_comm: ThreadComm,
    now: u64,
) -> SchedModel {
    let counted = SchedModel { sched_switch_total: wrapping_add(s.sched_switch_total, 1), ..s };
    spec_switch_in(spec_switch_out(counted, prev_pid, prev_state, prev_comm, now), next_pid, next_comm, now)
}

/// The maps and counters of the scheduler probes.
pub struct SchedProbeState {
    target_tids: HashMap<u32, u8>,
    sched_switch_total: u64,
    offcpu_start: HashMap<u32, ThreadOffCpuStart>,
    offcpu_total: HashMap<u128, u64>,
    switch_out_total: HashMap<u128, u64>,
    thread_comm: HashMap<u32, ThreadComm>,
    wakeup_ns: HashMap<u32, u64>,
    runqueue: Vec<u64>,
    slow_events: Vec<SlowSchedEvent>,
    config: Option<RiskTargetConfig>,
}

impl View for SchedProbeState {
    type V = SchedModel;

    closed spec fn view(&self) -> SchedModel {
        SchedModel {
            target_tids: self.target_tids@,
            sched_switch_total: self.sched_switch_total,
            offcpu_start: self.offcpu_start@,
            offcpu_total: self.offcpu_total@,
            switch_out_total: self.switch_out_total@,
            thread_comm: self.thread_comm@,
            wakeup_ns: self.wakeup_ns@,
            runqueue: self.runqueue@,
            slow_events: self.slow_events@,
            config: self.config,
        }
    }
}

fn increment_map_value(m: &mut HashMap<u128, u64>, key: u128, delta: u64)
    ensures
        final(m)@ == spec_increment(old(m)@, SCHED_SWITCH_THREAD_STATE_MAX_ENTRIES as nat, key, delta),
{
    match m.get(&key) {
        Some(value) => {
            let v = add_wrapping(*value, delta);
            m.insert(key, v);
        },
        None => {
            let _ = map_insert_bounded_wide(m, SCHED_SWITCH_THREAD_STATE_MAX_ENTRIES as usize, key, delta);
        },
    }
}

impl SchedProbeState {
    /// Whether the state is one the probes can be in: three run-queue counters.
    pub open spec fn wf(&self) -> bool {
        &&& self@.runqueue.len() == 3
        &&& self@.slow_events.len() * SLOW_SCHED_EVENT_RECORD_BYTES <= SLOW_SCHED_EVENTS_BYTES
    }

    /// Empty maps, zero counters and the given target settings.
    pub fn new(config: Option<RiskTargetConfig>) -> (r: Self)
        ensures
            r.wf(),
            r@.target_tids.is_empty(),
            r@.offcpu_start.is_empty(),
            r@.offcpu_total.is_empty(),
            r@.switch_out_total.is_empty(),
            r@.thread_comm.is_empty(),
            r@.wakeup_ns.is_empty(),
            r@.runqueue == seq![0u64, 0u64, 0u64],
            r@.slow_events.len() == 0,
            r@.sched_switch_total == 0,
            r@.config == config,
    {
        let r = SchedProbeState {
            target_tids: HashMap::new(),
            sched_switch_total: 0,
            offcpu_start: HashMap::new(),
            offcpu_total: HashMap::new(),
            switch_out_total: HashMap::new(),
            thread_comm: HashMap::new(),
            wakeup_ns: HashMap::new(),
            runqueue: vec![0u64, 0u64, 0u64],
            slow_events: Vec::new(),
            config,
        };
        assert(r@.runqueue =~= seq![0u64, 0u64, 0u64]);
        r
    }

    /// Adds a thread to the target filter, as user space does; false if the filter is full.
    pub fn add_target_tid(&mut self, tid: u32) -> (ok: bool)
        requires
            old(self).wf(),
        ensures
            final(self).wf(),
            final(self)@ == (SchedModel {
                target_tids: bounded_insert(old(self)@.target_tids, SCHED_SWITCH_TARGET_TIDS_MAX_ENTRIES as nat, tid, 1),
                ..old(self)@
            }),
            ok == bounded_insert_ok(old(self)@.target_tids, SCHED_SWITCH_TARGET_TIDS_MAX_ENTRIES as nat, tid),
    {
        map_insert_bounded(&mut self.target_tids, SCHED_SWITCH_TARGET_TIDS_MAX_ENTRIES as usize, tid, 1)
    }

    /// Removes a thread from the target filter.
    pub fn remove_target_tid(&mut self, tid: u32)
        requires
            old(self).wf(),
        ensures
            final(self).wf(),
            final(self)@ == (SchedModel { target_tids: old(self)@.target_tids.remove(tid), ..old(self)@ }),
    {
        self.target_tids.remove(&tid);
    }

    /// `sched_wakeup` / `sched_wakeup_new` of thread `tid` at `now`.
    pub fn sched_wakeup(&mut self, tid: u32, now: u64)
        requires
            old(self).wf(),
        ensures
            final(self).wf(),
            final(self)@ == spec_wakeup(old(self)@, tid, now),
    {
        if !self.target_tids.contains_key(&tid) || self.wakeup_ns.contains_key(&tid) {
            return;
        }
        let _ = map_insert_bounded(&mut self.wakeup_ns, SCHED_SWITCH_TARGET_TIDS_MAX_ENTRIES as usize, tid, now);
    }

    fn handle_switch_out(&mut self, tid: u32, state: i64, comm: ThreadComm, now: u64)
        requires
            old(self).wf(),
        ensures
            final(self).wf(),
            final(self)@ == spec_switch_out(old(self)@, tid, state, comm, now),
    {
        if !self.target_tids.contains_key(&tid) {
            return;
        }
        let state = normalize_task_state(state);
        let key = make_state_key(state, tid);
        increment_map_value(&mut self.switch_out_total, key, 1);
        let start = ThreadOffCpuStart { ts_ns: now, state };
        let _ = map_insert_bounded(&mut self.offcpu_start, SCHED_SWITCH_TARGET_TIDS_MAX_ENTRIES as usize, tid, start);
        let _ = map_insert_bounded(&mut self.thread_comm, SCHED_SWITCH_TARGET_TIDS_MAX_ENTRIES as usize, tid, comm);
    }

    fn increment_runqueue(&mut self, index: usize, delta: u64)
        requires
            old(self).wf(),
            index < 3,
        ensures
            final(self).wf(),
            final(self)@ == (SchedModel {
                runqueue: old(self)@.runqueue.update(index as int, wrapping_add(old(self)@.runqueue[index as int], delta)),
                ..old(self)@
            }),
    {
        let v = add_wrapping(self.runqueue[index], delta);
        self.runqueue.set(index, v);
    }

    fn handle_switch_in(&mut self, tid: u32, comm: ThreadComm, now: u64)
        requires
            old(self).wf(),
        ensures
            final(self).wf(),
            final(self)@ == spec_switch_in(old(self)@, tid, comm, now),
    {
        if !self.target_tids.contains_key(&tid) {
            return;
        }
        let ghost s0 = self@;
        match self.wakeup_ns.get(&tid) {
            Some(wakeup) => {
                let wakeup_ns: u64 = *wakeup;
                let latency_ns = now.saturating_sub(wakeup_ns);
                self.increment_runqueue(RUNQUEUE_EVENT_COUNT_INDEX, 1);
                self.increment_runqueue(RUNQUEUE_TOTAL_NS_INDEX, latency_ns);
                match self.config {
                    Some(config) => {
                        if latency_ns >= config.slow_threshold_ns {
                            self.increment_runqueue(RUNQUEUE_SLOW_COUNT_INDEX, 1);
                            let event = SlowSchedEvent {
                                wakeup_ns,
                                switch_in_ns: now,
                                latency_ns,
                                tid,
                                comm: comm.comm,
                                _pad: 0,
                            };
                            let pending: u64 = self.slow_events.len() as u64;
                            if (pending + 1) * SLOW_SCHED_EVENT_RECORD_BYTES <= SLOW_SCHED_EVENTS_BYTES {
                                self.slow_events.push(event);
                            }
                        }
                    },
                    None => {},
                }
                self.wakeup_ns.remove(&tid);
            },
            None => {},
        }
        assert(self@ == spec_switch_in_runqueue(s0, tid, comm, now));
        let ghost s1 = self@;
        match self.offcpu_start.get(&tid) {
            Some(start) => {
                let start: ThreadOffCpuStart = *start;
                let key = make_state_key(start.state, tid);
                increment_map_value(&mut self.offcpu_total, key, now.saturating_sub(start.ts_ns));
                self.offcpu_start.remove(&tid);
            },
            None => {},
        }
        assert(self@ == spec_switch_in_offcpu(s1, tid, now));
        let _ = map_insert_bounded(&mut self.thread_comm, SCHED_SWITCH_TARGET_TIDS_MAX_ENTRIES as usize, tid, comm);
    }

    /// `sched_switch` from `prev_pid` (in `prev_state`) to `next_pid` at `now`.
    pub fn sched_switch(
        &mut self,
        prev_comm: ThreadComm,
        prev_pid: u32,
        prev_state: i64,
        next_comm: ThreadComm,
        next_pid: u32,
        now: u64,
    )
        requires
            old(self).wf(),
        ensures
            final(self).wf(),
            final(self)@ == spec_sched_switch(old(self)@, prev_pid, prev_state, prev_comm, next_pid, next_comm, now),
    {
        self.sched_switch_total = add_wrapping(self.sched_switch_total, 1);
        self.handle_switch_out(prev_pid, prev_state, prev_comm, now);
        self.handle_switch_in(next_pid, next_comm, now);
    }

    pub fn sched_switch_total(&self) -> (r: u64)
        ensures
            r == self@.sched_switch_total,
    {
        self.sched_switch_total
    }

    /// The run-queue counters: events, total latency, slow events.
    pub fn runqueue(&self) -> (r: &Vec<u64>)
        ensures
            r@ == self@.runqueue,
    {
        &self.runqueue
    }

    /// Consumes the slow-wakeup events in the ring buffer, as user space reads
    /// them, freeing their room.
    pub fn drain_slow_events(&mut self) -> (r: Vec<SlowSchedEvent>)
        requires
            old(self).wf(),
        ensures
            final(self).wf(),
            r@ == old(self)@.slow_events,
            final(self)@ == (SchedModel { slow_events: Seq::empty(), ..old(self)@ }),
    {
        let mut out: Vec<SlowSchedEvent> = Vec::new();
        std::mem::swap(&mut out, &mut self.slow_events);
        assert(self@.slow_events =~= Seq::<SlowSchedEvent>::empty());
        out
    }

    pub fn slow_events(&self) -> (r: &Vec<SlowSchedEvent>)
        ensures
            r@ == self@.slow_events,
    {
        &self.slow_events
    }

    /// The off-CPU nanoseconds of `tid` in `state`, if recorded.
    pub fn offcpu_total(&self, state: u64, tid: u32) -> (r: Option<u64>)
        ensures
            r == (if self@.offcpu_total.contains_key(state_key(state, tid)) {
                Some(self@.offcpu_total[state_key(state, tid)])
            } else {
                None
            }),
    {
        let key = make_state_key(state, tid);
        match self.offcpu_total.get(&key) {
            Some(v) => Some(*v),
            None => None,
        }
    }

    /// The switch-out count of `tid` in `state`, if recorded.
    pub fn switch_out_total(&self, state: u64, tid: u32) -> (r: Option<u64>)
        ensures
            r == (if self@.switch_out_total.contains_key(state_key(state, tid)) {
                Some(self@.switch_out_total[state_key(state, tid)])
            } else {
                None
            }),
    {
        let key = make_state_key(state, tid);
        match self.switch_out_total.get(&key) {
            Some(v) => Some(*v),
            None => None,
        }
    }

    /// The recorded command name of `tid`, if any.
    pub fn thread_comm(&self, tid: u32) -> (r: Option<ThreadComm>)
        ensures
            r == (if self@.thread_comm.contains_key(tid) { Some(self@.thread_comm[tid]) } else { None }),
    {
        match self.thread_comm.get(&tid) {
            Some(c) => Some(*c),
            None => None,
        }
    }

    /// Whether `tid` has a pending wakeup.
    pub fn has_pending_wakeup(&self, tid: u32) -> (r: bool)
        ensures
            r == self@.wakeup_ns.contains_key(tid),
    {
        self.wakeup_ns.contains_key(&tid)
    }
}


/// A pending wakeup is never overwritten: the first wakeup of a target thread
/// is the one its run-queue latency is measured from.
pub proof fn lemma_first_wakeup_kept(s: SchedModel, tid: u32, t1: u64, t2: u64)
    requires
        spec_wakeup(s, tid, t1).wakeup_ns.contains_key(tid),
    ensures
        spec_wakeup(spec_wakeup(s, tid, t1), tid, t2).wakeup_ns[tid] == spec_wakeup(s, tid, t1).wakeup_ns[tid],
        !s.wakeup_ns.contains_key(tid) ==> spec_wakeup(s, tid, t1).wakeup_ns[tid] == t1,
{
}

/// A thread outside the target filter leaves every map and counter as it is;
/// a `sched_switch` between two such threads only counts the switch.
pub proof fn lemma_non_target_untouched(
    s: SchedModel,
    prev_pid: u32,
    prev_state: i64,
    prev_comm: ThreadComm,
    next_pid: u32,
    next_comm: ThreadComm,
    now: u64,
)
    requires
        !s.target_tids.contains_key(prev_pid),
        !s.target_tids.contains_key(next_pid),
    ensures
        spec_wakeup(s, prev_pid, now) == s,
        spec_sched_switch(s, prev_pid, prev_state, prev_comm, next_pid, next_comm, now)
            == (SchedModel { sched_switch_total: wrapping_add(s.sched_switch_total, 1), ..s }),
{
}

/// Switching a target thread in after it was woken at `woken` counts one
/// run-queue event, adds `now - woken` to the latency total, counts and reports
/// a slow event exactly when that latency reaches the threshold (reporting it
/// when the ring buffer has room for it), and consumes the wakeup.
pub proof fn lemma_runqueue_latency(s: SchedModel, tid: u32, comm: ThreadComm, woken: u64, now: u64)
    requires
        s.runqueue.len() == 3,
        s.target_tids.contains_key(tid),
        s.wakeup_ns.contains_key(tid),
        s.wakeup_ns[tid] == woken,
    ensures
        ({
            let t = spec_switch_in(s, tid, comm, now);
            let latency = saturating_sub(now, woken);
            let slow = s.config matches Some(c) && latency >= c.slow_threshold_ns;
            &&& !t.wakeup_ns.contains_key(tid)
            &&& t.runqueue[RUNQUEUE_EVENT_COUNT_INDEX as int] == wrapping_add(s.runqueue[RUNQUEUE_EVENT_COUNT_INDEX as int], 1)
            &&& t.runqueue[RUNQUEUE_TOTAL_NS_INDEX as int] == wrapping_add(s.runqueue[RUNQUEUE_TOTAL_NS_INDEX as int], latency)
            &&& t.runqueue[RUNQUEUE_SLOW_COUNT_INDEX as int] == (if slow {
                wrapping_add(s.runqueue[RUNQUEUE_SLOW_COUNT_INDEX as int], 1)
            } else {
                s.runqueue[RUNQUEUE_SLOW_COUNT_INDEX as int]
            })
            &&& t.slow_events == (if slow && ring_has_room(s.slow_events) {
                s.slow_events.push(SlowSchedEvent {
                    wakeup_ns: woken, switch_in_ns: now, latency_ns: latency, tid, comm: comm.comm, _pad: 0 })
            } else {
                s.slow_events
            })
        }),
{
}

/// A target thread switched out at `out_ns` in `state` and switched back in at
/// `in_ns` adds `in_ns - out_ns` to its off-CPU total for that state (starting
/// a new total of that size where none was kept), and its start record is
/// consumed. The maps need room for the thread's records.
pub proof fn lemma_offcpu_time_accounted(
    s: SchedModel,
    tid: u32,
    state: i64,
    out_comm: ThreadComm,
    in_comm: ThreadComm,
    out_ns: u64,
    in_ns: u64,
)
    requires
        s.target_tids.contains_key(tid),
        s.offcpu_start.contains_key(tid) || s.offcpu_start.len() < SCHED_SWITCH_TARGET_TIDS_MAX_ENTRIES,
        s.offcpu_total.len() < SCHED_SWITCH_THREAD_STATE_MAX_ENTRIES,
    ensures
        ({
            let key = state_key(spec_normalize_task_state(state), tid);
            let t = spec_switch_in(spec_switch_out(s, tid, state, out_comm, out_ns), tid, in_comm, in_ns);
            let delta = saturating_sub(in_ns, out_ns);
            &&& !t.offcpu_start.contains_key(tid)
            &&& t.offcpu_total.contains_key(key)
            &&& t.offcpu_total[key] == (if s.offcpu_total.contains_key(key) {
                wrapping_add(s.offcpu_total[key], delta)
            } else {
                delta
            })
        }),
{
    let s1 = spec_switch_out(s, tid, state, out_comm, out_ns);
    let s2 = spec_switch_in_runqueue(s1, tid, in_comm, in_ns);
    assert(s2.offcpu_start == s1.offcpu_start);
    assert(s2.offcpu_total == s1.offcpu_total);
    assert(s1.offcpu_total == s.offcpu_total);
}

/// Every switch-out of a target thread counts once: the (state, thread)
/// counter of the state it leaves in grows by one (wrapping) where it is kept,
/// starts at one where it is new and the map has room, and no other
/// (state, thread) counter changes.
pub proof fn lemma_switch_out_counted_once(
    s: SchedModel,
    prev_pid: u32,
    prev_state: i64,
    prev_comm: ThreadComm,
    next_pid: u32,
    next_comm: ThreadComm,
    now: u64,
)
    requires
        s.target_tids.contains_key(prev_pid),
    ensures
        ({
            let key = state_key(spec_normalize_task_state(prev_state), prev_pid);
            let t = spec_sched_switch(s, prev_pid, prev_state, prev_comm, next_pid, next_comm, now);
            &&& s.switch_out_total.contains_key(key) ==> t.switch_out_total.contains_key(key)
                && t.switch_out_total[key] == wrapping_add(s.switch_out_total[key], 1)
            &&& !s.switch_out_total.contains_key(key) && s.switch_out_total.len() < SCHED_SWITCH_THREAD_STATE_MAX_ENTRIES
                ==> t.switch_out_total.contains_key(key) && t.switch_out_total[key] == 1
            &&& forall|k: u128| k != key ==> (#[trigger] t.switch_out_total.contains_key(k)
                == s.switch_out_total.contains_key(k)
                && (s.switch_out_total.contains_key(k) ==> t.switch_out_total[k] == s.switch_out_total[k]))
        }),
{
}

} // verus!
