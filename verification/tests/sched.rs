use sword::common::{RiskTargetConfig, ThreadComm};
use sword::sched::{normalize_task_state, SchedProbeState, RUNQUEUE_EVENT_COUNT_INDEX, RUNQUEUE_SLOW_COUNT_INDEX,
    RUNQUEUE_TOTAL_NS_INDEX};

fn comm(name: &str) -> ThreadComm {
    let mut c = ThreadComm { comm: [0; 16] };
    c.comm[..name.len()].copy_from_slice(name.as_bytes());
    c
}

fn probes(threshold: u64) -> SchedProbeState {
    let config = RiskTargetConfig { tgid: 10, server_port: 8080, flags: 0, slow_threshold_ns: threshold };
    let mut p = SchedProbeState::new(Some(config));
    assert!(p.add_target_tid(11));
    p
}

#[test]
fn negative_task_states_count_as_running() {
    assert_eq!(normalize_task_state(-1), 0);
    assert_eq!(normalize_task_state(0), 0);
    assert_eq!(normalize_task_state(2), 2);
}

#[test]
fn runqueue_latency_is_measured_from_the_first_wakeup() {
    let mut p = probes(1_000);
    p.sched_wakeup(11, 100);
    p.sched_wakeup(11, 150);
    assert!(p.has_pending_wakeup(11));
    p.sched_switch(comm("idle"), 0, 0, comm("worker"), 11, 2_100);
    assert!(!p.has_pending_wakeup(11));
    assert_eq!(p.runqueue()[RUNQUEUE_EVENT_COUNT_INDEX], 1);
    assert_eq!(p.runqueue()[RUNQUEUE_TOTAL_NS_INDEX], 2_000);
    assert_eq!(p.runqueue()[RUNQUEUE_SLOW_COUNT_INDEX], 1);
    let slow = p.slow_events();
    assert_eq!(slow.len(), 1);
    assert_eq!(slow[0].wakeup_ns, 100);
    assert_eq!(slow[0].switch_in_ns, 2_100);
    assert_eq!(slow[0].latency_ns, 2_000);
    assert_eq!(slow[0].tid, 11);
    assert_eq!(&slow[0].comm[..6], b"worker");
    assert_eq!(p.sched_switch_total(), 1);
}

#[test]
fn fast_wakeup_is_counted_but_not_reported() {
    let mut p = probes(1_000);
    p.sched_wakeup(11, 100);
    p.sched_switch(comm("idle"), 0, 0, comm("worker"), 11, 600);
    assert_eq!(p.runqueue()[RUNQUEUE_EVENT_COUNT_INDEX], 1);
    assert_eq!(p.runqueue()[RUNQUEUE_TOTAL_NS_INDEX], 500);
    assert_eq!(p.runqueue()[RUNQUEUE_SLOW_COUNT_INDEX], 0);
    assert!(p.slow_events().is_empty());
}

#[test]
fn offcpu_time_is_accounted_per_state() {
    let mut p = probes(u64::MAX);
    // Thread 11 sleeps interruptibly at 1000 and runs again at 5000.
    p.sched_switch(comm("worker"), 11, 1, comm("other"), 99, 1_000);
    assert_eq!(p.switch_out_total(1, 11), Some(1));
    p.sched_switch(comm("other"), 99, 0, comm("worker"), 11, 5_000);
    assert_eq!(p.offcpu_total(1, 11), Some(4_000));
    // Preempted while running (a negative state counts as running).
    p.sched_switch(comm("worker"), 11, -1, comm("other"), 99, 6_000);
    p.sched_switch(comm("other"), 99, 0, comm("worker"), 11, 6_500);
    assert_eq!(p.offcpu_total(0, 11), Some(500));
    assert_eq!(p.switch_out_total(0, 11), Some(1));
    assert_eq!(p.offcpu_total(1, 11), Some(4_000));
    assert_eq!(p.thread_comm(11), Some(comm("worker")));
    assert_eq!(p.sched_switch_total(), 4);
}

#[test]
fn non_target_threads_are_only_counted() {
    let mut p = probes(0);
    p.sched_wakeup(99, 100);
    p.sched_switch(comm("a"), 98, 1, comm("b"), 99, 200);
    assert!(!p.has_pending_wakeup(99));
    assert_eq!(p.switch_out_total(1, 98), None);
    assert_eq!(p.offcpu_total(1, 98), None);
    assert_eq!(p.thread_comm(99), None);
    assert_eq!(p.runqueue()[RUNQUEUE_EVENT_COUNT_INDEX], 0);
    assert_eq!(p.sched_switch_total(), 1);
}

#[test]
fn removed_target_stops_being_tracked() {
    let mut p = probes(0);
    p.remove_target_tid(11);
    p.sched_wakeup(11, 100);
    assert!(!p.has_pending_wakeup(11));
}

#[test]
fn slow_wakeups_beyond_the_ring_buffer_are_counted_but_not_reported() {
    let mut p = probes(0);
    for i in 0..1200u64 {
        p.sched_wakeup(11, i * 10);
        p.sched_switch(comm("idle"), 0, 0, comm("worker"), 11, i * 10 + 5);
    }
    // 65536 bytes hold 1170 events of 56 bytes.
    assert_eq!(p.slow_events().len(), 1170);
    assert_eq!(p.runqueue()[RUNQUEUE_SLOW_COUNT_INDEX], 1200);
    assert_eq!(p.drain_slow_events().len(), 1170);
    p.sched_wakeup(11, 100_000);
    p.sched_switch(comm("idle"), 0, 0, comm("worker"), 11, 100_001);
    assert_eq!(p.slow_events().len(), 1);
}
