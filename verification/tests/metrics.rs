use sword::common::ThreadComm;
use sword::metrics::{
    combine_metrics, per_cpu_total, sched_switch_state_label, split_connect_counts, thread_comm_label,
    trim_openmetrics_eof, PidCounts, SchedSwitchLabels, SysEnterLabels, TcpLabels, ThreadStateLabels,
};

#[test]
fn task_states_have_kernel_names() {
    assert_eq!(sched_switch_state_label(0), "TASK_RUNNING");
    assert_eq!(sched_switch_state_label(1), "TASK_INTERRUPTIBLE");
    assert_eq!(sched_switch_state_label(2), "TASK_UNINTERRUPTIBLE");
    assert_eq!(sched_switch_state_label(128), "TASK_DEAD");
    assert_eq!(sched_switch_state_label(4096), "TASK_RTLOCK_WAIT");
}

#[test]
fn other_task_states_are_shown_in_hex() {
    assert_eq!(sched_switch_state_label(3), "0x3");
    assert_eq!(sched_switch_state_label(0x402), "0x402");
    assert_eq!(sched_switch_state_label(u64::MAX), "0xffffffffffffffff");
}

#[test]
fn thread_comm_label_stops_at_nul() {
    let mut comm = ThreadComm { comm: [0; 16] };
    comm.comm[..4].copy_from_slice(b"java");
    assert_eq!(thread_comm_label(&comm), "java");
    let full = ThreadComm { comm: *b"abcdefghijklmnop" };
    assert_eq!(thread_comm_label(&full), "abcdefghijklmnop");
    let mut bad = ThreadComm { comm: [0; 16] };
    bad.comm[0] = b'a';
    bad.comm[1] = 0xff;
    assert_eq!(thread_comm_label(&bad), "a\u{fffd}");
    assert_eq!(thread_comm_label(&ThreadComm { comm: [0; 16] }), "");
}

#[test]
fn eof_line_is_trimmed_once() {
    assert_eq!(trim_openmetrics_eof("a 1\n# EOF\n".to_string()), "a 1\n");
    assert_eq!(trim_openmetrics_eof("a 1\n".to_string()), "a 1\n");
    assert_eq!(trim_openmetrics_eof("# EOF\n# EOF\n".to_string()), "# EOF\n");
    assert_eq!(trim_openmetrics_eof("# EOF".to_string()), "# EOF");
    assert_eq!(trim_openmetrics_eof("ü # EOF\n".to_string()), "ü ");
}

#[test]
fn combined_page_ends_with_one_eof() {
    let page = combine_metrics("cpu 1\n# EOF\n".to_string(), "net 2\n# EOF\n".to_string());
    assert_eq!(page, "cpu 1\nnet 2\n# EOF\n");
    let page = combine_metrics(String::new(), String::new());
    assert_eq!(page, "# EOF\n");
}

#[test]
fn per_cpu_values_are_summed() {
    assert_eq!(per_cpu_total(&[1, 2, 3, 4]), 10);
    assert_eq!(per_cpu_total(&[]), 0);
    assert_eq!(per_cpu_total(&[u64::MAX]), u64::MAX);
}

#[test]
fn connect_counts_split_into_live_and_stale() {
    let entries = vec![
        PidCounts { pid: 10, per_cpu: vec![1, 2] },
        PidCounts { pid: 11, per_cpu: vec![5] },
        PidCounts { pid: 12, per_cpu: vec![] },
        PidCounts { pid: 13, per_cpu: vec![4, 4, 4] },
    ];
    let alive = vec![true, false, true, false];
    let (live, stale) = split_connect_counts(&entries, &alive);
    assert_eq!(live, vec![(10, 3), (12, 0)]);
    assert_eq!(stale, vec![11, 13]);
}

#[test]
fn labels_carry_their_values() {
    let s = SchedSwitchLabels { cpu: 3 };
    let t = ThreadStateLabels { tid: 7, comm: "java".to_string(), state: sched_switch_state_label(1) };
    let p = TcpLabels { pid: 9 };
    let e = SysEnterLabels { pid: 1, enter_type: 4 };
    assert_eq!(s.cpu, 3);
    assert_eq!(t.state, "TASK_INTERRUPTIBLE");
    assert_eq!(p.pid, 9);
    assert_eq!(e.enter_type, 4);
}
