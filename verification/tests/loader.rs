use sword::common::SchedSwitchStateKey;
use sword::loader::{
    cmdline_matches, comm_matches, io_trace_points, network_kprobes, network_trace_points, process_matches,
    read_sched_switch_target, sched_trace_points, target_pid, KProberConfig, LoaderOptions, SchedSwitchTarget,
    TracePointConfig,
};

#[test]
fn matches_target_jar_in_nul_separated_cmdline() {
    let cmdline = b"java\0-jar\0content-risk-control-service.jar\0";
    assert!(cmdline_matches(cmdline, "content-risk-control-service.jar"));
    assert!(!cmdline_matches(cmdline, "another-service.jar"));
}

#[test]
fn cmdline_target_description_does_not_include_full_command() {
    let target = SchedSwitchTarget::Cmdline("content-risk-control-service.jar".to_string());
    assert_eq!(target.description(), "cmdline contains content-risk-control-service.jar");
}

#[test]
fn target_descriptions_by_kind() {
    assert_eq!(SchedSwitchTarget::Pid(4321).description(), "pid 4321");
    assert_eq!(SchedSwitchTarget::Comm("java".to_string()).description(), "comm java");
}

#[test]
fn cmdline_markers_match_within_one_argument_only() {
    // A marker spanning two arguments does not match.
    assert!(!cmdline_matches(b"java\0-jar\0", "java -jar"));
    assert!(!cmdline_matches(b"java\0-jar\0", "a\0-"));
    // A part of an argument matches.
    assert!(cmdline_matches(b"/usr/bin/java\0-Xmx1g\0", "bin/ja"));
    // A command line without a trailing NUL still has a last argument.
    assert!(cmdline_matches(b"python3\0server.py", "server.py"));
    // Arguments that are not UTF-8 are skipped, the others still count.
    assert!(!cmdline_matches(b"\xff\xfeapp.jar\0", "app.jar"));
    assert!(cmdline_matches(b"\xff\xfe\0app.jar\0", "app.jar"));
    // The empty marker matches any command line with an argument.
    assert!(cmdline_matches(b"x", ""));
    assert!(cmdline_matches(b"", ""));
}

#[test]
fn comm_matches_without_trailing_whitespace() {
    assert!(comm_matches("java\n", "java"));
    assert!(comm_matches("java  \t\n", "java"));
    assert!(!comm_matches("java\n", "jav"));
    assert!(!comm_matches(" java\n", "java"));
    assert!(!comm_matches("javac\n", "java"));
}

#[test]
fn pid_targets_are_never_matched_by_scanning() {
    let pid = SchedSwitchTarget::Pid(1);
    assert!(!process_matches(&pid, Some(b"java\0"), Some("java\n")));
    let by_cmdline = SchedSwitchTarget::Cmdline("app.jar".to_string());
    assert!(process_matches(&by_cmdline, Some(b"java\0-jar\0app.jar\0"), None));
    assert!(!process_matches(&by_cmdline, None, Some("app.jar")));
    let by_comm = SchedSwitchTarget::Comm("java".to_string());
    assert!(process_matches(&by_comm, None, Some("java\n")));
    assert!(!process_matches(&by_comm, Some(b"java\0"), None));
}

#[test]
fn target_options_prefer_pid_then_cmdline_then_comm() {
    let all = LoaderOptions {
        target_pid: Some(7),
        target_cmdline: Some("a.jar".to_string()),
        target_comm: Some("java".to_string()),
    };
    assert!(matches!(read_sched_switch_target(&all), Some(SchedSwitchTarget::Pid(7))));
    let no_pid = LoaderOptions { target_pid: None, ..all };
    match read_sched_switch_target(&no_pid) {
        Some(SchedSwitchTarget::Cmdline(c)) => assert_eq!(c, "a.jar"),
        _ => panic!("a command-line target"),
    }
    let comm_only = LoaderOptions { target_pid: None, target_cmdline: None, target_comm: Some("java".to_string()) };
    match read_sched_switch_target(&comm_only) {
        Some(SchedSwitchTarget::Comm(c)) => assert_eq!(c, "java"),
        _ => panic!("a command-name target"),
    }
    let none = LoaderOptions { target_pid: None, target_cmdline: None, target_comm: None };
    assert!(read_sched_switch_target(&none).is_none());
}

#[test]
fn tracepoint_config_names_its_attachment() {
    let t = TracePointConfig::create_sched("sched_switch", "sched_switch");
    assert_eq!(t.uname(), "sched_switch");
    assert_eq!(t.category(), "sched");
    assert_eq!(t.kname(), "sched_switch");
    assert_eq!(t.to_string(), "sched/sched_switch-->sched_switch");
    let s = TracePointConfig::create_syscalls("u", "k");
    assert_eq!(s.to_string(), "syscalls/k-->u");
    assert_eq!(TracePointConfig::create_sock("u", "k").category(), "sock");
    assert_eq!(TracePointConfig::create_tcp("u", "k").category(), "tcp");
    let n = TracePointConfig::new("a".to_string(), "b".to_string(), "c".to_string());
    assert_eq!(n.to_string(), "b/c-->a");
}

#[test]
fn kprobe_config_keeps_its_names() {
    let k = KProberConfig::new("tcp_v4_connect", "tcp_v4_connect_fn");
    assert_eq!(k.name(), "tcp_v4_connect");
    assert_eq!(k.fn_name(), "tcp_v4_connect_fn");
}

#[test]
fn loader_attaches_the_listed_programs() {
    let sched: Vec<String> = sched_trace_points().iter().map(|t| t.to_string()).collect();
    assert_eq!(sched, vec![
        "sched/sched_switch-->sched_switch",
        "sched/sched_wakeup-->sched_wakeup",
        "sched/sched_wakeup_new-->sched_wakeup_new",
    ]);
    let io: Vec<String> = io_trace_points().iter().map(|t| t.to_string()).collect();
    assert_eq!(io, vec!["syscalls/sys_enter_open-->sys_enter_open", "syscalls/sys_enter_openat-->sys_enter_openat"]);
    let net = network_trace_points();
    assert_eq!(net.len(), 6);
    assert_eq!(net[4].to_string(), "sock/inet_sock_set_state-->inet_sock_set_state");
    assert_eq!(net[5].to_string(), "tcp/tcp_send_reset-->tcp_send_reset");
    let kprobes = network_kprobes();
    assert_eq!(kprobes.len(), 2);
    assert_eq!(kprobes[0].name(), "tcp_v4_connect");
    assert_eq!(kprobes[0].fn_name(), "tcp_v4_connect");
    assert_eq!(kprobes[1].name(), "tcp_send_active_reset");
    assert_eq!(kprobes[1].fn_name(), "tcp_send_active_reset");
}

#[test]
fn target_pid_record_is_padded_with_zero() {
    let t = target_pid(77);
    assert_eq!(t.pid, 77);
    assert_eq!(t._pad, 0);
    let k = SchedSwitchStateKey { state: 1, tid: 2, _pad: 0 };
    assert_eq!(k.tid, 2);
}
