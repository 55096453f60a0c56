use sword::mouse::{
    io_file, parse_url_list, trim_str, request_worker_count, sched_switch, simulator_worker_count, RequestConfig, SchedSwitchConfig,
    SimulatorWorker,
};

#[test]
fn default_churn_settings_scale_with_cpus() {
    let c = SchedSwitchConfig::for_parallelism(Some(8));
    assert_eq!(c.workers, 32);
    assert_eq!(c.pin_cpu, None);
    assert_eq!(c.yield_every, 1);
    assert_eq!(c.sleep_every, 64);
    assert_eq!(c.sleep_for_us, 50);
    assert_eq!(c.spin_iters, 20_000);
    assert_eq!(SchedSwitchConfig::for_parallelism(None).workers, 4);
}

#[test]
fn sched_switch_overrides_workers_and_pin() {
    let defaults = SchedSwitchConfig::for_parallelism(Some(2));
    let c = sched_switch(defaults, Some(3), Some(1));
    assert_eq!(c.workers, 3);
    assert_eq!(c.pin_cpu, Some(1));
    let c = sched_switch(defaults, None, None);
    assert_eq!(c.workers, 8);
    assert_eq!(c.pin_cpu, None);
}

#[test]
fn at_least_two_churn_workers_run() {
    let mut c = SchedSwitchConfig::for_parallelism(None);
    c.workers = 0;
    assert_eq!(simulator_worker_count(&c), 2);
    c.workers = 1;
    assert_eq!(simulator_worker_count(&c), 2);
    c.workers = 5;
    assert_eq!(simulator_worker_count(&c), 5);
}

#[test]
fn rounds_spin_and_decide_yields_and_sleeps() {
    let mut c = SchedSwitchConfig::for_parallelism(None);
    c.spin_iters = 2;
    c.sleep_every = 3;
    let mut w = SimulatorWorker::new(0);
    assert_eq!(w.state, 1);
    let a = w.run_round(&c);
    // state = ((1 * 1664525 + 1013904223) + 0) then ((s * 1664525 + 1013904223) + 1), wrapping.
    let s1 = 1u64.wrapping_mul(1_664_525).wrapping_add(1_013_904_223);
    let s2 = s1.wrapping_mul(1_664_525).wrapping_add(1_013_904_223).wrapping_add(1);
    assert_eq!(w.state, s2);
    assert_eq!(w.rounds, 1);
    assert!(a.yield_now);
    assert!(!a.sleep);
    w.run_round(&c);
    let a = w.run_round(&c);
    assert_eq!(w.rounds, 3);
    assert!(a.sleep);
    c.sleep_every = 0;
    assert!(!w.run_round(&c).sleep);
}

#[test]
fn file_walk_starts_at_the_kernel_tree() {
    assert_eq!(io_file(), "/media/data/code/github/linux");
}

#[test]
fn request_defaults_and_worker_floor() {
    let c = RequestConfig::default();
    assert_eq!(c.urls, vec!["https://www.baidu.com/".to_string(), "https://www.json.cn/".to_string()]);
    assert_eq!(c.workers, 1);
    assert_eq!(c.interval_ms, 1000);
    assert_eq!(c.timeout_ms, 5000);
    let zero = RequestConfig { workers: 0, ..RequestConfig::default() };
    assert_eq!(request_worker_count(&zero), 1);
    let three = RequestConfig { workers: 3, ..RequestConfig::default() };
    assert_eq!(request_worker_count(&three), 3);
}

#[test]
fn url_lists_are_split_trimmed_and_filtered() {
    assert_eq!(parse_url_list("http://a/, http://b/ ,,  "), vec!["http://a/".to_string(), "http://b/".to_string()]);
    assert_eq!(parse_url_list(""), Vec::<String>::new());
    assert_eq!(parse_url_list(" \t "), Vec::<String>::new());
    assert_eq!(parse_url_list("one"), vec!["one".to_string()]);
    assert_eq!(parse_url_list(",x,"), vec!["x".to_string()]);
}

#[test]
fn trimming_matches_std() {
    for s in ["", "  a b  ", "\u{3000}x\u{a0}", "\n\t", "abc"] {
        assert_eq!(trim_str(s), s.trim());
    }
}
