use sword::syscalls::{name_len, split_pid_tgid, SyscallCounters, SYS_ENTER_ACCEPT4_TYPE, SYS_ENTER_ACCEPT_TYPE,
    SYS_ENTER_CONNECT_TYPE};

#[test]
fn pid_tgid_splits_into_halves() {
    assert_eq!(split_pid_tgid(0x0000_1234_0000_5678), (0x1234, 0x5678));
    assert_eq!(split_pid_tgid(u64::MAX), (u32::MAX, u32::MAX));
}

#[test]
fn name_length_stops_at_the_first_nul() {
    assert_eq!(name_len(b"bash\0\0\0\0"), 4);
    assert_eq!(name_len(b"\0abc"), 0);
    assert_eq!(name_len(b"full"), 4);
}

#[test]
fn connects_are_counted_per_process_and_per_type() {
    let mut c = SyscallCounters::new();
    c.sys_enter_connect(7);
    c.sys_enter_connect(7);
    c.sys_enter_connect(8);
    assert_eq!(c.connect_count(7), 2);
    assert_eq!(c.connect_count(8), 1);
    assert_eq!(c.connect_count(9), 0);
    assert_eq!(c.statistic_count(SYS_ENTER_CONNECT_TYPE), 3);
    // The statistics are keyed by type alone, under process 1.
    let s = c.statistic(SYS_ENTER_CONNECT_TYPE).unwrap();
    assert_eq!(s.pid, 1);
    assert_eq!(s.enter_type, SYS_ENTER_CONNECT_TYPE);
}

#[test]
fn accepts_and_opens_are_counted() {
    let mut c = SyscallCounters::new();
    c.sys_enter_accept(5);
    c.sys_enter_accept4(5);
    c.sys_enter_accept4(6);
    c.sys_enter_open();
    c.sys_enter_open();
    assert_eq!(c.statistic_count(SYS_ENTER_ACCEPT_TYPE), 1);
    assert_eq!(c.statistic_count(SYS_ENTER_ACCEPT4_TYPE), 2);
    assert_eq!(c.open_count(), 2);
    assert!(c.statistic(77).is_none());
}
