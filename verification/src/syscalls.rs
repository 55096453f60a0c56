//! The system-call counting probes and the helpers they share.
//!
//! [`SyscallCounters`] holds the per-CPU maps of the counting probes (as the
//! slots of the CPU that runs the probe) and applies their updates.

use std::collections::HashMap;
use vstd::prelude::*;
use crate::bpf_map::{add_wrapping, bounded_insert, bounded_insert_ok, map_insert_bounded, wrapping_add};
use crate::common::SysEnterType;

verus! {

broadcast use vstd::std_specs::hash::group_hash_axioms;

/// Room of the per-process connect counters and of the system-call statistics.
pub const SYSCALL_MAP_ENTRIES: usize = 4096;
pub const SYS_ENTER_CONNECT_TYPE: u32 = 1;
pub const SYS_ENTER_SOCKET_TYPE: u32 = 1;
pub const SYS_ENTER_ACCEPT_TYPE: u32 = 3;
pub const SYS_ENTER_ACCEPT4_TYPE: u32 = 4;

/// Room of the per-CPU scratch buffer of the file probes.
pub const LOG_BUF_CAPACITY: usize = 1024;

/// The per-CPU scratch buffer of the file probes.
pub struct Buf {
    pub buf: [u8; LOG_BUF_CAPACITY],
}

/// The process id (high half) and thread id (low half) of a `bpf_get_current_pid_tgid` value.
pub fn split_pid_tgid(pid_tgid: u64) -> (r: (u32, u32))
    ensures
        r.0 as int == pid_tgid as int / 0x1_0000_0000,
        r.1 as int == pid_tgid as int % 0x1_0000_0000,
{
    let high: u64 = pid_tgid / 0x1_0000_0000;
    let low: u64 = pid_tgid % 0x1_0000_0000;
    (high as u32, low as u32)
}

/// The length of the part of a NUL-padded name before its first NUL.
pub open spec fn nul_terminated_len(bytes: Seq<u8>) -> int
    decreases bytes.len(),
{
    if bytes.len() == 0 {
        0
    } else if bytes[0] == 0 {
        0
    } else {
        1 + nul_terminated_len(bytes.drop_first())
    }
}

proof fn lemma_nul_len_scan(bytes: Seq<u8>, i: int)
    requires
        0 <= i <= bytes.len(),
        forall|j: int| 0 <= j < i ==> bytes[j] != 0,
    ensures
        (i == bytes.len() || bytes[i] == 0) ==> nul_terminated_len(bytes) == i,
        nul_terminated_len(bytes) >= i,
        nul_terminated_len(bytes) <= bytes.len(),
    decreases bytes.len(),
{
    if i == 0 {
        if bytes.len() > 0 && bytes[0] != 0 {
            lemma_nul_len_scan(bytes.drop_first(), 0);
        }
    } else {
        assert forall|j: int| 0 <= j < i - 1 implies bytes.drop_first()[j] != 0 by {
            assert(bytes.drop_first()[j] == bytes[j + 1]);
        }
        lemma_nul_len_scan(bytes.drop_first(), i - 1);
        if i < bytes.len() {
            assert(bytes.drop_first()[i - 1] == bytes[i]);
        }
    }
}

/// The number of bytes of a NUL-padded name before its first NUL (all of them without one).
pub fn name_len(bytes: &[u8]) -> (r: usize)
    ensures
        r as int == nul_terminated_len(bytes@),
        r <= bytes@.len(),
        forall|j: int| 0 <= j < r ==> bytes@[j] != 0,
{
    let mut len: usize = 0;
    while len < bytes.len() && bytes[len] != 0
        invariant
            len <= bytes@.len(),
            forall|j: int| 0 <= j < len ==> bytes@[j] != 0,
        decreases bytes.len() - len,
    {
        len = len + 1;
    }
    proof { lemma_nul_len_scan(bytes@, len as int); }
    len
}

/// The key of a (process, call type) statistic.
pub open spec fn stat_key(pid: u32, enter_type: u32) -> u64 {
    (pid as int * 0x1_0000_0000 + enter_type as int) as u64
}

/// The contents of the counting maps.
pub struct SyscallModel {
    pub statistics: Map<u64, u64>,
    pub connect: Map<u32, u64>,
    pub open_count: u64,
}

/// Counting one entry of a call type: the statistic is keyed by `SysEnterType { pid: 1, .. }`
/// whatever process made the call, so the statistic counts per call type.
/// An absent key is inserted with one if the map has room; otherwise the update fails.
pub open spec fn spec_statistics_inc(s: SyscallModel, enter_type: u32) -> (SyscallModel, bool) {
    let k = stat_key(1, enter_type);
    if s.statistics.contains_key(k) {
        (SyscallModel { statistics: s.statistics.insert(k, wrapping_add(s.statistics[k], 1)), ..s }, true)
    } else {
        (SyscallModel { statistics: bounded_insert(s.statistics, SYSCALL_MAP_ENTRIES as nat, k, 1), ..s },
            bounded_insert_ok(s.statistics, SYSCALL_MAP_ENTRIES as nat, k))
    }
}

/// `sys_enter_connect` by `pid`: the statistic, then the process's connect count.
pub open spec fn spec_sys_enter_connect(s: SyscallModel, pid: u32) -> SyscallModel {
    let (s1, ok) = spec_statistics_inc(s, SYS_ENTER_CONNECT_TYPE);
    if !ok {
        s1
    } else if s1.connect.contains_key(pid) {
        SyscallModel { connect: s1.connect.insert(pid, wrapping_add(s1.connect[pid], 1)), ..s1 }
    } else {
        SyscallModel { connect: bounded_insert(s1.connect, SYSCALL_MAP_ENTRIES as nat, pid, 1), ..s1 }
    }
}

/// The per-CPU counting maps of the system-call probes.
pub struct SyscallCounters {
    statistics: HashMap<u64, u64>,
    connect: HashMap<u32, u64>,
    open_count: u64,
}

impl View for SyscallCounters {
    type V = SyscallModel;

    closed spec fn view(&self) -> SyscallModel {
        SyscallModel { statistics: self.statistics@, connect: self.connect@, open_count: self.open_count }
    }
}

impl SyscallCounters {
    pub fn new() -> (r: Self)
        ensures
            r@.statistics.is_empty(),
            r@.connect.is_empty(),
            r@.open_count == 0,
    {
        SyscallCounters { statistics: HashMap::new(), connect: HashMap::new(), open_count: 0 }
    }

    /// Counts one entry of `enter_type` (made by `pid`); false if the statistics map is full.
    pub fn sys_enter_statistics_inc(&mut self, pid: u32, enter_type: u32) -> (ok: bool)
        ensures
            (final(self)@, ok) == spec_statistics_inc(old(self)@, enter_type),
    {
        let key: u64 = 0x1_0000_0000 + enter_type as u64;
        assert(key == stat_key(1, enter_type));
        match self.statistics.get(&key) {
            Some(count) => {
                let v = add_wrapping(*count, 1);
                self.statistics.insert(key, v);
                true
            },
            None => {
                if self.statistics.len() < SYSCALL_MAP_ENTRIES {
                    self.statistics.insert(key, 1);
                    true
                } else {
                    false
                }
            },
        }
    }

    pub fn sys_enter_connect(&mut self, pid: u32)
        ensures
            final(self)@ == spec_sys_enter_connect(old(self)@, pid),
    {
        if !self.sys_enter_statistics_inc(pid, SYS_ENTER_CONNECT_TYPE) {
            return;
        }
        match self.connect.get(&pid) {
            Some(count) => {
                let v = add_wrapping(*count, 1);
                self.connect.insert(pid, v);
            },
            None => {
                let _ = map_insert_bounded(&mut self.connect, SYSCALL_MAP_ENTRIES, pid, 1);
            },
        }
    }

    pub fn sys_enter_socket(&mut self, pid: u32)
        ensures
            final(self)@ == spec_statistics_inc(old(self)@, SYS_ENTER_SOCKET_TYPE).0,
    {
        let _ = self.sys_enter_statistics_inc(pid, SYS_ENTER_SOCKET_TYPE);
    }

    pub fn sys_enter_accept(&mut self, pid: u32)
        ensures
            final(self)@ == spec_statistics_inc(old(self)@, SYS_ENTER_ACCEPT_TYPE).0,
    {
        let _ = self.sys_enter_statistics_inc(pid, SYS_ENTER_ACCEPT_TYPE);
    }

    pub fn sys_enter_accept4(&mut self, pid: u32)
        ensures
            final(self)@ == spec_statistics_inc(old(self)@, SYS_ENTER_ACCEPT4_TYPE).0,
    {
        let _ = self.sys_enter_statistics_inc(pid, SYS_ENTER_ACCEPT4_TYPE);
    }

    /// `sys_enter_open`, `sys_enter_openat` and `sys_enter_openat2` count one open.
    pub fn sys_enter_open(&mut self)
        ensures
            final(self)@ == (SyscallModel { open_count: wrapping_add(old(self)@.open_count, 1), ..old(self)@ }),
    {
        self.open_count = add_wrapping(self.open_count, 1);
    }

    /// The count of `enter_type`, if any.
    pub fn statistic(&self, enter_type: u32) -> (r: Option<SysEnterType>)
        ensures
            r == (if self@.statistics.contains_key(stat_key(1, enter_type)) {
                Some(SysEnterType { pid: 1, enter_type })
            } else {
                None
            }),
    {
        let key: u64 = 0x1_0000_0000 + enter_type as u64;
        if self.statistics.contains_key(&key) { Some(SysEnterType { pid: 1, enter_type }) } else { None }
    }

    /// The number of times `enter_type` was entered.
    pub fn statistic_count(&self, enter_type: u32) -> (r: u64)
        ensures
            r == (if self@.statistics.contains_key(stat_key(1, enter_type)) { self@.statistics[stat_key(1, enter_type)] } else { 0 }),
    {
        let key: u64 = 0x1_0000_0000 + enter_type as u64;
        match self.statistics.get(&key) {
            Some(c) => *c,
            None => 0,
        }
    }

    /// The connect count of `pid`.
    pub fn connect_count(&self, pid: u32) -> (r: u64)
        ensures
            r == (if self@.connect.contains_key(pid) { self@.connect[pid] } else { 0 }),
    {
        match self.connect.get(&pid) {
            Some(c) => *c,
            None => 0,
        }
    }

    pub fn open_count(&self) -> (r: u64)
        ensures
            r == self@.open_count,
    {
        self.open_count
    }
}

} // verus!
