//! What the loader attaches and which processes it targets.

use vstd::prelude::*;
use vstd::utf8::valid_utf8;
use vstd::string::StringSliceAdditionalSpecFns;
use crate::common::TargetPid;
use crate::text::{append_decimal, decimal};

verus! {

/// A tracepoint program: its name in the object file (`uname`), and the
/// kernel's category and name of the tracepoint it attaches to.
pub struct TracePointConfig {
    uname: String,
    category: String,
    kname: String,
}

impl TracePointConfig {
    pub closed spec fn spec_uname(&self) -> Seq<char> {
        self.uname@
    }

    pub closed spec fn spec_category(&self) -> Seq<char> {
        self.category@
    }

    pub closed spec fn spec_kname(&self) -> Seq<char> {
        self.kname@
    }

    pub fn new(uname: String, category: String, kname: String) -> (r: Self)
        ensures
            r.spec_uname() == uname@,
            r.spec_category() == category@,
            r.spec_kname() == kname@,
    {
        TracePointConfig { uname, category, kname }
    }

    pub fn create_syscalls(uname: &str, kname: &str) -> (r: Self)
        ensures
            r.spec_uname() == uname@,
            r.spec_category() == "syscalls"@,
            r.spec_kname() == kname@,
    {
        Self::new(String::from_str(uname), String::from_str("syscalls"), String::from_str(kname))
    }

    pub fn create_sock(uname: &str, kname: &str) -> (r: Self)
        ensures
            r.spec_uname() == uname@,
            r.spec_category() == "sock"@,
            r.spec_kname() == kname@,
    {
        Self::new(String::from_str(uname), String::from_str("sock"), String::from_str(kname))
    }

    pub fn create_sched(uname: &str, kname: &str) -> (r: Self)
        ensures
            r.spec_uname() == uname@,
            r.spec_category() == "sched"@,
            r.spec_kname() == kname@,
    {
        Self::new(String::from_str(uname), String::from_str("sched"), String::from_str(kname))
    }

    pub fn create_tcp(uname: &str, kname: &str) -> (r: Self)
        ensures
            r.spec_uname() == uname@,
            r.spec_category() == "tcp"@,
            r.spec_kname() == kname@,
    {
        Self::new(String::from_str(uname), String::from_str("tcp"), String::from_str(kname))
    }

    pub fn uname(&self) -> (r: &str)
        ensures
            r@ == self.spec_uname(),
    {
        self.uname.as_str()
    }

    pub fn category(&self) -> (r: &str)
        ensures
            r@ == self.spec_category(),
    {
        self.category.as_str()
    }

    pub fn kname(&self) -> (r: &str)
        ensures
            r@ == self.spec_kname(),
    {
        self.kname.as_str()
    }

    /// `category/kname-->uname`.
    pub fn to_string(&self) -> (r: String)
        ensures
            r@ == self.spec_category() + "/"@ + self.spec_kname() + "-->"@ + self.spec_uname(),
    {
        let mut s = String::from_str(self.category.as_str());
        s.append("/");
        s.append(self.kname.as_str());
        s.append("-->");
        s.append(self.uname.as_str());
        s
    }
}

/// A kprobe program: its name in the object file and the kernel function it attaches to.
pub struct KProberConfig {
    name: String,
    fn_name: String,
}

impl KProberConfig {
    pub closed spec fn spec_name(&self) -> Seq<char> {
        self.name@
    }

    pub closed spec fn spec_fn_name(&self) -> Seq<char> {
        self.fn_name@
    }

    pub fn new(name: &str, fn_name: &str) -> (r: Self)
        ensures
            r.spec_name() == name@,
            r.spec_fn_name() == fn_name@,
    {
        KProberConfig { name: String::from_str(name), fn_name: String::from_str(fn_name) }
    }

    pub fn name(&self) -> (r: &str)
        ensures
            r@ == self.spec_name(),
    {
        self.name.as_str()
    }

    pub fn fn_name(&self) -> (r: &str)
        ensures
            r@ == self.spec_fn_name(),
    {
        self.fn_name.as_str()
    }
}

/// A tracepoint whose program has the kernel's name of the tracepoint.
pub open spec fn names_tracepoint(t: TracePointConfig, category: Seq<char>, name: Seq<char>) -> bool {
    t.spec_category() == category && t.spec_kname() == name && t.spec_uname() == name
}

/// The scheduler tracepoints the loader attaches, in order.
pub fn sched_trace_points() -> (r: Vec<TracePointConfig>)
    ensures
        r@.len() == 3,
        names_tracepoint(r@[0], "sched"@, "sched_switch"@),
        names_tracepoint(r@[1], "sched"@, "sched_wakeup"@),
        names_tracepoint(r@[2], "sched"@, "sched_wakeup_new"@),
{
    let mut r = Vec::new();
    r.push(TracePointConfig::create_sched("sched_switch", "sched_switch"));
    r.push(TracePointConfig::create_sched("sched_wakeup", "sched_wakeup"));
    r.push(TracePointConfig::create_sched("sched_wakeup_new", "sched_wakeup_new"));
    r
}

/// The file tracepoints the loader attaches, in order.
pub fn io_trace_points() -> (r: Vec<TracePointConfig>)
    ensures
        r@.len() == 2,
        names_tracepoint(r@[0], "syscalls"@, "sys_enter_open"@),
        names_tracepoint(r@[1], "syscalls"@, "sys_enter_openat"@),
{
    let mut r = Vec::new();
    r.push(TracePointConfig::create_syscalls("sys_enter_open", "sys_enter_open"));
    r.push(TracePointConfig::create_syscalls("sys_enter_openat", "sys_enter_openat"));
    r
}

/// The network tracepoints the loader attaches, in order.
pub fn network_trace_points() -> (r: Vec<TracePointConfig>)
    ensures
        r@.len() == 6,
        names_tracepoint(r@[0], "syscalls"@, "sys_enter_connect"@),
        names_tracepoint(r@[1], "syscalls"@, "sys_exit_connect"@),
        names_tracepoint(r@[2], "syscalls"@, "sys_enter_socket"@),
        names_tracepoint(r@[3], "syscalls"@, "sys_exit_socket"@),
        names_tracepoint(r@[4], "sock"@, "inet_sock_set_state"@),
        names_tracepoint(r@[5], "tcp"@, "tcp_send_reset"@),
{
    let mut r = Vec::new();
    r.push(TracePointConfig::create_syscalls("sys_enter_connect", "sys_enter_connect"));
    r.push(TracePointConfig::create_syscalls("sys_exit_connect", "sys_exit_connect"));
    r.push(TracePointConfig::create_syscalls("sys_enter_socket", "sys_enter_socket"));
    r.push(TracePointConfig::create_syscalls("sys_exit_socket", "sys_exit_socket"));
    r.push(TracePointConfig::create_sock("inet_sock_set_state", "inet_sock_set_state"));
    r.push(TracePointConfig::create_tcp("tcp_send_reset", "tcp_send_reset"));
    r
}

/// The network kprobes the loader attaches, in order.
pub fn network_kprobes() -> (r: Vec<KProberConfig>)
    ensures
        r@.len() == 2,
        r@[0].spec_name() == "tcp_v4_connect"@ && r@[0].spec_fn_name() == "tcp_v4_connect"@,
        r@[1].spec_name() == "tcp_send_active_reset"@ && r@[1].spec_fn_name() == "tcp_send_active_reset"@,
{
    let mut r = Vec::new();
    r.push(KProberConfig::new("tcp_v4_connect", "tcp_v4_connect"));
    r.push(KProberConfig::new("tcp_send_active_reset", "tcp_send_active_reset"));
    r
}

/// The record the loader stores in the `TARGET_PID` map.
pub fn target_pid(pid: u32) -> (r: TargetPid)
    ensures
        r.pid == pid,
        r._pad == 0,
{
    TargetPid { pid, _pad: 0 }
}

/// The command-line options of the loader.
pub struct LoadOptions {
    pub command: String,
}

/// How the loader's scheduler filter selects its target processes.
pub struct LoaderOptions {
    pub target_pid: Option<u32>,
    pub target_cmdline: Option<String>,
    pub target_comm: Option<String>,
}

/// The processes the scheduler and TCP probes target.
pub enum SchedSwitchTarget {
    Pid(u32),
    Cmdline(String),
    Comm(String),
}

impl SchedSwitchTarget {
    pub open spec fn spec_description(&self) -> Seq<char> {
        match self {
            SchedSwitchTarget::Pid(pid) => "pid "@ + decimal(*pid as nat),
            SchedSwitchTarget::Cmdline(cmdline) => "cmdline contains "@ + cmdline@,
            SchedSwitchTarget::Comm(comm) => "comm "@ + comm@,
        }
    }

    /// How the target is named in log lines.
    pub fn description(&self) -> (r: String)
        ensures
            r@ == self.spec_description(),
    {
        match self {
            SchedSwitchTarget::Pid(pid) => {
                let mut s = String::from_str("pid ");
                append_decimal(&mut s, *pid as u64);
                s
            },
            SchedSwitchTarget::Cmdline(cmdline) => String::from_str("cmdline contains ").concat(cmdline.as_str()),
            SchedSwitchTarget::Comm(comm) => String::from_str("comm ").concat(comm.as_str()),
        }
    }
}

/// The target the options select: a pid first, else a command-line marker, else a command name.
pub fn read_sched_switch_target(options: &LoaderOptions) -> (r: Option<SchedSwitchTarget>)
    ensures
        match options.target_pid {
            Some(pid) => r == Some(SchedSwitchTarget::Pid(pid)),
            None => match &options.target_cmdline {
                Some(c) => r matches Some(SchedSwitchTarget::Cmdline(x)) && x@ == c@,
                None => match &options.target_comm {
                    Some(c) => r matches Some(SchedSwitchTarget::Comm(x)) && x@ == c@,
                    None => r is None,
                },
            },
        },
{
    if let Some(pid) = options.target_pid {
        return Some(SchedSwitchTarget::Pid(pid));
    }
    if let Some(cmdline) = &options.target_cmdline {
        return Some(SchedSwitchTarget::Cmdline(String::from_str(cmdline.as_str())));
    }
    match &options.target_comm {
        Some(comm) => Some(SchedSwitchTarget::Comm(String::from_str(comm.as_str()))),
        None => None,
    }
}


/// Whether the bytes are valid UTF-8 (std `str::from_utf8` succeeds).
#[verifier::external_body]
fn is_valid_utf8(bytes: &[u8]) -> (r: bool)
    ensures
        r == valid_utf8(bytes@),
{
    std::str::from_utf8(bytes).is_ok()
}

/// Whether `needle` occurs in `hay` as a contiguous run.
pub open spec fn contains_bytes(hay: Seq<u8>, needle: Seq<u8>) -> bool {
    exists|k: int| 0 <= k && k + needle.len() <= hay.len() && #[trigger] hay.subrange(k, k + needle.len()) == needle
}

fn bytes_equal_at(hay: &[u8], k: usize, needle: &[u8]) -> (r: bool)
    requires
        k + needle@.len() <= hay@.len(),
    ensures
        r == (hay@.subrange(k as int, k + needle@.len()) == needle@),
{
    let mut i: usize = 0;
    while i < needle.len()
        invariant
            i <= needle@.len(),
            k + needle@.len() <= hay@.len(),
            forall|j: int| 0 <= j < i ==> hay@[k + j] == needle@[j],
        decreases needle.len() - i,
    {
        assert(k + i < hay.len());
        if hay[k + i] != needle[i] {
            assert(hay@.subrange(k as int, k + needle@.len())[i as int] != needle@[i as int]);
            return false;
        }
        i = i + 1;
    }
    assert(hay@.subrange(k as int, k + needle@.len()) =~= needle@);
    true
}

/// Byte substring search.
pub fn bytes_contain(hay: &[u8], needle: &[u8]) -> (r: bool)
    ensures
        r == contains_bytes(hay@, needle@),
{
    if needle.len() > hay.len() {
        return false;
    }
    let last: usize = hay.len() - needle.len();
    let mut k: usize = 0;
    loop
        invariant
            last == hay@.len() - needle@.len(),
            k <= last,
            forall|j: int| 0 <= j < k ==> #[trigger] hay@.subrange(j, j + needle@.len()) != needle@,
        decreases last - k,
    {
        if bytes_equal_at(hay, k, needle) {
            return true;
        }
        if k == last {
            return false;
        }
        k = k + 1;
    }
}

/// `c[i..j]` is a field of a NUL-separated command line.
pub open spec fn is_field(c: Seq<u8>, i: int, j: int) -> bool {
    &&& 0 <= i <= j <= c.len()
    &&& (i == 0 || c[i - 1] == 0)
    &&& (j == c.len() || c[j] == 0)
    &&& forall|k: int| i <= k < j ==> c[k] != 0
}

/// A field that is valid UTF-8 and contains the marker.
pub open spec fn field_matches(c: Seq<u8>, i: int, j: int, marker: Seq<u8>) -> bool {
    valid_utf8(c.subrange(i, j)) && contains_bytes(c.subrange(i, j), marker)
}

/// Some argument of a NUL-separated command line is valid UTF-8 and contains the marker.
pub open spec fn spec_cmdline_matches(c: Seq<u8>, marker: Seq<u8>) -> bool {
    exists|i: int, j: int| is_field(c, i, j) && field_matches(c, i, j, marker)
}

/// Whether an argument of the NUL-separated command line contains `marker`
/// (arguments that are not UTF-8 are skipped).
pub fn cmdline_matches(cmdline: &[u8], marker: &str) -> (r: bool)
    ensures
        r == spec_cmdline_matches(cmdline@, marker.spec_bytes()),
{
    let needle = marker.as_bytes();
    let len = cmdline.len();
    let mut start: usize = 0;
    let mut pos: usize = 0;
    while pos <= len
        invariant
            len == cmdline@.len(),
            needle@ == marker.spec_bytes(),
            start <= pos <= len,
            start == 0 || (start - 1 < len && cmdline@[start - 1] == 0),
            forall|k: int| start <= k < pos && k < len ==> cmdline@[k] != 0,
            forall|i: int, j: int| j < pos && is_field(cmdline@, i, j) ==> !field_matches(cmdline@, i, j, needle@),
        decreases len + 1 - pos,
    {
        if pos == len || cmdline[pos] == 0 {
            let field = &cmdline[start..pos];
            assert(field@ == cmdline@.subrange(start as int, pos as int));
            proof {
                assert forall|i: int| is_field(cmdline@, i, pos as int) implies i == start by {
                    if i < start {
                        assert(cmdline@[start - 1] == 0);
                    } else if i > start {
                        assert(cmdline@[i - 1] == 0);
                    }
                }
            }
            if is_valid_utf8(field) && bytes_contain(field, needle) {
                assert(is_field(cmdline@, start as int, pos as int));
                return true;
            }
            if pos == len {
                proof {
                    assert forall|i: int, j: int| is_field(cmdline@, i, j) implies !field_matches(cmdline@, i, j, needle@) by {
                        if j == pos {
                            assert(i == start);
                        }
                    }
                }
                return false;
            }
            start = pos + 1;
        }
        pos = pos + 1;
    }
    proof {
        assert forall|i: int, j: int| is_field(cmdline@, i, j) implies !field_matches(cmdline@, i, j, needle@) by {
            assert(j < pos);
        }
    }
    false
}

/// Rust's `char::is_whitespace`: the Unicode `White_Space` characters.
pub open spec fn is_whitespace(c: char) -> bool {
    ||| '\u{9}' <= c <= '\u{d}'
    ||| c == ' '
    ||| c == '\u{85}'
    ||| c == '\u{a0}'
    ||| c == '\u{1680}'
    ||| '\u{2000}' <= c <= '\u{200a}'
    ||| c == '\u{2028}'
    ||| c == '\u{2029}'
    ||| c == '\u{202f}'
    ||| c == '\u{205f}'
    ||| c == '\u{3000}'
}

/// The string without its trailing whitespace (std `str::trim_end`).
pub open spec fn trim_end(s: Seq<char>) -> Seq<char>
    decreases s.len(),
{
    if s.len() > 0 && is_whitespace(s.last()) { trim_end(s.drop_last()) } else { s }
}

pub(crate) fn char_is_whitespace(c: char) -> (r: bool)
    ensures
        r == is_whitespace(c),
{
    ('\u{9}' <= c && c <= '\u{d}') || c == ' ' || c == '\u{85}' || c == '\u{a0}' || c == '\u{1680}'
        || ('\u{2000}' <= c && c <= '\u{200a}') || c == '\u{2028}' || c == '\u{2029}' || c == '\u{202f}'
        || c == '\u{205f}' || c == '\u{3000}'
}

/// Trailing whitespace past `n` does not change what trimming the end gives.
pub proof fn lemma_trim_end_prefix(s: Seq<char>, n: int)
    requires
        0 <= n <= s.len(),
        forall|k: int| n <= k < s.len() ==> is_whitespace(#[trigger] s[k]),
    ensures
        trim_end(s) == trim_end(s.subrange(0, n)),
    decreases s.len() - n,
{
    if n < s.len() {
        assert(s.drop_last() =~= s.subrange(0, s.len() - 1));
        assert(s.subrange(0, s.len() - 1).subrange(0, n) =~= s.subrange(0, n));
        lemma_trim_end_prefix(s.drop_last(), n);
    } else {
        assert(s.subrange(0, n) =~= s);
    }
}

/// Whether a process's `comm` contents, without trailing whitespace, are the target name.
pub fn comm_matches(comm: &str, target_comm: &str) -> (r: bool)
    ensures
        r == (trim_end(comm@) == target_comm@),
{
    let mut n: usize = comm.unicode_len();
    while n > 0 && char_is_whitespace(comm.get_char(n - 1))
        invariant
            n <= comm@.len(),
            forall|k: int| n <= k < comm@.len() ==> is_whitespace(#[trigger] comm@[k]),
        decreases n,
    {
        n = n - 1;
    }
    proof {
        lemma_trim_end_prefix(comm@, n as int);
        let t = comm@.subrange(0, n as int);
        if n > 0 {
            assert(t.last() == comm@[n - 1]);
        }
        assert(trim_end(t) == t);
    }
    let m: usize = target_comm.unicode_len();
    if m != n {
        return false;
    }
    let mut i: usize = 0;
    while i < n
        invariant
            i <= n,
            n <= comm@.len(),
            m == n,
            m == target_comm@.len(),
            trim_end(comm@) == comm@.subrange(0, n as int),
            forall|j: int| 0 <= j < i ==> comm@[j] == target_comm@[j],
        decreases n - i,
    {
        if comm.get_char(i) != target_comm.get_char(i) {
            assert(comm@.subrange(0, n as int)[i as int] != target_comm@[i as int]);
            return false;
        }
        i = i + 1;
    }
    assert(comm@.subrange(0, n as int) =~= target_comm@);
    true
}

/// Whether a running process is a target: by an argument of its command line
/// (none if unreadable) or by its command name (none if unreadable); a pid
/// target is never matched by scanning.
pub open spec fn spec_process_matches(target: SchedSwitchTarget, cmdline: Option<Seq<u8>>, comm: Option<Seq<char>>) -> bool {
    match target {
        SchedSwitchTarget::Pid(_) => false,
        SchedSwitchTarget::Cmdline(marker) => cmdline matches Some(c) && spec_cmdline_matches(c, vstd::utf8::encode_utf8(marker@)),
        SchedSwitchTarget::Comm(name) => comm matches Some(c) && trim_end(c) == name@,
    }
}

/// Whether a running process, with the command line and command name read
/// from `/proc`, is a target.
pub fn process_matches(target: &SchedSwitchTarget, cmdline: Option<&[u8]>, comm: Option<&str>) -> (r: bool)
    ensures
        r == spec_process_matches(*target, match cmdline { Some(c) => Some(c@), None => None }, match comm { Some(c) => Some(c@), None => None }),
{
    match target {
        SchedSwitchTarget::Pid(_) => false,
        SchedSwitchTarget::Cmdline(marker) => match cmdline {
            Some(c) => cmdline_matches(c, marker.as_str()),
            None => false,
        },
        SchedSwitchTarget::Comm(name) => match comm {
            Some(c) => comm_matches(c, name.as_str()),
            None => false,
        },
    }
}

} // verus!
