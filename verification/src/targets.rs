//! The sets of target processes and threads the scheduler filter holds, and
//! how they are read from `/proc` listings and brought up to date.

use std::collections::HashSet;
use vstd::prelude::*;
use crate::common::{RISK_TARGET_TGIDS_MAX_ENTRIES, SCHED_SWITCH_TARGET_TIDS_MAX_ENTRIES};
use crate::loader::{SchedSwitchTarget, process_matches, spec_process_matches};
use crate::text::{append_decimal, decimal, parse_u32, parse_u32_str, ParseIdError};

verus! {

broadcast use vstd::std_specs::hash::group_hash_axioms;

/// Every element is below every later one (so none occurs twice).
pub open spec fn strictly_increasing(s: Seq<u32>) -> bool {
    forall|i: int, j: int| 0 <= i < j < s.len() ==> s[i] < s[j]
}

/// A list of process or thread ids kept in increasing order without repeats,
/// as the loader reports them.
pub struct IdSet {
    ids: Vec<u32>,
}

impl View for IdSet {
    type V = Set<u32>;

    open spec fn view(&self) -> Set<u32> {
        self.spec_ids().to_set()
    }
}

impl IdSet {
    #[verifier::type_invariant]
    spec fn inv(self) -> bool {
        strictly_increasing(self.ids@)
    }

    /// The ids in increasing order.
    pub closed spec fn spec_ids(self) -> Seq<u32> {
        self.ids@
    }

    pub fn new() -> (r: Self)
        ensures
            r@ == Set::<u32>::empty(),
            r.spec_ids().len() == 0,
    {
        let r = IdSet { ids: Vec::new() };
        assert(r@ =~= Set::<u32>::empty());
        r
    }

    /// Where `x` stands or would be inserted: the number of ids below it.
    fn position(&self, x: u32) -> (r: usize)
        ensures
            r <= self.spec_ids().len(),
            forall|k: int| 0 <= k < r ==> self.spec_ids()[k] < x,
            forall|k: int| r <= k < self.spec_ids().len() ==> self.spec_ids()[k] >= x,
    {
        proof {
            use_type_invariant(self);
        }
        let mut lo: usize = 0;
        let mut hi: usize = self.ids.len();
        while lo < hi
            invariant
                lo <= hi <= self.ids@.len(),
                strictly_increasing(self.ids@),
                forall|k: int| 0 <= k < lo ==> self.ids@[k] < x,
                forall|k: int| hi <= k < self.ids@.len() ==> self.ids@[k] >= x,
            decreases hi - lo,
        {
            let mid = lo + (hi - lo) / 2;
            if self.ids[mid] < x {
                lo = mid + 1;
            } else {
                hi = mid;
            }
        }
        lo
    }

    pub fn contains(&self, x: u32) -> (r: bool)
        ensures
            r == self@.contains(x),
    {
        proof {
            use_type_invariant(self);
        }
        let p = self.position(x);
        let r = p < self.ids.len() && self.ids[p] == x;
        proof {
            if !r && self.ids@.contains(x) {
                let k = choose|k: int| 0 <= k < self.ids@.len() && self.ids@[k] == x;
                if k < p {
                } else if p < self.ids@.len() {
                    assert(self.ids@[p as int] > x);
                    assert(self.ids@[p as int] <= self.ids@[k]);
                }
            }
        }
        r
    }

    /// Adds `x`; says whether it was absent.
    pub fn insert(&mut self, x: u32) -> (added: bool)
        ensures
            final(self)@ == old(self)@.insert(x),
            added == !old(self)@.contains(x),
    {
        proof {
            use_type_invariant(&*self);
        }
        let present = self.contains(x);
        if present {
            assert(old(self)@.insert(x) =~= old(self)@);
            return false;
        }
        let p = self.position(x);
        let mut v = self.ids.clone();
        assert(v@ == self.ids@);
        v.insert(p, x);
        proof {
            let s = self.ids@;
            assert(v@ =~= s.subrange(0, p as int).push(x) + s.subrange(p as int, s.len() as int));
            assert forall|i: int, j: int| 0 <= i < j < v@.len() implies v@[i] < v@[j] by {
                if j < p {
                } else if j == p {
                } else if i < p {
                    assert(v@[j] == s[j - 1]);
                } else if i == p {
                    assert(v@[j] == s[j - 1]);
                    assert(s[j - 1] != x);
                } else {
                    assert(v@[i] == s[i - 1] && v@[j] == s[j - 1]);
                }
            }
            assert forall|y: u32| v@.to_set().contains(y) <==> old(self)@.insert(x).contains(y) by {
                if y == x {
                    assert(v@[p as int] == x);
                } else if s.contains(y) {
                    let k = choose|k: int| 0 <= k < s.len() && s[k] == y;
                    if k < p {
                        assert(v@[k] == y);
                    } else {
                        assert(v@[k + 1] == y);
                    }
                }
                if v@.contains(y) && y != x {
                    let k = choose|k: int| 0 <= k < v@.len() && v@[k] == y;
                    if k < p {
                        assert(s[k] == y);
                    } else {
                        assert(s[k - 1] == y);
                    }
                }
            }
            assert(v@.to_set() =~= old(self)@.insert(x));
        }
        self.ids = v;
        true
    }

    /// Drops `x`; says whether it was present.
    pub fn remove(&mut self, x: u32) -> (removed: bool)
        ensures
            final(self)@ == old(self)@.remove(x),
            removed == old(self)@.contains(x),
    {
        proof {
            use_type_invariant(&*self);
        }
        let p = self.position(x);
        if !(p < self.ids.len() && self.ids[p] == x) {
            proof {
                if self.ids@.contains(x) {
                    let k = choose|k: int| 0 <= k < self.ids@.len() && self.ids@[k] == x;
                    if k >= p && p < self.ids@.len() {
                        assert(self.ids@[p as int] <= self.ids@[k]);
                    }
                }
            }
            assert(old(self)@.remove(x) =~= old(self)@);
            return false;
        }
        let mut v = self.ids.clone();
        assert(v@ == self.ids@);
        v.remove(p);
        proof {
            let s = self.ids@;
            assert forall|i: int, j: int| 0 <= i < j < v@.len() implies v@[i] < v@[j] by {
                if j < p {
                } else if i < p {
                    assert(v@[j] == s[j + 1]);
                } else {
                    assert(v@[i] == s[i + 1] && v@[j] == s[j + 1]);
                }
            }
            assert forall|y: u32| v@.to_set().contains(y) <==> old(self)@.remove(x).contains(y) by {
                if s.contains(y) && y != x {
                    let k = choose|k: int| 0 <= k < s.len() && s[k] == y;
                    if k < p {
                        assert(v@[k] == y);
                    } else {
                        assert(k != p);
                        assert(v@[k - 1] == y);
                    }
                }
                if v@.contains(y) {
                    let k = choose|k: int| 0 <= k < v@.len() && v@[k] == y;
                    if k < p {
                        assert(s[k] == y);
                        assert(s[k] < s[p as int]);
                    } else {
                        assert(s[k + 1] == y);
                        assert(s[p as int] < s[k + 1]);
                    }
                }
            }
            assert(v@.to_set() =~= old(self)@.remove(x));
        }
        self.ids = v;
        true
    }

    /// The number of ids.
    pub fn len(&self) -> (r: usize)
        ensures
            r == self@.len(),
            r == self.spec_ids().len(),
    {
        proof {
            use_type_invariant(self);
            self.ids@.unique_seq_to_set();
        }
        self.ids.len()
    }

    /// The ids in increasing order.
    pub fn ids(&self) -> (r: &Vec<u32>)
        ensures
            r@ == self.spec_ids(),
            strictly_increasing(r@),
            r@.to_set() == self@,
    {
        proof {
            use_type_invariant(self);
        }
        &self.ids
    }

    /// The ids in increasing order, as an owned vector.
    pub fn into_vec(self) -> (r: Vec<u32>)
        ensures
            r@ == self.spec_ids(),
            strictly_increasing(r@),
            r@.to_set() == self@,
    {
        proof {
            use_type_invariant(&self);
        }
        let IdSet { ids } = self;
        ids
    }

    /// Whether both hold the same ids.
    pub fn same_as(&self, other: &IdSet) -> (r: bool)
        ensures
            r == (self@ == other@),
    {
        proof {
            use_type_invariant(self);
            use_type_invariant(other);
        }
        let n = self.ids.len();
        if n != other.ids.len() {
            proof {
                self.ids@.unique_seq_to_set();
                other.ids@.unique_seq_to_set();
            }
            return false;
        }
        let mut i: usize = 0;
        while i < n
            invariant
                n == self.ids@.len(),
                n == other.ids@.len(),
                strictly_increasing(self.ids@),
                strictly_increasing(other.ids@),
                i <= n,
                forall|k: int| 0 <= k < i ==> self.ids@[k] == other.ids@[k],
            decreases n - i,
        {
            if self.ids[i] != other.ids[i] {
                proof {
                    lemma_sorted_sets_differ(self.ids@, other.ids@, i as int);
                }
                return false;
            }
            i = i + 1;
        }
        assert(self.ids@ =~= other.ids@);
        true
    }
}

/// Two increasing sequences that agree before `i` and differ at `i` hold different sets.
proof fn lemma_sorted_sets_differ(a: Seq<u32>, b: Seq<u32>, i: int)
    requires
        strictly_increasing(a),
        strictly_increasing(b),
        a.len() == b.len(),
        0 <= i < a.len(),
        forall|k: int| 0 <= k < i ==> a[k] == b[k],
        a[i] != b[i],
    ensures
        a.to_set() != b.to_set(),
{
    if a[i] < b[i] {
        if b.contains(a[i]) {
            let k = choose|k: int| 0 <= k < b.len() && b[k] == a[i];
            if k < i {
                assert(a[k] == a[i]);
            } else if k > i {
                assert(b[i] < b[k]);
            }
        }
        assert(a.to_set().contains(a[i]) && !b.to_set().contains(a[i]));
    } else {
        if a.contains(b[i]) {
            let k = choose|k: int| 0 <= k < a.len() && a[k] == b[i];
            if k < i {
                assert(b[k] == b[i]);
            } else if k > i {
                assert(a[i] < a[k]);
            }
        }
        assert(b.to_set().contains(b[i]) && !a.to_set().contains(b[i]));
    }
}

/// The ids of the processes and threads that the target matches.
pub struct TargetSnapshot {
    pub tgids: HashSet<u32>,
    pub tids: HashSet<u32>,
}

impl TargetSnapshot {
    pub fn new() -> (r: Self)
        ensures
            r.tgids@ == Set::<u32>::empty(),
            r.tids@ == Set::<u32>::empty(),
    {
        TargetSnapshot { tgids: HashSet::new(), tids: HashSet::new() }
    }
}

/// A matching process and what listing its threads gave.
pub struct ProcessThreads {
    pub tgid: u32,
    pub tids: Result<Vec<u32>, String>,
}

/// The ids of the listed processes.
pub open spec fn process_ids(processes: Seq<ProcessThreads>) -> Set<u32> {
    Set::new(|t: u32| exists|i: int| 0 <= i < processes.len() && #[trigger] processes[i].tgid == t)
}

/// The thread ids of the processes whose threads could be listed.
pub open spec fn listed_thread_ids(processes: Seq<ProcessThreads>) -> Set<u32> {
    Set::new(|t: u32| exists|i: int| 0 <= i < processes.len() && #[trigger] has_thread(processes[i], t))
}

pub open spec fn has_thread(p: ProcessThreads, t: u32) -> bool {
    p.tids matches Ok(v) && v@.contains(t)
}

/// Gathers the processes and the threads of those whose threads could be listed
/// (a process whose threads could not be listed still counts as a target).
pub fn collect_target_snapshot(processes: &Vec<ProcessThreads>) -> (r: TargetSnapshot)
    ensures
        r.tgids@ == process_ids(processes@),
        r.tids@ == listed_thread_ids(processes@),
{
    let mut snapshot = TargetSnapshot::new();
    let n = processes.len();
    let mut i: usize = 0;
    while i < n
        invariant
            n == processes@.len(),
            i <= n,
            snapshot.tgids@ == process_ids(processes@.subrange(0, i as int)),
            snapshot.tids@ == listed_thread_ids(processes@.subrange(0, i as int)),
        decreases n - i,
    {
        let p = &processes[i];
        let ghost before = processes@.subrange(0, i as int);
        let ghost after = processes@.subrange(0, i + 1);
        assert(after =~= before.push(*p));
        snapshot.tgids.insert(p.tgid);
        assert(snapshot.tgids@ =~= process_ids(after)) by {
            assert forall|t: u32| process_ids(after).contains(t) implies snapshot.tgids@.contains(t) by {
                let k = choose|k: int| 0 <= k < after.len() && #[trigger] after[k].tgid == t;
                if k < before.len() {
                    assert(before[k].tgid == t);
                }
            }
            assert forall|t: u32| snapshot.tgids@.contains(t) implies process_ids(after).contains(t) by {
                if t != p.tgid {
                    let k = choose|k: int| 0 <= k < before.len() && #[trigger] before[k].tgid == t;
                    assert(after[k].tgid == t);
                } else {
                    assert(after[i as int].tgid == t);
                }
            }
        }
        match &p.tids {
            Ok(v) => {
                let m = v.len();
                let mut j: usize = 0;
                while j < m
                    invariant
                        m == v@.len(),
                        j <= m,
                        i < n,
                        n == processes@.len(),
                        before == processes@.subrange(0, i as int),
                        after == before.push(*p),
                        *p == processes@[i as int],
                        p.tids == Ok::<Vec<u32>, String>(*v),
                        snapshot.tgids@ == process_ids(after),
                        snapshot.tids@ == listed_thread_ids(before).union(v@.subrange(0, j as int).to_set()),
                    decreases m - j,
                {
                    snapshot.tids.insert(v[j]);
                    proof {
                        assert(v@.subrange(0, j + 1) =~= v@.subrange(0, j as int).push(v@[j as int]));
                        v@.subrange(0, j as int).lemma_push_to_set_commute(v@[j as int]);
                    }
                    assert(snapshot.tids@ =~= listed_thread_ids(before).union(v@.subrange(0, j + 1).to_set()));
                    j = j + 1;
                }
                assert(v@.subrange(0, m as int) =~= v@);
                assert(snapshot.tids@ =~= listed_thread_ids(after)) by {
                    assert forall|t: u32| listed_thread_ids(after).contains(t) implies snapshot.tids@.contains(t) by {
                        let k = choose|k: int| 0 <= k < after.len() && #[trigger] has_thread(after[k], t);
                        if k < before.len() {
                            assert(has_thread(before[k], t));
                        }
                    }
                    assert forall|t: u32| snapshot.tids@.contains(t) implies listed_thread_ids(after).contains(t) by {
                        if listed_thread_ids(before).contains(t) {
                            let k = choose|k: int| 0 <= k < before.len() && #[trigger] has_thread(before[k], t);
                            assert(has_thread(after[k], t));
                        } else {
                            assert(has_thread(after[i as int], t));
                        }
                    }
                }
            },
            Err(_) => {
                assert(snapshot.tids@ =~= listed_thread_ids(after)) by {
                    assert forall|t: u32| listed_thread_ids(after).contains(t) implies snapshot.tids@.contains(t) by {
                        let k = choose|k: int| 0 <= k < after.len() && #[trigger] has_thread(after[k], t);
                        if k < before.len() {
                            assert(has_thread(before[k], t));
                        }
                    }
                    assert forall|t: u32| snapshot.tids@.contains(t) implies listed_thread_ids(after).contains(t) by {
                        let k = choose|k: int| 0 <= k < before.len() && #[trigger] has_thread(before[k], t);
                        assert(has_thread(after[k], t));
                    }
                }
            },
        }
        i = i + 1;
    }
    assert(processes@.subrange(0, n as int) =~= processes@);
    snapshot
}

/// The bytes of a directory entry's name.
pub open spec fn name_bytes(name: String) -> Seq<u8> {
    vstd::utf8::encode_utf8(name@)
}

/// `/proc/<tgid>/task`.
pub open spec fn task_dir(tgid: u32) -> Seq<char> {
    "/proc/"@ + decimal(tgid as nat) + "/task"@
}

pub open spec fn parse_failure_message(tgid: u32, name: Seq<char>, e: ParseIdError) -> Seq<char> {
    "failed to parse tid from "@ + task_dir(tgid) + "/"@ + name + ": "@ + e.spec_message()
}

pub open spec fn no_tids_message(tgid: u32) -> Seq<char> {
    "no tids found under "@ + task_dir(tgid)
}

/// The first `n` names read as decimal ids.
pub open spec fn all_parse(names: Seq<String>, n: int) -> bool {
    forall|k: int| 0 <= k < n ==> #[trigger] parse_u32(name_bytes(names[k])) is Ok
}

/// The ids the names read as.
pub open spec fn parsed_ids(names: Seq<String>) -> Set<u32> {
    Set::new(|t: u32| exists|k: int| 0 <= k < names.len() && #[trigger] parse_u32(name_bytes(names[k])) == Ok::<u32, ParseIdError>(t))
}

/// The `k`-th name is not a decimal id, and `msg` reports it.
pub open spec fn fails_with(names: Seq<String>, k: int, tgid: u32, msg: Seq<char>) -> bool {
    match parse_u32(name_bytes(names[k])) {
        Ok(_) => false,
        Err(pe) => msg == parse_failure_message(tgid, names[k]@, pe),
    }
}

fn task_dir_string(tgid: u32) -> (r: String)
    ensures
        r@ == task_dir(tgid),
{
    let mut s = String::from_str("/proc/");
    append_decimal(&mut s, tgid as u64);
    s.append("/task");
    s
}

/// The thread ids of process `target_tgid`, from the names of the entries of
/// its `/proc/<tgid>/task` directory: in increasing order without repeats; an
/// entry that is not a decimal id, or no entry at all, is an error.
pub fn collect_thread_ids(target_tgid: u32, entry_names: &Vec<String>) -> (r: Result<Vec<u32>, String>)
    ensures
        r is Ok <==> (all_parse(entry_names@, entry_names@.len() as int) && entry_names@.len() > 0),
        r matches Ok(v) ==> strictly_increasing(v@) && v@.to_set() == parsed_ids(entry_names@),
        r is Err && all_parse(entry_names@, entry_names@.len() as int) ==> r->Err_0@ == no_tids_message(target_tgid),
        r is Err && !all_parse(entry_names@, entry_names@.len() as int) ==> exists|k: int|
            0 <= k < entry_names@.len() && all_parse(entry_names@, k) && #[trigger] fails_with(entry_names@, k, target_tgid, r->Err_0@),
{
    let mut tids = IdSet::new();
    let n = entry_names.len();
    let mut i: usize = 0;
    while i < n
        invariant
            n == entry_names@.len(),
            i <= n,
            all_parse(entry_names@, i as int),
            tids@ == parsed_ids(entry_names@.subrange(0, i as int)),
        decreases n - i,
    {
        let name = &entry_names[i];
        match parse_u32_str(name.as_str()) {
            Ok(tid) => {
                tids.insert(tid);
                proof {
                    let before = entry_names@.subrange(0, i as int);
                    let after = entry_names@.subrange(0, i + 1);
                    assert(after =~= before.push(*name));
                    assert forall|t: u32| #[trigger] parsed_ids(after).contains(t) <==> tids@.contains(t) by {
                        if parsed_ids(after).contains(t) && t != tid {
                            let k = choose|k: int| 0 <= k < after.len() && #[trigger] parse_u32(name_bytes(after[k])) == Ok::<u32, ParseIdError>(t);
                            assert(k < before.len());
                            assert(parse_u32(name_bytes(before[k])) == Ok::<u32, ParseIdError>(t));
                        }
                        if tids@.contains(t) {
                            if t == tid {
                                assert(parse_u32(name_bytes(after[i as int])) == Ok::<u32, ParseIdError>(t));
                            } else {
                                let k = choose|k: int| 0 <= k < before.len() && #[trigger] parse_u32(name_bytes(before[k])) == Ok::<u32, ParseIdError>(t);
                                assert(parse_u32(name_bytes(after[k])) == Ok::<u32, ParseIdError>(t));
                            }
                        }
                    }
                    assert(tids@ =~= parsed_ids(after));
                    assert(all_parse(entry_names@, i + 1));
                }
            },
            Err(e) => {
                let mut msg = String::from_str("failed to parse tid from ");
                let dir = task_dir_string(target_tgid);
                msg.append(dir.as_str());
                msg.append("/");
                msg.append(name.as_str());
                msg.append(": ");
                let text = e.message();
                msg.append(text.as_str());
                proof {
                    assert(fails_with(entry_names@, i as int, target_tgid, msg@));
                    assert(!all_parse(entry_names@, n as int));
                }
                let r: Result<Vec<u32>, String> = Err(msg);
                assert(fails_with(entry_names@, i as int, target_tgid, r->Err_0@));
                return r;
            },
        }
        i = i + 1;
    }
    assert(entry_names@.subrange(0, n as int) =~= entry_names@);
    if tids.len() == 0 {
        proof {
            if n > 0 {
                assert(parse_u32(name_bytes(entry_names@[0])) is Ok);
                let t = parse_u32(name_bytes(entry_names@[0]))->Ok_0;
                assert(parsed_ids(entry_names@).contains(t));
            }
        }
        let dir = task_dir_string(target_tgid);
        let msg = String::from_str("no tids found under ").concat(dir.as_str());
        return Err(msg);
    }
    proof {
        if n == 0 {
            assert(parsed_ids(entry_names@) =~= Set::<u32>::empty());
        }
    }
    Ok(tids.into_vec())
}

/// A `/proc` entry: its name, and the command line and command name read for
/// it (none where they could not be read).
pub struct ProcEntry {
    pub name: String,
    pub cmdline: Option<Vec<u8>>,
    pub comm: Option<String>,
}

pub open spec fn opt_bytes(o: Option<Vec<u8>>) -> Option<Seq<u8>> {
    match o {
        Some(v) => Some(v@),
        None => None,
    }
}

pub open spec fn opt_chars(o: Option<String>) -> Option<Seq<char>> {
    match o {
        Some(s) => Some(s@),
        None => None,
    }
}

/// The entry names a process that the target matches.
pub open spec fn entry_matches(target: SchedSwitchTarget, e: ProcEntry, t: u32) -> bool {
    parse_u32(name_bytes(e.name)) == Ok::<u32, ParseIdError>(t)
        && spec_process_matches(target, opt_bytes(e.cmdline), opt_chars(e.comm))
}

/// The processes a target names: for a pid, that pid if `/proc/<pid>` exists;
/// otherwise every `/proc` entry named by a decimal id that the target matches.
pub open spec fn target_process_set(target: SchedSwitchTarget, pid_exists: bool, entries: Seq<ProcEntry>) -> Set<u32> {
    match target {
        SchedSwitchTarget::Pid(pid) => if pid_exists { set![pid] } else { Set::empty() },
        _ => Set::new(|t: u32| exists|k: int| 0 <= k < entries.len() && #[trigger] entry_matches(target, entries[k], t)),
    }
}

/// The ids of the target processes, in increasing order without repeats.
pub fn target_process_ids(target: &SchedSwitchTarget, pid_exists: bool, entries: &Vec<ProcEntry>) -> (r: Vec<u32>)
    ensures
        strictly_increasing(r@),
        r@.to_set() == target_process_set(*target, pid_exists, entries@),
{
    if let SchedSwitchTarget::Pid(pid) = target {
        let mut ids = IdSet::new();
        if pid_exists {
            ids.insert(*pid);
        }
        proof {
            assert(ids@ =~= target_process_set(*target, pid_exists, entries@));
        }
        return ids.into_vec();
    }
    let mut ids = IdSet::new();
    let n = entries.len();
    let mut i: usize = 0;
    while i < n
        invariant
            n == entries@.len(),
            i <= n,
            !(target is Pid),
            forall|t: u32| #[trigger] ids@.contains(t) <==> exists|k: int| 0 <= k < i && #[trigger] entry_matches(*target, entries@[k], t),
        decreases n - i,
    {
        let e = &entries[i];
        if let Ok(tgid) = parse_u32_str(e.name.as_str()) {
            let cmdline: Option<&[u8]> = match &e.cmdline {
                Some(c) => Some(c.as_slice()),
                None => None,
            };
            let comm: Option<&str> = match &e.comm {
                Some(c) => Some(c.as_str()),
                None => None,
            };
            if process_matches(target, cmdline, comm) {
                ids.insert(tgid);
                assert(entry_matches(*target, entries@[i as int], tgid));
            } else {
                assert forall|t: u32| !entry_matches(*target, entries@[i as int], t) by {}
            }
        } else {
            assert forall|t: u32| !entry_matches(*target, entries@[i as int], t) by {}
        }
        proof {
            assert forall|t: u32| #[trigger] ids@.contains(t) <==> exists|k: int| 0 <= k < i + 1 && #[trigger] entry_matches(*target, entries@[k], t) by {
                if exists|k: int| 0 <= k < i + 1 && #[trigger] entry_matches(*target, entries@[k], t) {
                    let k = choose|k: int| 0 <= k < i + 1 && #[trigger] entry_matches(*target, entries@[k], t);
                    if k < i {
                        assert(exists|k: int| 0 <= k < i && #[trigger] entry_matches(*target, entries@[k], t));
                    }
                }
            }
        }
        i = i + 1;
    }
    assert(ids@ =~= target_process_set(*target, pid_exists, entries@));
    ids.into_vec()
}

/// `<description> has <count><kind>, exceeds map capacity <capacity>`.
pub open spec fn capacity_message(description: Seq<char>, count: nat, kind: Seq<char>, capacity: nat) -> Seq<char> {
    description + " has "@ + decimal(count) + kind + decimal(capacity)
}

/// Why a snapshot of `tgids` processes and `tids` threads does not fit the
/// kernel filter maps, if it does not: more than
/// `RISK_TARGET_TGIDS_MAX_ENTRIES` processes, else more than
/// `SCHED_SWITCH_TARGET_TIDS_MAX_ENTRIES` threads (each count taken as a `u32`).
pub open spec fn capacity_error(target: SchedSwitchTarget, tgids: nat, tids: nat) -> Option<Seq<char>> {
    if (tgids as u32) > RISK_TARGET_TGIDS_MAX_ENTRIES {
        Some(capacity_message(target.spec_description(), tgids, " processes, exceeds map capacity "@, RISK_TARGET_TGIDS_MAX_ENTRIES as nat))
    } else if (tids as u32) > SCHED_SWITCH_TARGET_TIDS_MAX_ENTRIES {
        Some(capacity_message(target.spec_description(), tids, " tids, exceeds map capacity "@, SCHED_SWITCH_TARGET_TIDS_MAX_ENTRIES as nat))
    } else {
        None
    }
}

/// Whether the snapshot fits the kernel filter maps, and why not.
pub fn validate_target_capacity(target: &SchedSwitchTarget, snapshot: &TargetSnapshot) -> (r: Result<(), String>)
    ensures
        match r {
            Ok(_) => capacity_error(*target, snapshot.tgids@.len(), snapshot.tids@.len()) is None,
            Err(e) => capacity_error(*target, snapshot.tgids@.len(), snapshot.tids@.len()) == Some(e@),
        },
{
    let tgid_count = snapshot.tgids.len();
    if tgid_count as u32 > RISK_TARGET_TGIDS_MAX_ENTRIES {
        let mut msg = target.description();
        msg.append(" has ");
        append_decimal(&mut msg, tgid_count as u64);
        msg.append(" processes, exceeds map capacity ");
        append_decimal(&mut msg, RISK_TARGET_TGIDS_MAX_ENTRIES as u64);
        return Err(msg);
    }
    let tid_count = snapshot.tids.len();
    if tid_count as u32 > SCHED_SWITCH_TARGET_TIDS_MAX_ENTRIES {
        let mut msg = target.description();
        msg.append(" has ");
        append_decimal(&mut msg, tid_count as u64);
        msg.append(" tids, exceeds map capacity ");
        append_decimal(&mut msg, SCHED_SWITCH_TARGET_TIDS_MAX_ENTRIES as u64);
        return Err(msg);
    }
    Ok(())
}

/// The ids of `from` that `other` lacks, each once.
fn missing_from(from: &HashSet<u32>, other: &HashSet<u32>) -> (r: Vec<u32>)
    ensures
        r@.no_duplicates(),
        r@.to_set() == from@.difference(other@),
{
    let mut out: Vec<u32> = Vec::new();
    for x in it: from.iter()
        invariant
            it.seq().unref().to_set() == from@,
            it.seq().no_duplicates(),
            out@.no_duplicates(),
            forall|y: u32| #[trigger] out@.contains(y)
                <==> (exists|j: int| 0 <= j < it.index() && *it.seq()[j] == y) && !other@.contains(y),
            it.index() == it.seq().len() ==> out@.to_set() == from@.difference(other@),
    {
        let id: u32 = *x;
        let ghost i = it.index();
        assert(it.seq().unref()[i] == id);
        let ghost prev = out@;
        if !other.contains(x) {
            out.push(id);
            proof {
                assert forall|a: int, b: int| 0 <= a < b < out@.len() implies out@[a] != out@[b] by {
                    if b == prev.len() {
                        assert(prev.contains(out@[a]));
                        let j = choose|j: int| 0 <= j < i && *it.seq()[j] == out@[a];
                        assert(it.seq()[j] != it.seq()[i]);
                    }
                }
            }
        }
        proof {
            assert forall|y: u32| #[trigger] out@.contains(y)
                <==> (exists|j: int| 0 <= j < i + 1 && *it.seq()[j] == y) && !other@.contains(y) by {
                if out@.contains(y) {
                    let k = choose|k: int| 0 <= k < out@.len() && out@[k] == y;
                    if k < prev.len() {
                        assert(prev[k] == y);
                        assert(prev.contains(y));
                    } else {
                        assert(*it.seq()[i] == y);
                    }
                }
                if (exists|j: int| 0 <= j < i + 1 && *it.seq()[j] == y) && !other@.contains(y) {
                    let j = choose|j: int| 0 <= j < i + 1 && *it.seq()[j] == y;
                    if j < i {
                        assert(prev.contains(y));
                        let k = choose|k: int| 0 <= k < prev.len() && prev[k] == y;
                        assert(out@[k] == y);
                    } else {
                        assert(out@[out@.len() - 1] == y);
                    }
                }
            }
            assert forall|y: u32| i + 1 == it.seq().len() implies
                (#[trigger] out@.to_set().contains(y) <==> from@.difference(other@).contains(y)) by {
                if from@.contains(y) {
                    assert(it.seq().unref().contains(y));
                    let j = choose|j: int| 0 <= j < it.seq().unref().len() && it.seq().unref()[j] == y;
                    assert(*it.seq()[j] == y);
                }
                if out@.contains(y) {
                    let j = choose|j: int| 0 <= j < i + 1 && *it.seq()[j] == y;
                    assert(it.seq().unref()[j] == y);
                    assert(it.seq().unref().contains(y));
                }
            }
            assert(i + 1 == it.seq().len() ==> out@.to_set() =~= from@.difference(other@));
        }
    }
    out
}

/// Whether every id of `a` is in `b`.
fn is_subset(a: &HashSet<u32>, b: &HashSet<u32>) -> (r: bool)
    ensures
        r == a@.subset_of(b@),
{
    for x in it: a.iter()
        invariant
            it.seq().unref().to_set() == a@,
            forall|j: int| 0 <= j < it.index() ==> b@.contains(*#[trigger] it.seq()[j]),
            it.index() == it.seq().len() ==> a@.subset_of(b@),
    {
        let ghost i = it.index();
        assert(it.seq().unref()[i] == *x);
        if !b.contains(x) {
            assert(it.seq().unref().contains(*x));
            return false;
        }
        proof {
            assert forall|y: u32| i + 1 == it.seq().len() && a@.contains(y) implies b@.contains(y) by {
                assert(it.seq().unref().contains(y));
                let j = choose|j: int| 0 <= j < it.seq().unref().len() && it.seq().unref()[j] == y;
                assert(*it.seq()[j] == y);
            }
        }
    }
    true
}

/// Whether both hold the same ids.
pub fn same_ids(a: &HashSet<u32>, b: &HashSet<u32>) -> (r: bool)
    ensures
        r == (a@ == b@),
{
    let r = is_subset(a, b) && is_subset(b, a);
    proof {
        if r {
            assert(a@ =~= b@);
        }
    }
    r
}

/// How the kernel filter maps move from the ids they hold to the ids of the
/// latest snapshot: the ids to add, then the ids to remove, each once.
pub fn target_sync_plan(known: &HashSet<u32>, current: &HashSet<u32>) -> (r: (Vec<u32>, Vec<u32>))
    ensures
        r.0@.no_duplicates(),
        r.0@.to_set() == current@.difference(known@),
        r.1@.no_duplicates(),
        r.1@.to_set() == known@.difference(current@),
{
    (missing_from(current, known), missing_from(known, current))
}

/// Adding the plan's additions to the known ids and then dropping its removals
/// gives exactly the current ids, so the filter maps end up holding the snapshot.
pub proof fn lemma_sync_plan_reaches_current(known: Set<u32>, current: Set<u32>)
    ensures
        known.union(current.difference(known)).difference(known.difference(current)) == current,
{
    assert(known.union(current.difference(known)).difference(known.difference(current)) =~= current);
}

/// What one refresh of the target filters does with a scan of `/proc`.
pub enum RefreshStep {
    /// The scan failed: the filters are kept as they are.
    ScanFailed,
    /// The snapshot does not fit the filter maps: the filters are kept; the
    /// message says why.
    OverCapacity(String),
    /// The filters move to the snapshot: the ids to add to and remove from each
    /// map, each once, and whether the snapshot differs from what the filters hold.
    Sync {
        changed: bool,
        add_tgids: Vec<u32>,
        remove_tgids: Vec<u32>,
        add_tids: Vec<u32>,
        remove_tids: Vec<u32>,
    },
}

/// Decides one refresh of the target filters, which hold `known_tgids` and
/// `known_tids`, from the latest scan: a failed scan or a snapshot over
/// capacity keeps the filters; otherwise the filters are brought to the snapshot.
pub fn refresh_step(
    target: &SchedSwitchTarget,
    known_tgids: &HashSet<u32>,
    known_tids: &HashSet<u32>,
    scan: &Result<TargetSnapshot, String>,
) -> (r: RefreshStep)
    ensures
        scan is Err ==> r is ScanFailed,
        scan matches Ok(s) ==> match capacity_error(*target, s.tgids@.len(), s.tids@.len()) {
            Some(msg) => r matches RefreshStep::OverCapacity(m) && m@ == msg,
            None => r matches RefreshStep::Sync { changed, add_tgids, remove_tgids, add_tids, remove_tids }
                && changed == (s.tgids@ != known_tgids@ || s.tids@ != known_tids@)
                && add_tgids@.no_duplicates() && add_tgids@.to_set() == s.tgids@.difference(known_tgids@)
                && remove_tgids@.no_duplicates() && remove_tgids@.to_set() == known_tgids@.difference(s.tgids@)
                && add_tids@.no_duplicates() && add_tids@.to_set() == s.tids@.difference(known_tids@)
                && remove_tids@.no_duplicates() && remove_tids@.to_set() == known_tids@.difference(s.tids@),
        },
{
    let s = match scan {
        Ok(s) => s,
        Err(_) => { return RefreshStep::ScanFailed; },
    };
    match validate_target_capacity(target, s) {
        Err(msg) => RefreshStep::OverCapacity(msg),
        Ok(()) => {
            let changed = !same_ids(&s.tgids, known_tgids) || !same_ids(&s.tids, known_tids);
            let (add_tgids, remove_tgids) = target_sync_plan(known_tgids, &s.tgids);
            let (add_tids, remove_tids) = target_sync_plan(known_tids, &s.tids);
            RefreshStep::Sync { changed, add_tgids, remove_tgids, add_tids, remove_tids }
        },
    }
}

/// Records the outcome of one filter-map call on the ids the map holds: an id
/// added (`added`) or removed whose call succeeded (`ok`) is added to or removed
/// from `known`; a failed call leaves it as it was.
pub fn apply_sync_outcome(known: &mut HashSet<u32>, id: u32, added: bool, ok: bool)
    ensures
        final(known)@ == if !ok {
            old(known)@
        } else if added {
            old(known)@.insert(id)
        } else {
            old(known)@.remove(id)
        },
{
    if ok {
        if added {
            known.insert(id);
        } else {
            known.remove(&id);
        }
    }
}

/// The ids held after each call on `ids` succeeded: all added, or all removed.
pub open spec fn apply_all(known: Set<u32>, ids: Seq<u32>, added: bool) -> Set<u32>
    decreases ids.len(),
{
    if ids.len() == 0 {
        known
    } else {
        let before = apply_all(known, ids.drop_last(), added);
        if added { before.insert(ids.last()) } else { before.remove(ids.last()) }
    }
}

proof fn lemma_apply_all(known: Set<u32>, ids: Seq<u32>, added: bool)
    ensures
        apply_all(known, ids, added) == if added { known.union(ids.to_set()) } else { known.difference(ids.to_set()) },
    decreases ids.len(),
{
    if ids.len() == 0 {
        assert(ids.to_set() =~= Set::<u32>::empty());
        assert(known.union(ids.to_set()) =~= known);
        assert(known.difference(ids.to_set()) =~= known);
    } else {
        lemma_apply_all(known, ids.drop_last(), added);
        ids.drop_last().lemma_push_to_set_commute(ids.last());
        assert(ids.drop_last().push(ids.last()) =~= ids);
        if added {
            assert(known.union(ids.drop_last().to_set()).insert(ids.last()) =~= known.union(ids.to_set()));
        } else {
            assert(known.difference(ids.drop_last().to_set()).remove(ids.last()) =~= known.difference(ids.to_set()));
        }
    }
}

/// One refresh that syncs, with every map call succeeding, leaves the filters
/// holding exactly the snapshot: new processes and threads added, exited ones
/// removed. (A refresh that does not sync leaves them unchanged.)
pub proof fn lemma_refresh_reaches_snapshot(known: Set<u32>, current: Set<u32>, adds: Seq<u32>, removes: Seq<u32>)
    requires
        adds.to_set() == current.difference(known),
        removes.to_set() == known.difference(current),
    ensures
        apply_all(apply_all(known, adds, true), removes, false) == current,
{
    lemma_apply_all(known, adds, true);
    lemma_apply_all(known.union(adds.to_set()), removes, false);
    lemma_sync_plan_reaches_current(known, current);
}

} // verus!
