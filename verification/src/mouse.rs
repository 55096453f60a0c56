//! Settings and per-round decisions of the load generator that the probes
//! are exercised with: scheduler churn, file walking and HTTP requests.

use vstd::prelude::*;
use crate::bpf_map::wrapping_add;
use crate::loader::{char_is_whitespace, is_whitespace, lemma_trim_end_prefix, trim_end};
use crate::text::push_char;

verus! {

/// How the scheduler-churn workers run: how many, on which CPU, how often a
/// worker yields or sleeps (every so many rounds), for how long it sleeps
/// (microseconds) and how many spin steps make a round.
#[derive(Debug, Clone, Copy)]
pub struct SchedSwitchConfig {
    pub workers: usize,
    pub pin_cpu: Option<usize>,
    pub yield_every: u64,
    pub sleep_every: u64,
    pub sleep_for_us: u64,
    pub spin_iters: u32,
}

impl SchedSwitchConfig {
    /// The default settings, given the machine's available parallelism (none
    /// where it cannot be told): four workers per CPU, or four.
    pub fn for_parallelism(parallelism: Option<usize>) -> (r: Self)
        requires
            parallelism matches Some(p) ==> p * 4 <= usize::MAX,
        ensures
            r.workers == match parallelism {
                Some(p) => (p * 4) as usize,
                None => 4,
            },
            r.pin_cpu is None,
            r.yield_every == 1,
            r.sleep_every == 64,
            r.sleep_for_us == 50,
            r.spin_iters == 20_000,
    {
        let workers = match parallelism {
            Some(p) => p * 4,
            None => 4,
        };
        SchedSwitchConfig {
            workers,
            pin_cpu: None,
            yield_every: 1,
            sleep_every: 64,
            sleep_for_us: 50,
            spin_iters: 20_000,
        }
    }
}

/// The settings of a `sched-switch` run: a worker count where one was given,
/// and the CPU to pin the workers to.
pub fn sched_switch(defaults: SchedSwitchConfig, workers: Option<usize>, pin_cpu: Option<usize>) -> (r: SchedSwitchConfig)
    ensures
        r.workers == match workers {
            Some(w) => w,
            None => defaults.workers,
        },
        r.pin_cpu == pin_cpu,
        r.yield_every == defaults.yield_every,
        r.sleep_every == defaults.sleep_every,
        r.sleep_for_us == defaults.sleep_for_us,
        r.spin_iters == defaults.spin_iters,
{
    let mut config = defaults;
    if let Some(w) = workers {
        config.workers = w;
    }
    config.pin_cpu = pin_cpu;
    config
}

/// The number of churn workers started: at least two.
pub fn simulator_worker_count(config: &SchedSwitchConfig) -> (r: usize)
    ensures
        r == if config.workers < 2 { 2 } else { config.workers },
{
    if config.workers < 2 { 2 } else { config.workers }
}

/// One step of a worker's linear congruential spin state.
pub open spec fn spin_step(state: u64, step: u32) -> u64 {
    wrapping_add(wrapping_add(((state as int * 1_664_525) % 0x1_0000_0000_0000_0000) as u64, 1_013_904_223), step as u64)
}

/// The state after steps `0..n` of a round.
pub open spec fn spin_steps(state: u64, n: nat) -> u64
    decreases n,
{
    if n == 0 { state } else { spin_step(spin_steps(state, (n - 1) as nat), (n - 1) as u32) }
}

/// What a worker does after a round.
#[derive(Debug, Clone, Copy, PartialEq, Eq, Structural)]
pub struct RoundAction {
    pub yield_now: bool,
    pub sleep: bool,
}

/// A churn worker: its spin state and how many rounds it has run (wrapping).
pub struct SimulatorWorker {
    pub state: u64,
    pub rounds: u64,
}

impl SimulatorWorker {
    /// Worker `worker_id` starts from state `worker_id + 1` and no rounds.
    pub fn new(worker_id: u64) -> (r: Self)
        requires
            worker_id < u64::MAX,
        ensures
            r.state == worker_id + 1,
            r.rounds == 0,
    {
        SimulatorWorker { state: worker_id + 1, rounds: 0 }
    }

    /// Runs one round: `spin_iters` spin steps, one more round counted, then
    /// a yield every `yield_every` rounds and a sleep every `sleep_every`
    /// rounds (never where it is zero).
    pub fn run_round(&mut self, config: &SchedSwitchConfig) -> (r: RoundAction)
        requires
            config.yield_every != 0,
        ensures
            final(self).state == spin_steps(old(self).state, config.spin_iters as nat),
            final(self).rounds == wrapping_add(old(self).rounds, 1),
            r.yield_now == (final(self).rounds % config.yield_every == 0),
            r.sleep == (config.sleep_every != 0 && final(self).rounds % config.sleep_every == 0),
    {
        let mut state = self.state;
        let mut step: u32 = 0;
        while step < config.spin_iters
            invariant
                step <= config.spin_iters,
                state == spin_steps(self.state, step as nat),
            decreases config.spin_iters - step,
        {
            state = spin_once(state, step);
            step = step + 1;
        }
        self.state = state;
        self.rounds = crate::bpf_map::add_wrapping(self.rounds, 1);
        let yield_now = self.rounds % config.yield_every == 0;
        let sleep = config.sleep_every != 0 && self.rounds % config.sleep_every == 0;
        RoundAction { yield_now, sleep }
    }
}

fn spin_once(state: u64, step: u32) -> (r: u64)
    ensures
        r == spin_step(state, step),
{
    let m = state.wrapping_mul(1_664_525);
    proof {
        assert(m == ((state as int * 1_664_525) % 0x1_0000_0000_0000_0000) as u64);
    }
    let a = crate::bpf_map::add_wrapping(m, 1_013_904_223);
    crate::bpf_map::add_wrapping(a, step as u64)
}

/// The directory whose files the file-walking load visits.
pub fn io_file() -> (r: &'static str)
    ensures
        r@ == "/media/data/code/github/linux"@,
{
    "/media/data/code/github/linux"
}

/// How the HTTP load runs: the URLs requested in turn, the number of
/// workers, the pause after each pass and the request timeout (milliseconds).
#[derive(Debug, Clone)]
pub struct RequestConfig {
    pub urls: Vec<String>,
    pub workers: usize,
    pub interval_ms: u64,
    pub timeout_ms: u64,
}

impl Default for RequestConfig {
    fn default() -> (r: Self)
        ensures
            r.urls@.len() == 2,
            r.urls@[0]@ == "https://www.baidu.com/"@,
            r.urls@[1]@ == "https://www.json.cn/"@,
            r.workers == 1,
            r.interval_ms == 1000,
            r.timeout_ms == 5000,
    {
        let mut urls: Vec<String> = Vec::new();
        urls.push(String::from_str("https://www.baidu.com/"));
        urls.push(String::from_str("https://www.json.cn/"));
        RequestConfig { urls, workers: 1, interval_ms: 1000, timeout_ms: 5000 }
    }
}

/// The number of request workers started: at least one.
pub fn request_worker_count(config: &RequestConfig) -> (r: usize)
    ensures
        r == if config.workers < 1 { 1 } else { config.workers },
{
    if config.workers < 1 { 1 } else { config.workers }
}

/// The string without its leading whitespace (std `str::trim_start`).
pub open spec fn trim_start(s: Seq<char>) -> Seq<char>
    decreases s.len(),
{
    if s.len() > 0 && is_whitespace(s[0]) { trim_start(s.drop_first()) } else { s }
}

/// The string without leading and trailing whitespace (std `str::trim`).
pub open spec fn trim(s: Seq<char>) -> Seq<char> {
    trim_start(trim_end(s))
}

/// Leading whitespace before `m` does not change what trimming the start gives.
pub proof fn lemma_trim_start_suffix(s: Seq<char>, m: int)
    requires
        0 <= m <= s.len(),
        forall|k: int| 0 <= k < m ==> is_whitespace(#[trigger] s[k]),
    ensures
        trim_start(s) == trim_start(s.subrange(m, s.len() as int)),
    decreases m,
{
    if m > 0 {
        assert(s.drop_first().subrange(m - 1, s.drop_first().len() as int) =~= s.subrange(m, s.len() as int));
        assert forall|k: int| 0 <= k < m - 1 implies is_whitespace(#[trigger] s.drop_first()[k]) by {
            assert(s.drop_first()[k] == s[k + 1]);
        }
        lemma_trim_start_suffix(s.drop_first(), m - 1);
    } else {
        assert(s.subrange(0, s.len() as int) =~= s);
    }
}

/// `s` trimmed at both ends.
pub fn trim_str(s: &str) -> (r: String)
    ensures
        r@ == trim(s@),
{
    let mut n: usize = s.unicode_len();
    while n > 0 && char_is_whitespace(s.get_char(n - 1))
        invariant
            n <= s@.len(),
            forall|k: int| n <= k < s@.len() ==> is_whitespace(#[trigger] s@[k]),
        decreases n,
    {
        n = n - 1;
    }
    let ghost t = s@.subrange(0, n as int);
    proof {
        lemma_trim_end_prefix(s@, n as int);
        if n > 0 {
            assert(t.last() == s@[n - 1]);
        }
        assert(trim_end(t) == t);
    }
    let mut m: usize = 0;
    while m < n && char_is_whitespace(s.get_char(m))
        invariant
            m <= n,
            n <= s@.len(),
            t == s@.subrange(0, n as int),
            forall|k: int| 0 <= k < m ==> is_whitespace(#[trigger] t[k]),
        decreases n - m,
    {
        m = m + 1;
    }
    proof {
        lemma_trim_start_suffix(t, m as int);
        let u = t.subrange(m as int, t.len() as int);
        if m < n {
            assert(u[0] == s@[m as int]);
        }
        assert(trim_start(u) == u);
        assert(u =~= s@.subrange(m as int, n as int));
    }
    String::from_str(s.substring_char(m, n))
}

/// The parts of a string between commas, in order (std `str::split(',')`):
/// one more part than there are commas.
pub open spec fn split_commas(s: Seq<char>) -> Seq<Seq<char>>
    decreases s.len(),
{
    if s.len() == 0 {
        seq![Seq::<char>::empty()]
    } else {
        let init = split_commas(s.drop_last());
        if s.last() == ',' {
            init.push(Seq::<char>::empty())
        } else {
            init.update(init.len() - 1, init.last().push(s.last()))
        }
    }
}

proof fn lemma_split_commas_nonempty(s: Seq<char>)
    ensures
        split_commas(s).len() >= 1,
    decreases s.len(),
{
    if s.len() > 0 {
        lemma_split_commas_nonempty(s.drop_last());
    }
}

/// The trimmed parts that are not empty, in order.
pub open spec fn kept_parts(parts: Seq<Seq<char>>) -> Seq<Seq<char>>
    decreases parts.len(),
{
    if parts.len() == 0 {
        Seq::empty()
    } else {
        let init = kept_parts(parts.drop_last());
        if trim(parts.last()).len() > 0 { init.push(trim(parts.last())) } else { init }
    }
}

/// The URLs of a comma-separated list: each entry trimmed, empty entries dropped.
pub fn parse_url_list(list: &str) -> (r: Vec<String>)
    ensures
        r@.len() == kept_parts(split_commas(list@)).len(),
        forall|i: int| 0 <= i < r@.len() ==> #[trigger] r@[i]@ == kept_parts(split_commas(list@))[i],
{
    let n = list.unicode_len();
    let mut out: Vec<String> = Vec::new();
    let mut part = String::new();
    let mut i: usize = 0;
    let ghost mut done: Seq<Seq<char>> = Seq::empty();
    while i < n
        invariant
            n == list@.len(),
            i <= n,
            done.push(part@) == split_commas(list@.subrange(0, i as int)),
            out@.len() == kept_parts(done).len(),
            forall|k: int| 0 <= k < out@.len() ==> #[trigger] out@[k]@ == kept_parts(done)[k],
        decreases n - i,
    {
        let c = list.get_char(i);
        proof {
            let pre = list@.subrange(0, i + 1);
            assert(pre.drop_last() =~= list@.subrange(0, i as int));
            assert(pre.last() == c);
            lemma_split_commas_nonempty(list@.subrange(0, i as int));
        }
        if c == ',' {
            let kept = trim_str(part.as_str());
            proof {
                assert(done.push(part@).drop_last() =~= done);
            }
            if kept.as_str().unicode_len() > 0 {
                out.push(kept);
            }
            proof {
                let d2 = done.push(part@);
                assert(d2.drop_last() =~= done);
                done = d2;
            }
            part = String::new();
        } else {
            let ghost before = part@;
            push_char(&mut part, c);
            proof {
                assert(done.push(part@) =~= done.push(before).update(done.len() as int, before.push(c)));
            }
        }
        i = i + 1;
    }
    let kept = trim_str(part.as_str());
    proof {
        assert(list@.subrange(0, n as int) =~= list@);
        let d2 = done.push(part@);
        assert(d2.drop_last() =~= done);
    }
    if kept.as_str().unicode_len() > 0 {
        out.push(kept);
    }
    out
}

} // verus!
