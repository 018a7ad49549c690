//! Hot-spot detection: counts function calls and loop back edges; a count reaching
//! the threshold asks, once per key, for compilation.
use std::collections::{HashMap, HashSet};
use vstd::prelude::*;
use vstd::string::StringExecFns;
use crate::jit::JitConfig;
use crate::numtext::{decimal, push_decimal};

verus! {

broadcast use vstd::std_specs::hash::group_hash_axioms;

/// One counted execution: the counter goes up by one; the key fires when the new
/// count reaches the threshold and it has not fired before. Returns the new count,
/// whether the key has now fired at some point, and whether it fires now.
pub open spec fn hot_step(count: int, triggered: bool, threshold: int) -> (int, bool, bool) {
    let c = count + 1;
    (c, triggered || c >= threshold, c >= threshold && !triggered)
}

/// The count of `k` in `m` (0 when absent).
pub open spec fn count_of<K>(m: Map<K, u64>, k: K) -> int {
    if m.contains_key(k) {
        m[k] as int
    } else {
        0
    }
}

/// Whether the counter of `k` can still go up.
pub open spec fn can_count<K>(m: Map<K, u64>, k: K) -> bool {
    count_of(m, k) < u64::MAX
}

/// The key of the loop whose back edge jumps to `ip` in function `func_idx`
/// (`usize::MAX` is the main program): the function's low 32 bits above the target.
pub open spec fn loop_key(func_idx: usize, ip: usize) -> u64 {
    let func_part: u64 = if func_idx == usize::MAX {
        0xFFFF_FFFFu64
    } else {
        (func_idx as u64) & 0xFFFF_FFFFu64
    };
    (func_part << 32u64) | (ip as u64)
}

/// State after `n` counted executions of one key, starting from nothing: (count,
/// whether it has fired).
pub open spec fn after_steps(n: nat, threshold: int) -> (int, bool)
    decreases n,
{
    if n == 0 {
        (0, false)
    } else {
        let (c, t) = after_steps((n - 1) as nat, threshold);
        let s = hot_step(c, t, threshold);
        (s.0, s.1)
    }
}

/// Whether the `n`-th execution (from 1) of a key fires.
pub open spec fn fires_at(n: nat, threshold: int) -> bool {
    n >= 1 && {
        let (c, t) = after_steps((n - 1) as nat, threshold);
        hot_step(c, t, threshold).2
    }
}

/// A key fires exactly once: on its `threshold`-th execution (on the first when the
/// threshold is 0).
pub proof fn lemma_fires_exactly_once(n: nat, threshold: int)
    requires
        threshold >= 0,
    ensures
        fires_at(n, threshold) <==> n == (if threshold >= 1 { threshold } else { 1 }),
{
    lemma_after_steps(n, threshold);
    if n >= 1 {
        lemma_after_steps((n - 1) as nat, threshold);
    }
}

proof fn lemma_after_steps(n: nat, threshold: int)
    ensures
        after_steps(n, threshold).0 == n,
        after_steps(n, threshold).1 <==> (n >= 1 && n >= threshold),
    decreases n,
{
    if n > 0 {
        lemma_after_steps((n - 1) as nat, threshold);
    }
}

/// Counts executions per function and per loop. Functions and loops fire
/// independently: each has its own set of fired keys.
pub struct HotSpotDetector {
    config: JitConfig,
    /// Calls per function index.
    func_counts: HashMap<usize, u64>,
    /// Back edges per loop key (and custom keys).
    loop_counts: HashMap<u64, u64>,
    /// Functions that have fired (kept across resets, so nothing is compiled twice).
    func_triggered: HashSet<usize>,
    /// Loop (and custom) keys that have fired, kept apart from the functions.
    loop_triggered: HashSet<u64>,
}

/// A summary of the detector.
#[derive(Debug, Clone)]
pub struct HotSpotStats {
    pub total_funcs_tracked: usize,
    pub total_loops_tracked: usize,
    pub jit_compiled: usize,
    pub hot_threshold: u64,
}

/// The summary line of `s`.
pub open spec fn stats_text(s: HotSpotStats) -> Seq<char> {
    "[JIT Stats] 函数追踪: "@ + decimal(s.total_funcs_tracked as nat) + ", 循环追踪: "@ + decimal(
        s.total_loops_tracked as nat,
    ) + ", JIT已编译: "@ + decimal(s.jit_compiled as nat) + ", 阈值: "@ + decimal(s.hot_threshold as nat)
}

impl HotSpotStats {
    /// The summary line, e.g. `[JIT Stats] 函数追踪: 1, 循环追踪: 0, JIT已编译: 1, 阈值: 3`.
    pub fn to_string(&self) -> (s: String)
        ensures
            s@ == stats_text(*self),
    {
        let mut s = String::from_str("[JIT Stats] 函数追踪: ");
        push_decimal(&mut s, self.total_funcs_tracked as u64);
        s.append(", 循环追踪: ");
        push_decimal(&mut s, self.total_loops_tracked as u64);
        s.append(", JIT已编译: ");
        push_decimal(&mut s, self.jit_compiled as u64);
        s.append(", 阈值: ");
        push_decimal(&mut s, self.hot_threshold);
        s
    }
}

impl HotSpotDetector {
    /// The configuration.
    pub closed spec fn config(&self) -> JitConfig {
        self.config
    }

    /// Calls counted per function index.
    pub closed spec fn func_map(&self) -> Map<usize, u64> {
        self.func_counts@
    }

    /// Executions counted per loop (or custom) key.
    pub closed spec fn loop_map(&self) -> Map<u64, u64> {
        self.loop_counts@
    }

    /// Functions that have fired.
    pub closed spec fn func_fired(&self) -> Set<usize> {
        self.func_triggered@
    }

    /// Loop (and custom) keys that have fired.
    pub closed spec fn loop_fired(&self) -> Set<u64> {
        self.loop_triggered@
    }

    /// A detector with nothing counted.
    pub fn new(config: JitConfig) -> (d: Self)
        ensures
            d.config() == config,
            d.func_map() == Map::<usize, u64>::empty(),
            d.loop_map() == Map::<u64, u64>::empty(),
            d.func_fired() == Set::<usize>::empty(),
            d.loop_fired() == Set::<u64>::empty(),
    {
        HotSpotDetector {
            config,
            func_counts: HashMap::new(),
            loop_counts: HashMap::new(),
            func_triggered: HashSet::new(),
            loop_triggered: HashSet::new(),
        }
    }

    /// Whether the JIT is on.
    pub fn enabled(&self) -> (b: bool)
        ensures
            b == self.config().enable_jit,
    {
        self.config.enable_jit
    }

    /// Counts a call of function `func_idx`; true when it just became hot.
    pub fn record_function_call(&mut self, func_idx: usize) -> (fired: bool)
        requires
            old(self).config().enable_jit ==> can_count(old(self).func_map(), func_idx),
        ensures
            final(self).config() == old(self).config(),
            final(self).loop_map() == old(self).loop_map(),
            final(self).loop_fired() == old(self).loop_fired(),
            !old(self).config().enable_jit ==> {
                &&& !fired
                &&& final(self).func_map() == old(self).func_map()
                &&& final(self).func_fired() == old(self).func_fired()
            },
            old(self).config().enable_jit ==> {
                let s = hot_step(
                    count_of(old(self).func_map(), func_idx),
                    old(self).func_fired().contains(func_idx),
                    old(self).config().hot_threshold as int,
                );
                &&& fired == s.2
                &&& final(self).func_map() == old(self).func_map().insert(func_idx, s.0 as u64)
                &&& final(self).func_fired() == if s.1 {
                    old(self).func_fired().insert(func_idx)
                } else {
                    old(self).func_fired()
                }
            },
    {
        if !self.config.enable_jit {
            return false;
        }
        let count: u64 = match self.func_counts.get(&func_idx) {
            Some(c) => *c + 1,
            None => 1,
        };
        self.func_counts.insert(func_idx, count);
        if count >= self.config.hot_threshold {
            if !self.func_triggered.insert(func_idx) {
                return false;
            }
            return true;
        }
        false
    }

    fn record_key(&mut self, key: u64) -> (fired: bool)
        requires
            old(self).config().enable_jit,
            can_count(old(self).loop_map(), key),
        ensures
            final(self).config() == old(self).config(),
            final(self).func_map() == old(self).func_map(),
            final(self).func_fired() == old(self).func_fired(),
            ({
                let s = hot_step(
                    count_of(old(self).loop_map(), key),
                    old(self).loop_fired().contains(key),
                    old(self).config().hot_threshold as int,
                );
                &&& fired == s.2
                &&& final(self).loop_map() == old(self).loop_map().insert(key, s.0 as u64)
                &&& final(self).loop_fired() == if s.1 {
                    old(self).loop_fired().insert(key)
                } else {
                    old(self).loop_fired()
                }
            }),
    {
        let count: u64 = match self.loop_counts.get(&key) {
            Some(c) => *c + 1,
            None => 1,
        };
        self.loop_counts.insert(key, count);
        if count >= self.config.hot_threshold {
            if !self.loop_triggered.insert(key) {
                return false;
            }
            return true;
        }
        false
    }

    /// Counts a jump from `jmp_ip` to `target_ip` in function `func_idx`
    /// (`usize::MAX` is the main program); only a backward jump is a loop back edge.
    /// True when the loop just became hot.
    pub fn record_loop_backedge(&mut self, func_idx: usize, jmp_ip: usize, target_ip: usize) -> (fired: bool)
        requires
            old(self).config().enable_jit && target_ip < jmp_ip ==> can_count(
                old(self).loop_map(),
                loop_key(func_idx, target_ip),
            ),
        ensures
            final(self).config() == old(self).config(),
            final(self).func_map() == old(self).func_map(),
            final(self).func_fired() == old(self).func_fired(),
            !(old(self).config().enable_jit && target_ip < jmp_ip) ==> {
                &&& !fired
                &&& final(self).loop_map() == old(self).loop_map()
                &&& final(self).loop_fired() == old(self).loop_fired()
            },
            old(self).config().enable_jit && target_ip < jmp_ip ==> {
                let key = loop_key(func_idx, target_ip);
                let s = hot_step(
                    count_of(old(self).loop_map(), key),
                    old(self).loop_fired().contains(key),
                    old(self).config().hot_threshold as int,
                );
                &&& fired == s.2
                &&& final(self).loop_map() == old(self).loop_map().insert(key, s.0 as u64)
                &&& final(self).loop_fired() == if s.1 {
                    old(self).loop_fired().insert(key)
                } else {
                    old(self).loop_fired()
                }
            },
    {
        if !self.config.enable_jit {
            return false;
        }
        if target_ip >= jmp_ip {
            return false;
        }
        let key = Self::key_of(func_idx, target_ip);
        self.record_key(key)
    }

    fn key_of(func_idx: usize, ip: usize) -> (key: u64)
        ensures
            key == loop_key(func_idx, ip),
    {
        let func_part: u64 = if func_idx == usize::MAX {
            0xFFFF_FFFFu64
        } else {
            (func_idx as u64) & 0xFFFF_FFFF
        };
        (func_part << 32) | (ip as u64)
    }

    /// Counts an execution of a caller-chosen key (shared with the loop keys, not with
    /// the functions); true
    /// when it just became hot.
    pub fn record_custom(&mut self, key: u64) -> (fired: bool)
        requires
            old(self).config().enable_jit ==> can_count(old(self).loop_map(), key),
        ensures
            final(self).config() == old(self).config(),
            final(self).func_map() == old(self).func_map(),
            final(self).func_fired() == old(self).func_fired(),
            !old(self).config().enable_jit ==> {
                &&& !fired
                &&& final(self).loop_map() == old(self).loop_map()
                &&& final(self).loop_fired() == old(self).loop_fired()
            },
            old(self).config().enable_jit ==> {
                let s = hot_step(
                    count_of(old(self).loop_map(), key),
                    old(self).loop_fired().contains(key),
                    old(self).config().hot_threshold as int,
                );
                &&& fired == s.2
                &&& final(self).loop_map() == old(self).loop_map().insert(key, s.0 as u64)
                &&& final(self).loop_fired() == if s.1 {
                    old(self).loop_fired().insert(key)
                } else {
                    old(self).loop_fired()
                }
            },
    {
        if !self.config.enable_jit {
            return false;
        }
        self.record_key(key)
    }

    /// Calls counted for function `func_idx`.
    pub fn get_func_count(&self, func_idx: usize) -> (n: u64)
        ensures
            n == count_of(self.func_map(), func_idx),
    {
        match self.func_counts.get(&func_idx) {
            Some(c) => *c,
            None => 0,
        }
    }

    /// Back edges counted for the loop at `ip` of function `func_idx`.
    pub fn get_loop_count(&self, func_idx: usize, ip: usize) -> (n: u64)
        ensures
            n == count_of(self.loop_map(), loop_key(func_idx, ip)),
    {
        let key = Self::key_of(func_idx, ip);
        match self.loop_counts.get(&key) {
            Some(c) => *c,
            None => 0,
        }
    }

    /// Clears the counters; the keys that fired stay, so nothing is compiled twice.
    pub fn reset(&mut self)
        ensures
            final(self).config() == old(self).config(),
            final(self).func_map() == Map::<usize, u64>::empty(),
            final(self).loop_map() == Map::<u64, u64>::empty(),
            final(self).func_fired() == old(self).func_fired(),
            final(self).loop_fired() == old(self).loop_fired(),
    {
        self.func_counts.clear();
        self.loop_counts.clear();
    }

    /// Numbers of functions and loops counted, keys fired, and the threshold.
    pub fn stats(&self) -> (s: HotSpotStats)
        ensures
            s.total_funcs_tracked == self.func_map().len(),
            s.total_loops_tracked == self.loop_map().len(),
            s.jit_compiled == if self.func_fired().len() + self.loop_fired().len() <= usize::MAX {
                (self.func_fired().len() + self.loop_fired().len()) as usize
            } else {
                usize::MAX
            },
            s.hot_threshold == self.config().hot_threshold,
    {
        HotSpotStats {
            total_funcs_tracked: self.func_counts.len(),
            total_loops_tracked: self.loop_counts.len(),
            jit_compiled: self.func_triggered.len().saturating_add(self.loop_triggered.len()),
            hot_threshold: self.config.hot_threshold,
        }
    }
}

} // verus!
