//! Per-process byte counters fed by decoded network events.
//!
//! The counters are integers; turning a window's bytes into a smoothed rate
//! (an exponentially weighted moving average over floating-point rates) is the
//! shell's part.

use vstd::prelude::*;
use crate::etw::NetworkEvent;
use crate::keyed::{map_of, keys_distinct, has_key, lemma_map_of, lemma_map_of_update,
    lemma_map_of_push};
use crate::exe_paths::{lemma_lex_irreflexive, lemma_lex_total, lemma_lex_transitive, lex_less, lex_lt};
use crate::models::{Direction, ProcessStats};
use crate::text::chars_of;

verus! {

/// Per-process running counters.
#[derive(Debug, Clone, Copy)]
pub struct ProcessAccumulator {
    pub pid: u32,
    pub total_upload: u64,
    pub total_download: u64,
    /// Bytes seen in the current sampling window (reset by each drain).
    pub window_bytes_up: u64,
    pub window_bytes_down: u64,
}

pub open spec fn acc_key() -> spec_fn(ProcessAccumulator) -> u32 {
    |a: ProcessAccumulator| a.pid
}

pub open spec fn acc_wf(a: ProcessAccumulator) -> bool {
    a.window_bytes_up <= a.total_upload && a.window_bytes_down <= a.total_download
}

/// A fresh accumulator that has seen nothing.
pub open spec fn empty_acc(pid: u32) -> ProcessAccumulator {
    ProcessAccumulator {
        pid,
        total_upload: 0,
        total_download: 0,
        window_bytes_up: 0,
        window_bytes_down: 0,
    }
}

impl ProcessAccumulator {
    /// Counters of a process that has sent and received nothing yet.
    pub fn new(pid: u32) -> (a: Self)
        ensures
            a == empty_acc(pid),
    {
        ProcessAccumulator { pid, total_upload: 0, total_download: 0, window_bytes_up: 0, window_bytes_down: 0 }
    }
}

/// `a` after counting `size` bytes in `direction`.
pub open spec fn counted(a: ProcessAccumulator, direction: Direction, size: u32) -> ProcessAccumulator {
    match direction {
        Direction::Send => ProcessAccumulator {
            total_upload: (a.total_upload + size) as u64,
            window_bytes_up: (a.window_bytes_up + size) as u64,
            ..a
        },
        Direction::Recv => ProcessAccumulator {
            total_download: (a.total_download + size) as u64,
            window_bytes_down: (a.window_bytes_down + size) as u64,
            ..a
        },
    }
}

/// Rolls up network events into per-process byte counters.
pub struct Aggregator {
    processes: Vec<ProcessAccumulator>,
}

impl Aggregator {
    #[verifier::type_invariant]
    closed spec fn inv(self) -> bool {
        &&& keys_distinct(self.processes@, acc_key())
        &&& forall|i: int| 0 <= i < self.processes@.len() ==> acc_wf(#[trigger] self.processes@[i])
    }

    /// Counters by PID.
    pub closed spec fn counters(&self) -> Map<u32, ProcessAccumulator> {
        map_of(self.processes@, acc_key())
    }

    /// The counters `pid` has, or empty ones.
    pub open spec fn counters_of(&self, pid: u32) -> ProcessAccumulator {
        if self.counters().contains_key(pid) { self.counters()[pid] } else { empty_acc(pid) }
    }

    /// Counting `ev` stays within `u64`.
    pub open spec fn can_ingest(&self, ev: NetworkEvent) -> bool {
        match ev.direction {
            Direction::Send => self.counters_of(ev.pid).total_upload + ev.size <= u64::MAX,
            Direction::Recv => self.counters_of(ev.pid).total_download + ev.size <= u64::MAX,
        }
    }

    pub fn new() -> (a: Self)
        ensures
            a.counters() == Map::<u32, ProcessAccumulator>::empty(),
    {
        Aggregator { processes: Vec::new() }
    }

    fn position(&self, pid: u32) -> (r: Option<usize>)
        ensures
            match r {
                Some(i) => i < self.processes.len() && self.processes@[i as int].pid == pid
                    && self.counters().contains_key(pid) && self.counters()[pid] == self.processes@[i as int],
                None => !self.counters().contains_key(pid) && !has_key(self.processes@, acc_key(), pid),
            },
    {
        proof {
            use_type_invariant(self);
            lemma_map_of(self.processes@, acc_key());
        }
        let mut i: usize = 0;
        while i < self.processes.len()
            invariant
                i <= self.processes.len(),
                forall|j: int| 0 <= j < i ==> self.processes@[j].pid != pid,
            decreases self.processes.len() - i,
        {
            if self.processes[i].pid == pid {
                proof {
                    use_type_invariant(self);
                    lemma_map_of(self.processes@, acc_key());
                    assert(map_of(self.processes@, acc_key())[(acc_key())(self.processes@[i as int])]
                        == self.processes@[i as int]);
                }
                return Some(i);
            }
            i = i + 1;
        }
        proof {
            use_type_invariant(self);
            lemma_map_of(self.processes@, acc_key());
            if has_key(self.processes@, acc_key(), pid) {
                let j = choose|j: int| 0 <= j < self.processes@.len() && (acc_key())(self.processes@[j]) == pid;
            }
        }
        None
    }

    /// Whether counting `ev` stays within `u64` (the precondition of `ingest`).
    pub fn fits(&self, ev: &NetworkEvent) -> (r: bool)
        ensures
            r == self.can_ingest(*ev),
    {
        let acc = match self.position(ev.pid) {
            Some(i) => self.processes[i],
            None => ProcessAccumulator::new(ev.pid),
        };
        match ev.direction {
            Direction::Send => acc.total_upload <= u64::MAX - ev.size as u64,
            Direction::Recv => acc.total_download <= u64::MAX - ev.size as u64,
        }
    }

    /// Ingest a single decoded network event: its bytes count towards the
    /// process's total and current window in its direction.
    pub fn ingest(&mut self, ev: NetworkEvent)
        requires
            old(self).can_ingest(ev),
        ensures
            final(self).counters() == old(self).counters().insert(
                ev.pid,
                counted(old(self).counters_of(ev.pid), ev.direction, ev.size),
            ),
    {
        proof {
            use_type_invariant(&*self);
        }
        let pos = self.position(ev.pid);
        let mut procs = Vec::new();
        std::mem::swap(&mut procs, &mut self.processes);
        let ghost ps = procs@;
        let acc = match pos {
            Some(i) => procs[i],
            None => ProcessAccumulator::new(ev.pid),
        };
        let size = ev.size as u64;
        let next = match ev.direction {
            Direction::Send => ProcessAccumulator {
                total_upload: acc.total_upload + size,
                window_bytes_up: acc.window_bytes_up + size,
                ..acc
            },
            Direction::Recv => ProcessAccumulator {
                total_download: acc.total_download + size,
                window_bytes_down: acc.window_bytes_down + size,
                ..acc
            },
        };
        match pos {
            Some(i) => {
                proof {
                    lemma_map_of_update(ps, acc_key(), i as int, next);
                }
                procs.set(i, next);
            },
            None => {
                proof {
                    lemma_map_of_push(ps, acc_key(), next);
                }
                procs.push(next);
            },
        }
        self.processes = procs;
    }

    /// Close the current sampling window: returns every process's counters as
    /// they stand (in unspecified order, each PID once) and zeroes the window
    /// counters, keeping the totals.
    pub fn drain_windows(&mut self) -> (samples: Vec<ProcessAccumulator>)
        ensures
            keys_distinct(samples@, acc_key()),
            map_of(samples@, acc_key()) == old(self).counters(),
            final(self).counters().dom() == old(self).counters().dom(),
            forall|pid: u32| #[trigger] final(self).counters().contains_key(pid) ==> final(self).counters()[pid]
                == (ProcessAccumulator {
                    window_bytes_up: 0,
                    window_bytes_down: 0,
                    ..old(self).counters()[pid]
                }),
    {
        proof {
            use_type_invariant(&*self);
        }
        let mut procs = Vec::new();
        std::mem::swap(&mut procs, &mut self.processes);
        let ghost ps = procs@;
        let samples = procs.clone();
        let mut i: usize = 0;
        while i < procs.len()
            invariant
                i <= procs.len(),
                procs@.len() == ps.len(),
                forall|j: int| 0 <= j < procs@.len() ==> #[trigger] procs@[j] == if j < i {
                    ProcessAccumulator { window_bytes_up: 0, window_bytes_down: 0, ..ps[j] }
                } else {
                    ps[j]
                },
            decreases procs.len() - i,
        {
            let a = procs[i];
            procs.set(i, ProcessAccumulator { window_bytes_up: 0, window_bytes_down: 0, ..a });
            i = i + 1;
        }
        proof {
            assert(samples@ =~= ps) by {
                assert forall|j: int| 0 <= j < ps.len() implies samples@[j] == ps[j] by {
                    assert(vstd::pervasive::cloned(ps[j], samples@[j]));
                }
            }
            assert(keys_distinct(procs@, acc_key())) by {
                assert forall|a: int, b: int| 0 <= a < procs@.len() && 0 <= b < procs@.len() && a != b
                    implies procs@[a].pid != procs@[b].pid by {
                    assert(procs@[a].pid == ps[a].pid);
                    assert(procs@[b].pid == ps[b].pid);
                }
            }
            lemma_map_of(ps, acc_key());
            lemma_map_of(procs@, acc_key());
            let m1 = map_of(procs@, acc_key());
            let m0 = map_of(ps, acc_key());
            assert forall|k: u32| m1.contains_key(k) <==> m0.contains_key(k) by {
                if has_key(procs@, acc_key(), k) {
                    let j = choose|j: int| 0 <= j < procs@.len() && (acc_key())(procs@[j]) == k;
                    assert((acc_key())(ps[j]) == k);
                }
                if has_key(ps, acc_key(), k) {
                    let j = choose|j: int| 0 <= j < ps.len() && (acc_key())(ps[j]) == k;
                    assert((acc_key())(procs@[j]) == k);
                }
            }
            assert(m1.dom() =~= m0.dom());
            assert forall|pid: u32| #[trigger] m1.contains_key(pid) implies m1[pid]
                == (ProcessAccumulator { window_bytes_up: 0, window_bytes_down: 0, ..m0[pid] }) by {
                let j = choose|j: int| 0 <= j < ps.len() && (acc_key())(ps[j]) == pid;
                assert(m0[(acc_key())(ps[j])] == ps[j]);
                assert((acc_key())(procs@[j]) == pid);
                assert(m1[(acc_key())(procs@[j])] == procs@[j]);
            }
        }
        self.processes = procs;
        samples
    }
}


/// Counting bytes never lowers a running total, and keeps the current
/// window's bytes within the totals.
pub proof fn counting_keeps_windows_within_totals(a: ProcessAccumulator, direction: Direction, size: u32)
    requires
        acc_wf(a),
        a.total_upload + size <= u64::MAX,
        a.total_download + size <= u64::MAX,
    ensures
        acc_wf(counted(a, direction, size)),
        counted(a, direction, size).total_upload >= a.total_upload,
        counted(a, direction, size).total_download >= a.total_download,
{
}


/// Sort dimensions for a process list.
#[derive(Debug, Clone, Copy, PartialEq, Eq, Structural)]
pub enum SortField {
    Upload,
    Download,
    Name,
    Pid,
}

/// Sort direction for a process list.
#[derive(Debug, Clone, Copy, PartialEq, Eq, Structural)]
pub enum SortOrder {
    Asc,
    Desc,
}


pub open spec fn three_way(a: int, b: int) -> int {
    if a < b {
        -1
    } else if a > b {
        1
    } else {
        0
    }
}

/// How `a` compares to `b` on `field`: names in `String` order, the others
/// numerically (rates by their rate keys).
pub open spec fn field_order(a: ProcessStats, b: ProcessStats, field: SortField) -> int {
    match field {
        SortField::Upload => three_way(a.upload_rate as int, b.upload_rate as int),
        SortField::Download => three_way(a.download_rate as int, b.download_rate as int),
        SortField::Name => if lex_lt(a.name@, b.name@) {
            -1
        } else if lex_lt(b.name@, a.name@) {
            1
        } else {
            0
        },
        SortField::Pid => three_way(a.pid as int, b.pid as int),
    }
}

/// The comparison a list sorted by `field` in `order` uses.
pub open spec fn list_order(a: ProcessStats, b: ProcessStats, field: SortField, order: SortOrder) -> int {
    match order {
        SortOrder::Asc => field_order(a, b, field),
        SortOrder::Desc => -field_order(a, b, field),
    }
}

proof fn lemma_list_order(a: ProcessStats, b: ProcessStats, c: ProcessStats, field: SortField, order: SortOrder)
    ensures
        list_order(a, b, field, order) == -list_order(b, a, field, order),
        -1 <= list_order(a, b, field, order) <= 1,
        list_order(a, b, field, order) <= 0 && list_order(b, c, field, order) <= 0 ==> list_order(a, c, field, order) <= 0,
        list_order(a, b, field, order) < 0 && list_order(b, c, field, order) <= 0 ==> list_order(a, c, field, order) < 0,
        list_order(a, b, field, order) <= 0 && list_order(b, c, field, order) < 0 ==> list_order(a, c, field, order) < 0,
{
    if field == SortField::Name {
        lemma_lex_total(a.name@, b.name@);
        lemma_lex_total(b.name@, c.name@);
        lemma_lex_total(a.name@, c.name@);
        if lex_lt(a.name@, b.name@) && lex_lt(b.name@, c.name@) {
            lemma_lex_transitive(a.name@, b.name@, c.name@);
        }
        if lex_lt(c.name@, b.name@) && lex_lt(b.name@, a.name@) {
            lemma_lex_transitive(c.name@, b.name@, a.name@);
        }
        lemma_lex_irreflexive(a.name@);
        lemma_lex_irreflexive(b.name@);
        lemma_lex_irreflexive(c.name@);
    }
}

/// `r` is `s` sorted stably: a rearrangement (element `k` of `r` is element
/// `pi[k]` of `s`, each taken once) in order, with elements that compare
/// equal kept in their input order.
pub open spec fn stable_sorted(r: Seq<ProcessStats>, s: Seq<ProcessStats>, pi: Seq<int>, field: SortField, order: SortOrder) -> bool {
    &&& r.len() == s.len()
    &&& pi.len() == r.len()
    &&& forall|k: int| 0 <= k < r.len() ==> 0 <= #[trigger] pi[k] < s.len() && r[k] == s[pi[k]]
    &&& forall|a: int, b: int| 0 <= a < b < r.len() ==> #[trigger] pi[a] != #[trigger] pi[b]
    &&& forall|a: int, b: int| 0 <= a < b < r.len() ==> list_order(#[trigger] r[a], #[trigger] r[b], field, order) <= 0
    &&& forall|a: int, b: int|
        0 <= a < b < r.len() && list_order(#[trigger] r[a], #[trigger] r[b], field, order) == 0 ==> pi[a] < pi[b]
}

fn compare_stats(a: &ProcessStats, b: &ProcessStats, field: SortField, order: SortOrder) -> (r: i8)
    ensures
        r as int == list_order(*a, *b, field, order),
{
    let c: i8 = match field {
        SortField::Upload => if a.upload_rate < b.upload_rate {
            -1
        } else if a.upload_rate > b.upload_rate {
            1
        } else {
            0
        },
        SortField::Download => if a.download_rate < b.download_rate {
            -1
        } else if a.download_rate > b.download_rate {
            1
        } else {
            0
        },
        SortField::Name => {
            let an = chars_of(a.name.as_str());
            let bn = chars_of(b.name.as_str());
            if lex_less(&an, &bn) {
                -1
            } else if lex_less(&bn, &an) {
                1
            } else {
                0
            }
        },
        SortField::Pid => if a.pid < b.pid {
            -1
        } else if a.pid > b.pid {
            1
        } else {
            0
        },
    };
    match order {
        SortOrder::Asc => c,
        SortOrder::Desc => -c,
    }
}

/// The process list sorted (stably) by `field` in `order`, cut to its first
/// `n` entries.
pub fn top_n(stats: Vec<ProcessStats>, n: usize, field: SortField, order: SortOrder) -> (r: Vec<ProcessStats>)
    ensures
        exists|sorted: Seq<ProcessStats>, pi: Seq<int>|
            #[trigger] stable_sorted(sorted, stats@, pi, field, order) && r@ == sorted.take(
                if n < sorted.len() {
                    n as int
                } else {
                    sorted.len() as int
                },
            ),
{
    let ghost s0 = stats@;
    let mut rest = stats;
    let mut r: Vec<ProcessStats> = Vec::new();
    let ghost mut pi: Seq<int> = Seq::empty();
    while rest.len() > 0
        invariant
            rest@ == s0.take(rest.len() as int),
            rest.len() <= s0.len(),
            r.len() + rest.len() == s0.len(),
            pi.len() == r.len(),
            forall|k: int| 0 <= k < r.len() ==> rest.len() <= #[trigger] pi[k] < s0.len() && r@[k] == s0[pi[k]],
            forall|a: int, b: int| 0 <= a < b < r.len() ==> #[trigger] pi[a] != #[trigger] pi[b],
            forall|a: int, b: int| 0 <= a < b < r.len() ==> list_order(#[trigger] r@[a], #[trigger] r@[b], field, order) <= 0,
            forall|a: int, b: int|
                0 <= a < b < r.len() && list_order(#[trigger] r@[a], #[trigger] r@[b], field, order) == 0 ==> pi[a] < pi[b],
        decreases rest.len(),
    {
        let ghost m = rest.len() - 1;
        let x = rest.pop().unwrap();
        proof {
            assert(rest@ =~= s0.take(m as int));
            assert(x == s0[m as int]);
        }
        let mut k: usize = 0;
        while k < r.len() && compare_stats(&x, &r[k], field, order) > 0
            invariant
                k <= r.len(),
                forall|a: int| 0 <= a < k ==> list_order(x, #[trigger] r@[a], field, order) > 0,
            decreases r.len() - k,
        {
            k = k + 1;
        }
        let ghost old_r = r@;
        let ghost old_pi = pi;
        proof {
            assert forall|b: int| k <= b < old_r.len() implies list_order(x, #[trigger] old_r[b], field, order) <= 0 by {
                lemma_list_order(x, old_r[k as int], old_r[b], field, order);
                if b > k {
                    assert(list_order(old_r[k as int], old_r[b], field, order) <= 0);
                }
            }
        }
        r.insert(k, x);
        proof {
            pi = old_pi.insert(k as int, m as int);
            assert(r@ =~= old_r.insert(k as int, x));
            assert forall|a: int, b: int| 0 <= a < b < r@.len() implies list_order(#[trigger] r@[a], #[trigger] r@[b], field, order) <= 0
                && (list_order(r@[a], r@[b], field, order) == 0 ==> pi[a] < pi[b]) && pi[a] != pi[b] by {
                if a < k && b == k {
                    lemma_list_order(r@[a], x, x, field, order);
                } else if a < k && b > k {
                    assert(r@[b] == old_r[b - 1]);
                    assert(pi[b] == old_pi[b - 1]);
                } else if a == k {
                    assert(r@[b] == old_r[b - 1]);
                    assert(pi[b] == old_pi[b - 1]);
                } else if b < k {
                } else {
                    assert(r@[a] == old_r[a - 1] && r@[b] == old_r[b - 1]);
                    assert(pi[a] == old_pi[a - 1] && pi[b] == old_pi[b - 1]);
                }
            }
            assert forall|j: int| 0 <= j < r@.len() implies rest.len() <= #[trigger] pi[j] < s0.len() && r@[j] == s0[pi[j]] by {
                if j < k {
                } else if j > k {
                    assert(r@[j] == old_r[j - 1]);
                    assert(pi[j] == old_pi[j - 1]);
                }
            }
        }
    }
    let ghost sorted = r@;
    proof {
        assert(stable_sorted(sorted, s0, pi, field, order));
    }
    let limit = if n < r.len() { n } else { r.len() };
    let mut all = r;
    all.truncate(limit);
    proof {
        assert(all@ =~= sorted.take(limit as int));
        assert(stable_sorted(sorted, s0, pi, field, order));
    }
    all
}

} // verus!
