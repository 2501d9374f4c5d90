//! Throttle table: runtime token buckets plus the authoritative policy set.

use vstd::prelude::*;
use crate::keyed::{map_of, keys_distinct, has_key, lemma_map_of, lemma_map_of_update,
    lemma_map_of_push, lemma_map_of_remove, lemma_map_of_len};
use crate::models::{Direction, Policy};
use crate::rate_limiter::{TokenBucket, BucketState, capacity_for, refilled, refill_time, rescaled,
    UNITS_PER_BYTE};
use crate::text::{lowercase, lower_chars, same_program, same_program_chars};

verus! {

pub open spec fn policy_key() -> spec_fn(Policy) -> Seq<char> {
    |p: Policy| p.id@
}

pub open spec fn hint_key() -> spec_fn((String, u32)) -> Seq<char> {
    |e: (String, u32)| e.0@
}

pub open spec fn bucket_key() -> spec_fn((u32, TokenBucket)) -> u32 {
    |e: (u32, TokenBucket)| e.0
}

/// An active policy naming the same program as `name` (case-insensitively,
/// ignoring a `.exe` difference).
pub open spec fn policy_names(p: Policy, name: Seq<char>) -> bool {
    p.active && same_program(lowercase(p.process_name@), lowercase(name))
}

/// Whether a policy actually limits traffic.
pub open spec fn policy_limits(p: Policy) -> bool {
    p.active && p.rate_limit_bps > 0
}

/// The state of a freshly created bucket for `rate_bps`.
pub open spec fn fresh_bucket(rate_bps: u64) -> BucketState {
    BucketState {
        rate: rate_bps as nat,
        capacity: capacity_for(rate_bps as nat),
        tokens: capacity_for(rate_bps as nat),
        last: 0,
    }
}

/// A bucket after a rate change to `rate_bps` at clock reading `now`.
pub open spec fn rerated(b: BucketState, rate_bps: u64, now: nat) -> BucketState {
    BucketState {
        rate: rate_bps as nat,
        capacity: capacity_for(rate_bps as nat),
        tokens: rescaled(refilled(b, now), b.rate, rate_bps as nat),
        last: refill_time(b, now),
    }
}

/// `b1` is `b0` after a rate change to `rate_bps` at some clock reading.
pub open spec fn is_rerated(b1: BucketState, b0: BucketState, rate_bps: u64) -> bool {
    exists|now: nat| b1 == #[trigger] rerated(b0, rate_bps, now)
}

/// A bucket after an attempt to take `n` bytes at clock reading `now`, and
/// whether the attempt was admitted.
pub open spec fn consumed(b: BucketState, n: nat, now: nat) -> (BucketState, bool) {
    let t = refilled(b, now);
    let ok = t >= n * UNITS_PER_BYTE;
    (
        BucketState {
            rate: b.rate,
            capacity: b.capacity,
            tokens: if ok { (t - n * UNITS_PER_BYTE) as nat } else { t },
            last: refill_time(b, now),
        },
        ok,
    )
}

/// The bucket of `pid`, or a fresh one at `rate_bps` when it has none.
pub open spec fn bucket_or_fresh(m: Map<u32, BucketState>, pid: u32, rate_bps: u64) -> BucketState {
    if m.contains_key(pid) { m[pid] } else { fresh_bucket(rate_bps) }
}

/// Runtime mapping of PID -> token bucket plus the authoritative policy set.
///
/// Buckets are keyed by PID. Policy lookup by PID is indirect: a
/// `process_name -> PID` hint table is filled both when a policy is bound to a
/// PID and when the capture engine observes a live process (`note_process`).
pub struct ThrottleTable {
    buckets: Vec<(u32, TokenBucket)>,
    policies: Vec<Policy>,
    name_pid: Vec<(String, u32)>,
}

impl ThrottleTable {
    #[verifier::type_invariant]
    closed spec fn inv(self) -> bool {
        &&& keys_distinct(self.buckets@, bucket_key())
        &&& keys_distinct(self.policies@, policy_key())
        &&& keys_distinct(self.name_pid@, hint_key())
    }

    /// Policies by id.
    pub closed spec fn policies(&self) -> Map<Seq<char>, Policy> {
        map_of(self.policies@, policy_key())
    }

    /// The process-name -> PID hints.
    pub closed spec fn name_pids(&self) -> Map<Seq<char>, u32> {
        map_of(self.name_pid@, hint_key()).map_values(|e: (String, u32)| e.1)
    }

    /// Bucket states by PID.
    pub closed spec fn buckets(&self) -> Map<u32, BucketState> {
        map_of(self.buckets@, bucket_key()).map_values(|e: (u32, TokenBucket)| e.1@)
    }

    pub fn new() -> (t: Self)
        ensures
            t.policies() == Map::<Seq<char>, Policy>::empty(),
            t.name_pids() == Map::<Seq<char>, u32>::empty(),
            t.buckets() == Map::<u32, BucketState>::empty(),
    {
        let t = ThrottleTable { buckets: Vec::new(), policies: Vec::new(), name_pid: Vec::new() };
        assert(t.name_pids() =~= Map::<Seq<char>, u32>::empty());
        assert(t.buckets() =~= Map::<u32, BucketState>::empty());
        t
    }

    fn policy_position(&self, id: &String) -> (r: Option<usize>)
        ensures
            match r {
                Some(i) => i < self.policies.len() && self.policies@[i as int].id@ == id@,
                None => !has_key(self.policies@, policy_key(), id@),
            },
    {
        let mut i: usize = 0;
        while i < self.policies.len()
            invariant
                i <= self.policies.len(),
                forall|j: int| 0 <= j < i ==> self.policies@[j].id@ != id@,
            decreases self.policies.len() - i,
        {
            if self.policies[i].id == *id {
                return Some(i);
            }
            i = i + 1;
        }
        assert(!has_key(self.policies@, policy_key(), id@)) by {
            if has_key(self.policies@, policy_key(), id@) {
                let j = choose|j: int|
                    0 <= j < self.policies@.len() && (policy_key())(self.policies@[j]) == id@;
            }
        }
        None
    }

    fn hint_position(&self, name: &String) -> (r: Option<usize>)
        ensures
            match r {
                Some(i) => i < self.name_pid.len() && self.name_pid@[i as int].0@ == name@,
                None => !has_key(self.name_pid@, hint_key(), name@),
            },
    {
        let mut i: usize = 0;
        while i < self.name_pid.len()
            invariant
                i <= self.name_pid.len(),
                forall|j: int| 0 <= j < i ==> self.name_pid@[j].0@ != name@,
            decreases self.name_pid.len() - i,
        {
            if self.name_pid[i].0 == *name {
                return Some(i);
            }
            i = i + 1;
        }
        assert(!has_key(self.name_pid@, hint_key(), name@)) by {
            if has_key(self.name_pid@, hint_key(), name@) {
                let j = choose|j: int|
                    0 <= j < self.name_pid@.len() && (hint_key())(self.name_pid@[j]) == name@;
            }
        }
        None
    }

    fn bucket_position(&self, pid: u32) -> (r: Option<usize>)
        ensures
            match r {
                Some(i) => i < self.buckets.len() && self.buckets@[i as int].0 == pid,
                None => !has_key(self.buckets@, bucket_key(), pid),
            },
    {
        let mut i: usize = 0;
        while i < self.buckets.len()
            invariant
                i <= self.buckets.len(),
                forall|j: int| 0 <= j < i ==> self.buckets@[j].0 != pid,
            decreases self.buckets.len() - i,
        {
            if self.buckets[i].0 == pid {
                return Some(i);
            }
            i = i + 1;
        }
        assert(!has_key(self.buckets@, bucket_key(), pid)) by {
            if has_key(self.buckets@, bucket_key(), pid) {
                let j = choose|j: int|
                    0 <= j < self.buckets@.len() && (bucket_key())(self.buckets@[j]) == pid;
            }
        }
        None
    }

    /// Upsert into the hint table.
    fn set_hint(&mut self, name: String, pid: u32)
        ensures
            final(self).name_pids() == old(self).name_pids().insert(name@, pid),
            final(self).policies() == old(self).policies(),
            final(self).buckets() == old(self).buckets(),
    {
        proof {
            use_type_invariant(&*self);
        }
        let ghost old_np = self.name_pid@;
        let mut hints = Vec::new();
        std::mem::swap(&mut hints, &mut self.name_pid);
        let ghost k = name@;
        match find_hint(&hints, &name) {
            Some(i) => {
                proof {
                    lemma_map_of_update(hints@, hint_key(), i as int, (name, pid));
                }
                hints.set(i, (name, pid));
            },
            None => {
                proof {
                    lemma_map_of_push(hints@, hint_key(), (name, pid));
                }
                hints.push((name, pid));
            },
        }
        self.name_pid = hints;
        assert(self.name_pids() =~= old(self).name_pids().insert(k, pid));
    }

    /// Upsert (or remove, with `None`) the bucket for `pid`.
    fn put_bucket(&mut self, pid: u32, b: Option<TokenBucket>)
        ensures
            final(self).buckets() == match b {
                Some(x) => old(self).buckets().insert(pid, x@),
                None => old(self).buckets().remove(pid),
            },
            final(self).policies() == old(self).policies(),
            final(self).name_pids() == old(self).name_pids(),
    {
        proof {
            use_type_invariant(&*self);
        }
        let pos = self.bucket_position(pid);
        let mut buckets = Vec::new();
        std::mem::swap(&mut buckets, &mut self.buckets);
        let ghost bs = buckets@;
        match (pos, b) {
            (Some(i), Some(x)) => {
                proof {
                    lemma_map_of_update(bs, bucket_key(), i as int, (pid, x));
                }
                buckets.set(i, (pid, x));
            },
            (None, Some(x)) => {
                proof {
                    lemma_map_of_push(bs, bucket_key(), (pid, x));
                }
                buckets.push((pid, x));
            },
            (Some(i), None) => {
                proof {
                    lemma_map_of_remove(bs, bucket_key(), i as int);
                }
                buckets.remove(i);
            },
            (None, None) => {
                proof {
                    lemma_map_of(bs, bucket_key());
                }
            },
        }
        self.buckets = buckets;
        assert(self.buckets() =~= match b {
            Some(x) => old(self).buckets().insert(pid, x@),
            None => old(self).buckets().remove(pid),
        });
    }

    /// Apply every active policy of `list`, in order (loading persisted
    /// policies at startup).
    pub fn load_active_policies(&mut self, list: Vec<Policy>)
        ensures
            final(self).policies() == insert_active_policies(old(self).policies(), list@),
            final(self).name_pids() == old(self).name_pids(),
            final(self).buckets().dom() == old(self).buckets().dom(),
    {
        let mut i: usize = 0;
        while i < list.len()
            invariant
                i <= list.len(),
                self.policies() == insert_active_policies(old(self).policies(), list@.take(i as int)),
                self.name_pids() == old(self).name_pids(),
                self.buckets().dom() == old(self).buckets().dom(),
            decreases list.len() - i,
        {
            assert(list@.take(i + 1).drop_last() == list@.take(i as int));
            if list[i].active {
                self.apply_policy(list[i].clone());
            }
            i = i + 1;
        }
        assert(list@.take(list.len() as int) == list@);
    }

    /// Store a policy and update existing buckets: when the policy limits
    /// traffic, every bucket is switched to its rate.
    pub fn apply_policy(&mut self, p: Policy)
        ensures
            final(self).policies() == old(self).policies().insert(p.id@, p),
            final(self).name_pids() == old(self).name_pids(),
            final(self).buckets().dom() == old(self).buckets().dom(),
            !policy_limits(p) ==> final(self).buckets() == old(self).buckets(),
            policy_limits(p) ==> forall|pid: u32| #[trigger]
                old(self).buckets().contains_key(pid) ==> is_rerated(
                    final(self).buckets()[pid],
                    old(self).buckets()[pid],
                    p.rate_limit_bps,
                ),
    {
        proof {
            use_type_invariant(&*self);
        }
        let limits = p.active && p.rate_limit_bps > 0;
        let rate = p.rate_limit_bps;
        let ghost pid_key = p.id@;
        let ghost pp = p;
        let mut policies = Vec::new();
        std::mem::swap(&mut policies, &mut self.policies);
        match find_policy(&policies, &p.id) {
            Some(i) => {
                proof {
                    lemma_map_of_update(policies@, policy_key(), i as int, p);
                }
                policies.set(i, p);
            },
            None => {
                proof {
                    lemma_map_of_push(policies@, policy_key(), p);
                }
                policies.push(p);
            },
        }
        self.policies = policies;
        if limits {
            let mut buckets = Vec::new();
            std::mem::swap(&mut buckets, &mut self.buckets);
            let ghost old_bs = buckets@;
            let mut i: usize = 0;
            while i < buckets.len()
                invariant
                    i <= buckets.len(),
                    buckets@.len() == old_bs.len(),
                    forall|j: int| 0 <= j < buckets@.len() ==> #[trigger] buckets@[j].0 == old_bs[j].0,
                    forall|j: int| i <= j < buckets@.len() ==> #[trigger] buckets@[j] == old_bs[j],
                    forall|j: int| 0 <= j < i ==> is_rerated(#[trigger] buckets@[j].1@, old_bs[j].1@, rate),
                decreases buckets.len() - i,
            {
                let ghost before = buckets@;
                let (pid, mut b) = buckets.remove(i);
                let ghost b0 = b@;
                b.set_rate(rate);
                proof {
                    let now = choose|now: nat|
                        #![trigger refilled(b0, now)]
                        b@.tokens == rescaled(refilled(b0, now), b0.rate, rate as nat)
                            && b@.last == refill_time(b0, now);
                    assert(b@ == rerated(b0, rate, now));
                }
                buckets.insert(i, (pid, b));
                proof {
                    assert(buckets@ =~= before.update(i as int, (pid, b)));
                }
                i = i + 1;
            }
            self.buckets = buckets;
            proof {
                assert(keys_distinct(self.buckets@, bucket_key())) by {
                    assert forall|a: int, b: int|
                        0 <= a < self.buckets@.len() && 0 <= b < self.buckets@.len() && a != b
                        implies self.buckets@[a].0 != self.buckets@[b].0 by {
                        assert(self.buckets@[a].0 == old_bs[a].0);
                        assert(self.buckets@[b].0 == old_bs[b].0);
                    }
                }
                lemma_map_of(self.buckets@, bucket_key());
                lemma_map_of(old_bs, bucket_key());
                let m1 = map_of(self.buckets@, bucket_key());
                let m0 = map_of(old_bs, bucket_key());
                assert forall|k: u32| m1.contains_key(k) <==> m0.contains_key(k) by {
                    if has_key(self.buckets@, bucket_key(), k) {
                        let j = choose|j: int|
                            0 <= j < self.buckets@.len() && (bucket_key())(self.buckets@[j]) == k;
                        assert((bucket_key())(old_bs[j]) == k);
                    }
                    if has_key(old_bs, bucket_key(), k) {
                        let j = choose|j: int| 0 <= j < old_bs.len() && (bucket_key())(old_bs[j]) == k;
                        assert((bucket_key())(self.buckets@[j]) == k);
                    }
                }
                assert(self.buckets().dom() =~= old(self).buckets().dom());
                assert forall|pid: u32| #[trigger] old(self).buckets().contains_key(pid) implies is_rerated(
                    self.buckets()[pid], old(self).buckets()[pid], rate) by {
                    let j = choose|j: int| 0 <= j < old_bs.len() && (bucket_key())(old_bs[j]) == pid;
                    assert(m0[(bucket_key())(old_bs[j])] == old_bs[j]);
                    assert((bucket_key())(self.buckets@[j]) == pid);
                    assert(m1[(bucket_key())(self.buckets@[j])] == self.buckets@[j]);
                    assert(is_rerated(self.buckets@[j].1@, old_bs[j].1@, rate));
                }
            }
        }
        proof {
            assert(self.policies() == old(self).policies().insert(pid_key, pp));
        }
    }

    /// Bind a policy (by id) to a concrete PID and (re)create its bucket: a
    /// fresh full bucket when the policy limits traffic, none otherwise.
    pub fn set_pid_for_policy(&mut self, policy_id: &str, pid: u32)
        ensures
            !old(self).policies().contains_key(policy_id@) ==> final(self).policies() == old(self).policies()
                && final(self).name_pids() == old(self).name_pids() && final(self).buckets()
                == old(self).buckets(),
            old(self).policies().contains_key(policy_id@) ==> {
                let p = old(self).policies()[policy_id@];
                &&& final(self).policies() == old(self).policies()
                &&& final(self).name_pids() == old(self).name_pids().insert(p.process_name@, pid)
                &&& final(self).buckets() == if policy_limits(p) {
                    old(self).buckets().insert(pid, fresh_bucket(p.rate_limit_bps))
                } else {
                    old(self).buckets().remove(pid)
                }
            },
    {
        proof {
            use_type_invariant(&*self);
            lemma_map_of(self.policies@, policy_key());
        }
        let key = policy_id.to_owned();
        match self.policy_position(&key) {
            None => {},
            Some(i) => {
                let p = self.policies[i].clone();
                proof {
                    assert(map_of(self.policies@, policy_key())[(policy_key())(self.policies@[i as int])]
                        == self.policies@[i as int]);
                }
                self.set_hint(p.process_name.clone(), pid);
                self.ensure_bucket(pid, &p);
            },
        }
    }

    /// Give `pid` a fresh full bucket when `p` limits traffic; drop its
    /// bucket otherwise.
    fn ensure_bucket(&mut self, pid: u32, p: &Policy)
        ensures
            final(self).buckets() == if policy_limits(*p) {
                old(self).buckets().insert(pid, fresh_bucket(p.rate_limit_bps))
            } else {
                old(self).buckets().remove(pid)
            },
            final(self).policies() == old(self).policies(),
            final(self).name_pids() == old(self).name_pids(),
    {
        if p.active && p.rate_limit_bps > 0 {
            let b = TokenBucket::new(p.rate_limit_bps);
            self.put_bucket(pid, Some(b));
        } else {
            self.put_bucket(pid, None);
        }
    }

    /// Called by the capture engine when a process name is observed for a PID.
    pub fn note_process(&mut self, name: &str, pid: u32)
        ensures
            final(self).name_pids() == old(self).name_pids().insert(name@, pid),
            final(self).policies() == old(self).policies(),
            final(self).buckets() == old(self).buckets(),
    {
        self.set_hint(name.to_owned(), pid);
    }

    /// Lookup an active policy by process name (case-insensitive, ignores `.exe`
    /// difference). Which of several matching policies comes back is unspecified.
    pub fn policy_for_name(&self, name: &str) -> (r: Option<Policy>)
        ensures
            match r {
                Some(x) => self.policies().contains_key(x.id@) && self.policies()[x.id@] == x
                    && policy_names(x, name@),
                None => forall|k: Seq<char>| #[trigger]
                    self.policies().contains_key(k) ==> !policy_names(self.policies()[k], name@),
            },
    {
        let name_lower = lower_chars(name);
        let mut i: usize = 0;
        while i < self.policies.len()
            invariant
                i <= self.policies.len(),
                name_lower@ == lowercase(name@),
                forall|j: int| 0 <= j < i ==> !policy_names(#[trigger] self.policies@[j], name@),
            decreases self.policies.len() - i,
        {
            let p = &self.policies[i];
            if p.active {
                let pn = lower_chars(p.process_name.as_str());
                if same_program_chars(&pn, &name_lower) {
                    proof {
                        use_type_invariant(self);
                        lemma_map_of(self.policies@, policy_key());
                        assert(map_of(self.policies@, policy_key())[(policy_key())(
                            self.policies@[i as int],
                        )] == self.policies@[i as int]);
                        assert(has_key(self.policies@, policy_key(), p.id@));
                    }
                    return Some(p.clone());
                }
            }
            i = i + 1;
        }
        proof {
            use_type_invariant(self);
            lemma_map_of(self.policies@, policy_key());
        }
        assert forall|k: Seq<char>| #[trigger] self.policies().contains_key(k) implies !policy_names(
            self.policies()[k],
            name@,
        ) by {
            let j = choose|j: int|
                0 <= j < self.policies@.len() && (policy_key())(self.policies@[j]) == k;
            assert(map_of(self.policies@, policy_key())[(policy_key())(self.policies@[j])]
                == self.policies@[j]);
        }
        None
    }

    /// Admits `bytes` for `pid` under `policy`: the PID's bucket (created full
    /// at the policy's rate when missing) must cover them.
    pub fn admit_bytes(&mut self, pid: u32, policy: &Policy, bytes: usize) -> (ok: bool)
        ensures
            final(self).policies() == old(self).policies(),
            final(self).name_pids() == old(self).name_pids(),
            exists|now: nat|
                #![trigger consumed(bucket_or_fresh(old(self).buckets(), pid, policy.rate_limit_bps), bytes as nat, now)]
                ok == consumed(bucket_or_fresh(old(self).buckets(), pid, policy.rate_limit_bps), bytes as nat, now).1
                && final(self).buckets() == old(self).buckets().insert(
                    pid,
                    consumed(bucket_or_fresh(old(self).buckets(), pid, policy.rate_limit_bps), bytes as nat, now).0,
                ),
    {
        proof {
            use_type_invariant(&*self);
            lemma_map_of(self.buckets@, bucket_key());
        }
        let pos = self.bucket_position(pid);
        let ghost start = bucket_or_fresh(old(self).buckets(), pid, policy.rate_limit_bps);
        let mut b = match pos {
            Some(i) => {
                proof {
                    assert(map_of(self.buckets@, bucket_key())[(bucket_key())(self.buckets@[i as int])]
                        == self.buckets@[i as int]);
                }
                let mut buckets = Vec::new();
                std::mem::swap(&mut buckets, &mut self.buckets);
                let ghost bs = buckets@;
                let (_, b) = buckets.remove(i);
                proof {
                    lemma_map_of_remove(bs, bucket_key(), i as int);
                }
                self.buckets = buckets;
                proof {
                    assert(b@ == start);
                }
                b
            },
            None => {
                proof {
                    assert(!old(self).buckets().contains_key(pid));
                }
                let b = TokenBucket::new(policy.rate_limit_bps);
                assert(b@ == start);
                b
            },
        };
        let ghost b0 = b@;
        let ok = b.try_consume(bytes);
        let ghost b1 = b@;
        self.put_bucket(pid, Some(b));
        proof {
            let now = choose|now: nat|
                #![trigger refilled(b0, now)]
                ok == (refilled(b0, now) >= bytes * UNITS_PER_BYTE) && b1.tokens == (if ok {
                    (refilled(b0, now) - bytes * UNITS_PER_BYTE) as nat
                } else {
                    refilled(b0, now)
                }) && b1.last == refill_time(b0, now);
            assert(consumed(b0, bytes as nat, now).0 == b1);
            assert(consumed(b0, bytes as nat, now).1 == ok);
            assert(old(self).buckets().remove(pid).insert(pid, b1) =~= old(self).buckets().insert(pid, b1));
        }
        ok
    }

    /// Return the active policy (if any) bound to `pid`: the policy naming a
    /// process name hinted for `pid` (which hinted name is consulted when several
    /// map to `pid` is unspecified).
    pub fn policy_for_pid(&self, pid: u32) -> (r: Option<Policy>)
        ensures
            match r {
                Some(x) => exists|k: Seq<char>|
                    #[trigger] self.name_pids().contains_key(k) && self.name_pids()[k] == pid
                        && policy_names(x, k) && self.policies().contains_key(x.id@)
                        && self.policies()[x.id@] == x,
                None => (forall|k: Seq<char>| #[trigger]
                    self.name_pids().contains_key(k) ==> self.name_pids()[k] != pid) || exists|
                    k: Seq<char>,
                |
                    #[trigger] self.name_pids().contains_key(k) && self.name_pids()[k] == pid
                        && forall|q: Seq<char>| #[trigger]
                        self.policies().contains_key(q) ==> !policy_names(self.policies()[q], k),
            },
    {
        proof {
            use_type_invariant(self);
            lemma_map_of(self.name_pid@, hint_key());
        }
        let mut i: usize = 0;
        while i < self.name_pid.len()
            invariant
                i <= self.name_pid.len(),
                forall|j: int| 0 <= j < i ==> #[trigger] self.name_pid@[j].1 != pid,
            decreases self.name_pid.len() - i,
        {
            if self.name_pid[i].1 == pid {
                let name = self.name_pid[i].0.clone();
                proof {
                    use_type_invariant(self);
                    lemma_map_of(self.name_pid@, hint_key());
                    assert(map_of(self.name_pid@, hint_key())[(hint_key())(self.name_pid@[i as int])]
                        == self.name_pid@[i as int]);
                    assert(self.name_pids().contains_key(name@));
                    assert(self.name_pids()[name@] == pid);
                }
                return self.policy_for_name(name.as_str());
            }
            i = i + 1;
        }
        proof {
            use_type_invariant(self);
            lemma_map_of(self.name_pid@, hint_key());
        }
        assert forall|k: Seq<char>| #[trigger] self.name_pids().contains_key(k) implies self.name_pids()[k]
            != pid by {
            let j = choose|j: int| 0 <= j < self.name_pid@.len() && (hint_key())(self.name_pid@[j]) == k;
            assert(map_of(self.name_pid@, hint_key())[(hint_key())(self.name_pid@[j])]
                == self.name_pid@[j]);
        }
        None
    }

    /// Remove a policy and the bucket of the PID hinted for its process name.
    pub fn remove_policy(&mut self, id: &str)
        ensures
            final(self).policies() == old(self).policies().remove(id@),
            final(self).name_pids() == old(self).name_pids(),
            final(self).buckets() == if old(self).policies().contains_key(id@)
                && old(self).name_pids().contains_key(old(self).policies()[id@].process_name@) {
                old(self).buckets().remove(
                    old(self).name_pids()[old(self).policies()[id@].process_name@],
                )
            } else {
                old(self).buckets()
            },
    {
        proof {
            use_type_invariant(&*self);
            lemma_map_of(self.policies@, policy_key());
            lemma_map_of(self.name_pid@, hint_key());
        }
        let key = id.to_owned();
        match self.policy_position(&key) {
            None => {
                assert(old(self).policies().remove(id@) =~= old(self).policies());
            },
            Some(i) => {
                proof {
                    assert(map_of(self.policies@, policy_key())[(policy_key())(self.policies@[i as int])]
                        == self.policies@[i as int]);
                }
                let mut policies = Vec::new();
                std::mem::swap(&mut policies, &mut self.policies);
                let ghost ps = policies@;
                let p = policies.remove(i);
                proof {
                    lemma_map_of_remove(ps, policy_key(), i as int);
                }
                self.policies = policies;
                match self.hint_position(&p.process_name) {
                    Some(h) => {
                        let pid = self.name_pid[h].1;
                        proof {
                            assert(map_of(self.name_pid@, hint_key())[(hint_key())(self.name_pid@[h as int])]
                                == self.name_pid@[h as int]);
                        }
                        self.put_bucket(pid, None);
                    },
                    None => {},
                }
            },
        }
    }

    /// List all stored policies (each once, in unspecified order).
    pub fn list_policies(&self) -> (r: Vec<Policy>)
        ensures
            r@.len() == self.policies().dom().len(),
            keys_distinct(r@, policy_key()),
            forall|i: int| 0 <= i < r@.len() ==> self.policies().contains_key(#[trigger] r@[i].id@)
                && self.policies()[r@[i].id@] == r@[i],
            forall|k: Seq<char>| #[trigger] self.policies().contains_key(k) ==> has_key(r@, policy_key(), k),
    {
        proof {
            use_type_invariant(self);
            lemma_map_of(self.policies@, policy_key());
            lemma_map_of_len(self.policies@, policy_key());
        }
        let mut out: Vec<Policy> = Vec::new();
        let mut i: usize = 0;
        while i < self.policies.len()
            invariant
                i <= self.policies.len(),
                out@ == self.policies@.take(i as int),
            decreases self.policies.len() - i,
        {
            out.push(self.policies[i].clone());
            assert(self.policies@.take(i + 1) == self.policies@.take(i as int).push(self.policies@[i as int]));
            i = i + 1;
        }
        assert(self.policies@.take(self.policies.len() as int) == self.policies@);
        out
    }
}

/// Whether `p` throttles traffic in `direction` for `pid` to `b1` from the
/// table state `before`, deciding `ok`.
pub open spec fn throttled_by(
    before: Map<u32, BucketState>,
    after: Map<u32, BucketState>,
    pid: u32,
    p: Policy,
    len: usize,
    ok: bool,
) -> bool {
    exists|now: nat|
        #![trigger consumed(bucket_or_fresh(before, pid, p.rate_limit_bps), len as nat, now)]
        ok == consumed(bucket_or_fresh(before, pid, p.rate_limit_bps), len as nat, now).1 && after
            == before.insert(pid, consumed(bucket_or_fresh(before, pid, p.rate_limit_bps), len as nat, now).0)
}

/// The verdict on one captured packet attributed to `pid` (whose process is
/// called `name`) travelling in `direction`: the name is noted for the PID;
/// when an active policy names the process, limits this direction and has a
/// rate, the packet must fit the PID's bucket; otherwise it passes.
pub fn packet_verdict(
    throttle: &mut ThrottleTable,
    pid: u32,
    name: &str,
    direction: Direction,
    len: usize,
) -> (allowed: bool)
    ensures
        final(throttle).name_pids() == old(throttle).name_pids().insert(name@, pid),
        final(throttle).policies() == old(throttle).policies(),
        (forall|k: Seq<char>| #[trigger] old(throttle).policies().contains_key(k)
            ==> !policy_names(old(throttle).policies()[k], name@)) ==> allowed && final(throttle).buckets()
            == old(throttle).buckets(),
        !(forall|k: Seq<char>| #[trigger] old(throttle).policies().contains_key(k)
            ==> !policy_names(old(throttle).policies()[k], name@)) ==> exists|p: Policy| {
            &&& old(throttle).policies().contains_key(p.id@)
            &&& old(throttle).policies()[p.id@] == p
            &&& #[trigger] policy_names(p, name@)
            &&& if direction.spec_matches_policy(p) && p.rate_limit_bps > 0 {
                throttled_by(old(throttle).buckets(), final(throttle).buckets(), pid, p, len, allowed)
            } else {
                allowed && final(throttle).buckets() == old(throttle).buckets()
            }
        },
{
    throttle.note_process(name, pid);
    match throttle.policy_for_name(name) {
        None => true,
        Some(policy) => {
            if direction.matches_policy(&policy) && policy.rate_limit_bps > 0 {
                let ghost b0 = throttle.buckets();
                let ok = throttle.admit_bytes(pid, &policy, len);
                assert(throttled_by(b0, throttle.buckets(), pid, policy, len, ok));
                ok
            } else {
                true
            }
        },
    }
}

fn find_policy(v: &Vec<Policy>, id: &String) -> (r: Option<usize>)
    ensures
        match r {
            Some(i) => i < v.len() && v@[i as int].id@ == id@,
            None => !has_key(v@, policy_key(), id@),
        },
{
    let mut i: usize = 0;
    while i < v.len()
        invariant
            i <= v.len(),
            forall|j: int| 0 <= j < i ==> v@[j].id@ != id@,
        decreases v.len() - i,
    {
        if v[i].id == *id {
            return Some(i);
        }
        i = i + 1;
    }
    assert(!has_key(v@, policy_key(), id@)) by {
        if has_key(v@, policy_key(), id@) {
            let j = choose|j: int| 0 <= j < v@.len() && (policy_key())(v@[j]) == id@;
        }
    }
    None
}

fn find_hint(v: &Vec<(String, u32)>, name: &String) -> (r: Option<usize>)
    ensures
        match r {
            Some(i) => i < v.len() && v@[i as int].0@ == name@,
            None => !has_key(v@, hint_key(), name@),
        },
{
    let mut i: usize = 0;
    while i < v.len()
        invariant
            i <= v.len(),
            forall|j: int| 0 <= j < i ==> v@[j].0@ != name@,
        decreases v.len() - i,
    {
        if v[i].0 == *name {
            return Some(i);
        }
        i = i + 1;
    }
    assert(!has_key(v@, hint_key(), name@)) by {
        if has_key(v@, hint_key(), name@) {
            let j = choose|j: int| 0 <= j < v@.len() && (hint_key())(v@[j]) == name@;
        }
    }
    None
}

impl Default for ThrottleTable {
    fn default() -> (t: Self)
        ensures
            t.policies() == Map::<Seq<char>, Policy>::empty(),
            t.name_pids() == Map::<Seq<char>, u32>::empty(),
            t.buckets() == Map::<u32, BucketState>::empty(),
    {
        Self::new()
    }
}


/// Once an active policy is applied, the table holds a policy naming the
/// policy's own process, so `policy_for_name` on that name finds one.
pub proof fn applied_policy_is_found(t: Map<Seq<char>, Policy>, p: Policy)
    requires
        p.active,
    ensures
        exists|k: Seq<char>|
            #[trigger] t.insert(p.id@, p).contains_key(k) && policy_names(t.insert(p.id@, p)[k], p.process_name@),
{
    assert(t.insert(p.id@, p).contains_key(p.id@));
    assert(policy_names(t.insert(p.id@, p)[p.id@], p.process_name@));
}

/// Removing a policy undoes applying it: a policy applied under an id the
/// table did not hold, then removed by that id, leaves the policy table as
/// it was.
pub proof fn remove_undoes_apply_policy(t: Map<Seq<char>, Policy>, p: Policy)
    requires
        !t.contains_key(p.id@),
    ensures
        t.insert(p.id@, p).remove(p.id@) == t,
{
    assert(t.insert(p.id@, p).remove(p.id@) =~= t);
}

/// A bucket's balance never exceeds its capacity, whatever is taken from it
/// and whenever.
pub proof fn balance_stays_within_capacity(b: BucketState, n: nat, now: nat)
    requires
        TokenBucket::wf_state(b),
    ensures
        TokenBucket::wf_state(consumed(b, n, now).0),
{
}

/// A full bucket admits any request of at most its capacity.
pub proof fn full_bucket_admits_up_to_capacity(b: BucketState, n: nat, now: nat)
    requires
        TokenBucket::wf_state(b),
        b.tokens == b.capacity,
        n * UNITS_PER_BYTE <= b.capacity,
    ensures
        consumed(b, n, now).1,
{
}

/// At one instant a bucket admits at most its capacity: two requests in a
/// row that are both admitted together fit in one second of traffic.
pub proof fn same_instant_admissions_fit_capacity(b: BucketState, n1: nat, n2: nat, now: nat)
    requires
        TokenBucket::wf_state(b),
        consumed(b, n1, now).1,
        consumed(consumed(b, n1, now).0, n2, now).1,
    ensures
        (n1 + n2) * UNITS_PER_BYTE <= b.capacity,
{
    let b1 = consumed(b, n1, now).0;
    assert(b1.last >= now);
    assert(refilled(b1, now) == b1.tokens);
    assert((n1 + n2) * UNITS_PER_BYTE == n1 * UNITS_PER_BYTE + n2 * UNITS_PER_BYTE) by (nonlinear_arith);
}

/// Waiting never lowers what a bucket can hand out.
pub proof fn refill_is_monotone(b: BucketState, t1: nat, t2: nat)
    requires
        TokenBucket::wf_state(b),
        t1 <= t2,
    ensures
        refilled(b, t1) <= refilled(b, t2),
{
    if t1 > b.last {
        assert((t1 - b.last) * b.rate <= (t2 - b.last) * b.rate) by (nonlinear_arith)
            requires
                t1 - b.last <= t2 - b.last,
        ;
    }
}


/// `m` with the active policies of `s` inserted in order.
pub open spec fn insert_active_policies(m: Map<Seq<char>, Policy>, s: Seq<Policy>) -> Map<Seq<char>, Policy>
    decreases s.len(),
{
    if s.len() == 0 {
        m
    } else {
        let rest = insert_active_policies(m, s.drop_last());
        if s.last().active {
            rest.insert(s.last().id@, s.last())
        } else {
            rest
        }
    }
}


/// A bucket after a series of requests, each `(bytes, clock reading)`, and
/// the number of bytes it admitted.
pub open spec fn run_requests(b: BucketState, reqs: Seq<(nat, nat)>) -> (BucketState, nat)
    decreases reqs.len(),
{
    if reqs.len() == 0 {
        (b, 0)
    } else {
        let prev = run_requests(b, reqs.drop_last());
        let step = consumed(prev.0, reqs.last().0, reqs.last().1);
        (step.0, if step.1 { prev.1 + reqs.last().0 } else { prev.1 })
    }
}

proof fn lemma_run_requests(b: BucketState, reqs: Seq<(nat, nat)>, horizon: nat)
    requires
        TokenBucket::wf_state(b),
        b.last <= horizon,
        forall|i: int| 0 <= i < reqs.len() ==> #[trigger] reqs[i].1 <= horizon,
    ensures
        ({
            let r = run_requests(b, reqs);
            &&& r.0.rate == b.rate
            &&& r.0.capacity == b.capacity
            &&& TokenBucket::wf_state(r.0)
            &&& b.last <= r.0.last <= horizon
            &&& r.0.tokens + r.1 * UNITS_PER_BYTE <= b.tokens + (r.0.last - b.last) * b.rate
        }),
    decreases reqs.len(),
{
    if reqs.len() > 0 {
        let q = reqs.drop_last();
        assert forall|i: int| 0 <= i < q.len() implies #[trigger] q[i].1 <= horizon by {
            assert(q[i] == reqs[i]);
        }
        lemma_run_requests(b, q, horizon);
        let p = run_requests(b, q);
        let (n, t) = reqs.last();
        assert(t == reqs[reqs.len() - 1].1);
        let b1 = p.0;
        let r1 = refilled(b1, t);
        let b2 = consumed(b1, n, t).0;
        assert(r1 <= b1.tokens + (b2.last - b1.last) * b1.rate) by {
            if t > b1.last {
                assert(b2.last == t);
            }
        }
        assert((b2.last - b1.last) * b.rate + (b1.last - b.last) * b.rate == (b2.last - b.last) * b.rate)
            by (nonlinear_arith)
            requires
                b2.last >= b1.last,
                b1.last >= b.last,
        ;
        assert((p.1 + n) * UNITS_PER_BYTE == p.1 * UNITS_PER_BYTE + n * UNITS_PER_BYTE) by (nonlinear_arith);
    }
}

/// However requests arrive, a bucket admits no more bytes than its balance
/// at the start plus what its rate earns up to the latest request: over any
/// series of requests made by clock reading `horizon` (and not before the
/// bucket's last refill), the admitted bytes fit in the starting balance
/// plus `rate` units per elapsed nanosecond.
pub proof fn admitted_bytes_bounded_by_rate(b: BucketState, reqs: Seq<(nat, nat)>, horizon: nat)
    requires
        TokenBucket::wf_state(b),
        b.last <= horizon,
        forall|i: int| 0 <= i < reqs.len() ==> #[trigger] reqs[i].1 <= horizon,
    ensures
        run_requests(b, reqs).1 * UNITS_PER_BYTE <= b.tokens + (horizon - b.last) * b.rate,
{
    lemma_run_requests(b, reqs, horizon);
    let r = run_requests(b, reqs);
    assert((r.0.last - b.last) * b.rate <= (horizon - b.last) * b.rate) by (nonlinear_arith)
        requires
            r.0.last <= horizon,
            r.0.last >= b.last,
    ;
}

} // verus!
