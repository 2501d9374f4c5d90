//! Alert rule evaluation engine: rule set, per-key cooldowns, firing.

use vstd::prelude::*;
use crate::clock::{instant_now, ticks_since, unix_nanos, now_secs};
use crate::keyed::{map_of, keys_distinct, has_key, lemma_map_of, lemma_map_of_update,
    lemma_map_of_push, lemma_map_of_remove, lemma_map_of_len};
use crate::matcher::{match_process, process_matches};
use crate::models::{AlertEvent, ProcessStats, Rule, ZERO_RATE_KEY, format_id, id_text};
use crate::text::push_char;

verus! {

pub open spec fn rule_key() -> spec_fn(Rule) -> Seq<char> {
    |r: Rule| r.id@
}

pub open spec fn cooldown_entry_key() -> spec_fn((String, u64)) -> Seq<char> {
    |e: (String, u64)| e.0@
}

/// The rate a rule watches: upload (direction 0 and unknown values), download
/// (1), or the larger of the two (2).
pub open spec fn rule_rate(rule: Rule, stat: ProcessStats) -> u64 {
    if rule.direction == 1 {
        stat.download_rate
    } else if rule.direction == 2 {
        if stat.upload_rate >= stat.download_rate { stat.upload_rate } else { stat.download_rate }
    } else {
        stat.upload_rate
    }
}

/// The direction an event reports: 0 (upload) or 1 (download); for a rule on
/// both directions, the one with the larger rate (upload on a tie).
pub open spec fn event_direction(rule: Rule, stat: ProcessStats) -> i32 {
    if rule.direction == 1 {
        1
    } else if rule.direction == 2 {
        if stat.upload_rate >= stat.download_rate { 0 } else { 1 }
    } else {
        0
    }
}

/// An enabled rule matching the process whose (positive) threshold the
/// watched rate exceeds.
pub open spec fn over_threshold(rule: Rule, stat: ProcessStats) -> bool {
    &&& rule.enabled
    &&& process_matches(rule.process_name@, stat.name@)
    &&& rule.threshold > ZERO_RATE_KEY
    &&& rule_rate(rule, stat) > rule.threshold
}

/// Cooldowns are tracked per `{rule id}:{process name}`.
pub open spec fn cooldown_key(rule: Rule, stat: ProcessStats) -> Seq<char> {
    rule.id@ + seq![':'] + stat.name@
}

/// The cooldown in nanoseconds (negative cooldowns count as none).
pub open spec fn cooldown_nanos(rule: Rule) -> nat {
    if rule.cooldown_sec < 0 { 0 } else { (rule.cooldown_sec as nat) * 1_000_000_000 }
}

pub open spec fn elapsed(now: nat, last: nat) -> nat {
    if now > last { (now - last) as nat } else { 0 }
}

/// The rule fired for this process less than its cooldown ago.
pub open spec fn cooling(cd: Map<Seq<char>, u64>, rule: Rule, stat: ProcessStats, now: nat) -> bool {
    cd.contains_key(cooldown_key(rule, stat)) && elapsed(now, cd[cooldown_key(rule, stat)] as nat)
        < cooldown_nanos(rule)
}

/// What one firing reports.
pub struct Firing {
    pub rule_id: Seq<char>,
    pub process_name: Seq<char>,
    pub pid: u32,
    pub direction: i32,
    pub current_rate: u64,
    pub threshold: u64,
}

pub open spec fn firing(rule: Rule, stat: ProcessStats) -> Firing {
    Firing {
        rule_id: rule.id@,
        process_name: stat.name@,
        pid: stat.pid,
        direction: event_direction(rule, stat),
        current_rate: rule_rate(rule, stat),
        threshold: rule.threshold,
    }
}

/// Evaluation state: the cooldown table and the firings so far.
pub type EvalState = (Map<Seq<char>, u64>, Seq<Firing>);

/// One rule against one process: fire (and restart the cooldown) when over
/// threshold and not cooling down.
pub open spec fn step_rule(st: EvalState, rule: Rule, stat: ProcessStats, now: u64) -> EvalState {
    if over_threshold(rule, stat) && !cooling(st.0, rule, stat, now as nat) {
        (st.0.insert(cooldown_key(rule, stat), now), st.1.push(firing(rule, stat)))
    } else {
        st
    }
}

/// Every rule, in order, against one process.
pub open spec fn over_rules(st: EvalState, rules: Seq<Rule>, stat: ProcessStats, now: u64) -> EvalState
    decreases rules.len(),
{
    if rules.len() == 0 {
        st
    } else {
        step_rule(over_rules(st, rules.drop_last(), stat, now), rules.last(), stat, now)
    }
}

/// Every process, in order, against every rule.
pub open spec fn over_stats(
    st: EvalState,
    rules: Seq<Rule>,
    stats: Seq<ProcessStats>,
    now: u64,
) -> EvalState
    decreases stats.len(),
{
    if stats.len() == 0 {
        st
    } else {
        over_rules(over_stats(st, rules, stats.drop_last(), now), rules, stats.last(), now)
    }
}

/// The event reporting `f`, with the given id and time.
pub open spec fn event_reports(e: AlertEvent, f: Firing) -> bool {
    &&& e.rule_id@ == f.rule_id
    &&& e.process_name@ == f.process_name
    &&& e.pid == f.pid
    &&& e.direction == f.direction
    &&& e.current_rate == f.current_rate
    &&& e.threshold == f.threshold
}

pub open spec fn seq_after(start: u64, k: int) -> u64 {
    ((start as int + k) % 0x1_0000_0000_0000_0000) as u64
}

/// Holds the active rule set and the per-key cooldown clock readings.
pub struct Engine {
    rules: Vec<Rule>,
    cooldowns: Vec<(String, u64)>,
    next_seq: u64,
    origin: std::time::Instant,
}

impl Engine {
    #[verifier::type_invariant]
    closed spec fn inv(self) -> bool {
        &&& keys_distinct(self.rules@, rule_key())
        &&& keys_distinct(self.cooldowns@, cooldown_entry_key())
    }

    /// Rules by id.
    pub closed spec fn rules(&self) -> Map<Seq<char>, Rule> {
        map_of(self.rules@, rule_key())
    }

    /// The order in which `evaluate` visits the rules (each rule once).
    pub closed spec fn rule_order(&self) -> Seq<Rule> {
        self.rules@
    }

    /// Clock reading of the last firing per cooldown key.
    pub closed spec fn cooldowns(&self) -> Map<Seq<char>, u64> {
        map_of(self.cooldowns@, cooldown_entry_key()).map_values(|e: (String, u64)| e.1)
    }

    /// Sequence number the next event id carries.
    pub closed spec fn next_seq(&self) -> u64 {
        self.next_seq
    }

    pub fn new() -> (e: Self)
        ensures
            e.rules() == Map::<Seq<char>, Rule>::empty(),
            e.cooldowns() == Map::<Seq<char>, u64>::empty(),
            e.rule_order() == Seq::<Rule>::empty(),
            e.next_seq() == 0,
    {
        let e = Engine { rules: Vec::new(), cooldowns: Vec::new(), next_seq: 0, origin: instant_now() };
        assert(e.cooldowns() =~= Map::<Seq<char>, u64>::empty());
        e
    }

    fn upsert(&mut self, rule: Rule)
        ensures
            final(self).rules() == old(self).rules().insert(rule.id@, rule),
            final(self).cooldowns() == old(self).cooldowns(),
            final(self).next_seq() == old(self).next_seq(),
    {
        proof {
            use_type_invariant(&*self);
        }
        let mut rules = Vec::new();
        std::mem::swap(&mut rules, &mut self.rules);
        let found = find_rule(&rules, &rule.id);
        match found {
            Some(k) => {
                proof {
                    lemma_map_of_update(rules@, rule_key(), k as int, rule);
                }
                rules.set(k, rule);
            },
            None => {
                proof {
                    lemma_map_of_push(rules@, rule_key(), rule);
                }
                rules.push(rule);
            },
        }
        self.rules = rules;
    }

    /// Load persisted rules into memory, in order (later ones replace earlier
    /// ones with the same id).
    pub fn load_rules(&mut self, rules: Vec<Rule>)
        ensures
            final(self).rules() == insert_all(old(self).rules(), rules@),
            final(self).cooldowns() == old(self).cooldowns(),
    {
        let mut i: usize = 0;
        while i < rules.len()
            invariant
                i <= rules.len(),
                self.rules() == insert_all(old(self).rules(), rules@.take(i as int)),
                self.cooldowns() == old(self).cooldowns(),
            decreases rules.len() - i,
        {
            self.upsert(rules[i].clone());
            assert(rules@.take(i + 1).drop_last() == rules@.take(i as int));
            i = i + 1;
        }
        assert(rules@.take(rules.len() as int) == rules@);
    }

    /// Add a rule (replacing one with the same id).
    pub fn create_rule(&mut self, rule: Rule)
        ensures
            final(self).rules() == old(self).rules().insert(rule.id@, rule),
            final(self).cooldowns() == old(self).cooldowns(),
    {
        self.upsert(rule)
    }

    /// Replace a rule (adding it when its id is new).
    pub fn update_rule(&mut self, rule: Rule)
        ensures
            final(self).rules() == old(self).rules().insert(rule.id@, rule),
            final(self).cooldowns() == old(self).cooldowns(),
    {
        self.upsert(rule)
    }

    /// Remove the rule with this id, if any.
    pub fn delete_rule(&mut self, id: &str)
        ensures
            final(self).rules() == old(self).rules().remove(id@),
            final(self).cooldowns() == old(self).cooldowns(),
    {
        proof {
            use_type_invariant(&*self);
            lemma_map_of(self.rules@, rule_key());
        }
        let key = id.to_owned();
        let mut rules = Vec::new();
        std::mem::swap(&mut rules, &mut self.rules);
        match find_rule(&rules, &key) {
            Some(i) => {
                proof {
                    lemma_map_of_remove(rules@, rule_key(), i as int);
                }
                rules.remove(i);
            },
            None => {
                proof {
                    lemma_map_of(rules@, rule_key());
                    assert(map_of(rules@, rule_key()).remove(id@) =~= map_of(rules@, rule_key()));
                }
            },
        }
        self.rules = rules;
    }

    fn cooldown_of(&self, key: &String) -> (r: Option<u64>)
        ensures
            match r {
                Some(t) => self.cooldowns().contains_key(key@) && self.cooldowns()[key@] == t,
                None => !self.cooldowns().contains_key(key@),
            },
    {
        proof {
            use_type_invariant(self);
            lemma_map_of(self.cooldowns@, cooldown_entry_key());
        }
        let mut i: usize = 0;
        while i < self.cooldowns.len()
            invariant
                i <= self.cooldowns.len(),
                forall|j: int| 0 <= j < i ==> self.cooldowns@[j].0@ != key@,
            decreases self.cooldowns.len() - i,
        {
            if self.cooldowns[i].0 == *key {
                proof {
                    use_type_invariant(self);
                    lemma_map_of(self.cooldowns@, cooldown_entry_key());
                    assert(map_of(self.cooldowns@, cooldown_entry_key())[(cooldown_entry_key())(
                        self.cooldowns@[i as int],
                    )] == self.cooldowns@[i as int]);
                }
                return Some(self.cooldowns[i].1);
            }
            i = i + 1;
        }
        proof {
            use_type_invariant(self);
            lemma_map_of(self.cooldowns@, cooldown_entry_key());
            if has_key(self.cooldowns@, cooldown_entry_key(), key@) {
                let j = choose|j: int|
                    0 <= j < self.cooldowns@.len() && (cooldown_entry_key())(self.cooldowns@[j]) == key@;
            }
        }
        None
    }

    fn set_cooldown(&mut self, key: String, now: u64)
        ensures
            final(self).cooldowns() == old(self).cooldowns().insert(key@, now),
            final(self).rules() == old(self).rules(),
            final(self).rule_order() == old(self).rule_order(),
            final(self).next_seq() == old(self).next_seq(),
    {
        proof {
            use_type_invariant(&*self);
        }
        let ghost k = key@;
        let mut cds = Vec::new();
        std::mem::swap(&mut cds, &mut self.cooldowns);
        match find_cooldown(&cds, &key) {
            Some(i) => {
                proof {
                    lemma_map_of_update(cds@, cooldown_entry_key(), i as int, (key, now));
                }
                cds.set(i, (key, now));
            },
            None => {
                proof {
                    lemma_map_of_push(cds@, cooldown_entry_key(), (key, now));
                }
                cds.push((key, now));
            },
        }
        self.cooldowns = cds;
        assert(self.cooldowns() =~= old(self).cooldowns().insert(k, now));
    }

    /// Evaluate a process snapshot against every enabled rule at clock reading
    /// `now` (nanoseconds on the engine's monotonic clock). Each firing restarts
    /// the cooldown of its `{rule id}:{process name}` key and yields an event
    /// stamped `triggered_at`, with an id built from `id_nanos`.
    pub fn evaluate_at(
        &mut self,
        stats: &[ProcessStats],
        now: u64,
        triggered_at: i64,
        id_nanos: u128,
    ) -> (events: Vec<AlertEvent>)
        ensures
            evaluated(*old(self), *final(self), stats@, now, triggered_at, id_nanos, events@),
    {
        let ghost rules0 = self.rules@;
        let ghost cd0 = self.cooldowns();
        let ghost seq0 = self.next_seq;
        let mut events: Vec<AlertEvent> = Vec::new();
        let ghost mut st: EvalState = (cd0, Seq::empty());
        let mut i: usize = 0;
        while i < stats.len()
            invariant
                i <= stats.len(),
                self.rules@ == rules0,
                self.rules() == map_of(rules0, rule_key()),
                st == over_stats((cd0, Seq::empty()), rules0, stats@.take(i as int), now),
                self.cooldowns() == st.0,
                events_report(events@, st.1, triggered_at, id_nanos, seq0),
                self.next_seq == seq_after(seq0, events@.len() as int),
            decreases stats.len() - i,
        {
            let stat = &stats[i];
            let ghost st_i = st;
            let mut j: usize = 0;
            while j < self.rules.len()
                invariant
                    i < stats.len(),
                    stat == stats@[i as int],
                    j <= self.rules.len(),
                    self.rules@ == rules0,
                    self.rules() == map_of(rules0, rule_key()),
                    st == over_rules(st_i, rules0.take(j as int), *stat, now),
                    self.cooldowns() == st.0,
                    events_report(events@, st.1, triggered_at, id_nanos, seq0),
                    self.next_seq == seq_after(seq0, events@.len() as int),
                decreases self.rules.len() - j,
            {
                let rule = self.rules[j].clone();
                let ghost st_j = st;
                if rule.enabled && match_process(rule.process_name.as_str(), stat.name.as_str()) {
                    let rate = if rule.direction == 1 {
                        stat.download_rate
                    } else if rule.direction == 2 {
                        if stat.upload_rate >= stat.download_rate {
                            stat.upload_rate
                        } else {
                            stat.download_rate
                        }
                    } else {
                        stat.upload_rate
                    };
                    if !(rule.threshold <= ZERO_RATE_KEY || rate <= rule.threshold) {
                        let mut key = rule.id.clone();
                        push_char(&mut key, ':');
                        key.append(stat.name.as_str());
                        let cooldown_ns: u128 = if rule.cooldown_sec < 0 {
                            0
                        } else {
                            rule.cooldown_sec as u128 * 1_000_000_000
                        };
                        assert(key@ == cooldown_key(rule, *stat));
                        assert(rate == rule_rate(rule, *stat));
                        assert(cooldown_ns == cooldown_nanos(rule));
                        let in_cooldown = match self.cooldown_of(&key) {
                            Some(last) => {
                                let el: u64 = if now > last { now - last } else { 0 };
                                (el as u128) < cooldown_ns
                            },
                            None => false,
                        };
                        assert(in_cooldown == cooling(st.0, rule, *stat, now as nat));
                        if !in_cooldown {
                            self.set_cooldown(key, now);
                            let direction: i32 = if rule.direction == 1 {
                                1
                            } else if rule.direction == 2 {
                                if stat.upload_rate >= stat.download_rate { 0 } else { 1 }
                            } else {
                                0
                            };
                            let id = format_id(id_nanos, self.next_seq);
                            let ev = AlertEvent {
                                id,
                                rule_id: rule.id.clone(),
                                process_name: stat.name.clone(),
                                pid: stat.pid,
                                direction,
                                current_rate: rate,
                                threshold: rule.threshold,
                                triggered_at,
                            };
                            events.push(ev);
                            proof {
                                use_type_invariant(&*self);
                            }
                            self.next_seq = self.next_seq.wrapping_add(1);
                            proof {
                                st = step_rule(st, rule, *stat, now);
                            }
                        }
                    }
                }
                proof {
                    assert(rule == rules0[j as int]);
                    assert(rules0.take(j + 1).drop_last() == rules0.take(j as int));
                    assert(st == step_rule(st_j, rule, *stat, now));
                }
                j = j + 1;
            }
            proof {
                assert(rules0.take(rules0.len() as int) == rules0);
                assert(stats@.take(i + 1).drop_last() == stats@.take(i as int));
            }
            i = i + 1;
        }
        proof {
            assert(stats@.take(stats@.len() as int) == stats@);
        }
        events
    }

    /// Evaluate a process snapshot against every enabled rule now: the outcome
    /// is that of [`Engine::evaluate_at`] for the current clock readings.
    pub fn evaluate(&mut self, stats: &[ProcessStats]) -> (events: Vec<AlertEvent>)
        ensures
            exists|now: u64, t: i64, nanos: u128|
                #[trigger] evaluated(*old(self), *final(self), stats@, now, t, nanos, events@),
    {
        let now = ticks_since(&self.origin);
        let t = now_secs();
        let nanos = unix_nanos();
        self.evaluate_at(stats, now, t, nanos)
    }

    /// All rules (each once, in unspecified order).
    pub fn list_rules(&self) -> (r: Vec<Rule>)
        ensures
            r@.len() == self.rules().dom().len(),
            keys_distinct(r@, rule_key()),
            forall|i: int| 0 <= i < r@.len() ==> self.rules().contains_key(#[trigger] r@[i].id@)
                && self.rules()[r@[i].id@] == r@[i],
            forall|k: Seq<char>| #[trigger] self.rules().contains_key(k) ==> has_key(r@, rule_key(), k),
    {
        proof {
            use_type_invariant(self);
            lemma_map_of(self.rules@, rule_key());
            lemma_map_of_len(self.rules@, rule_key());
        }
        let mut out: Vec<Rule> = Vec::new();
        let mut i: usize = 0;
        while i < self.rules.len()
            invariant
                i <= self.rules.len(),
                out@ == self.rules@.take(i as int),
            decreases self.rules.len() - i,
        {
            out.push(self.rules[i].clone());
            assert(self.rules@.take(i + 1) == self.rules@.take(i as int).push(self.rules@[i as int]));
            i = i + 1;
        }
        assert(self.rules@.take(self.rules.len() as int) == self.rules@);
        out
    }
}

/// `events` report the firings of `fs`, carrying time `t` and ids built from
/// clock reading `nanos` and consecutive sequence numbers from `seq0`.
pub open spec fn events_report(
    events: Seq<AlertEvent>,
    fs: Seq<Firing>,
    t: i64,
    nanos: u128,
    seq0: u64,
) -> bool {
    &&& events.len() == fs.len()
    &&& forall|k: int|
        0 <= k < events.len() ==> {
            &&& event_reports(#[trigger] events[k], fs[k])
            &&& events[k].triggered_at == t
            &&& events[k].id@ == id_text(nanos as nat, seq_after(seq0, k) as nat)
        }
}

/// The outcome of one evaluation of `stats` at clock reading `now`.
pub open spec fn evaluated(
    before: Engine,
    after: Engine,
    stats: Seq<ProcessStats>,
    now: u64,
    t: i64,
    nanos: u128,
    events: Seq<AlertEvent>,
) -> bool {
    let st = over_stats((before.cooldowns(), Seq::empty()), before.rule_order(), stats, now);
    &&& after.rules() == before.rules()
    &&& after.rule_order() == before.rule_order()
    &&& after.cooldowns() == st.0
    &&& events_report(events, st.1, t, nanos, before.next_seq())
    &&& after.next_seq() == seq_after(before.next_seq(), events.len() as int)
}

fn find_cooldown(v: &Vec<(String, u64)>, key: &String) -> (r: Option<usize>)
    ensures
        match r {
            Some(i) => i < v.len() && v@[i as int].0@ == key@,
            None => !has_key(v@, cooldown_entry_key(), key@),
        },
{
    let mut i: usize = 0;
    while i < v.len()
        invariant
            i <= v.len(),
            forall|j: int| 0 <= j < i ==> v@[j].0@ != key@,
        decreases v.len() - i,
    {
        if v[i].0 == *key {
            return Some(i);
        }
        i = i + 1;
    }
    assert(!has_key(v@, cooldown_entry_key(), key@)) by {
        if has_key(v@, cooldown_entry_key(), key@) {
            let j = choose|j: int| 0 <= j < v@.len() && (cooldown_entry_key())(v@[j]) == key@;
        }
    }
    None
}

fn find_rule(v: &Vec<Rule>, id: &String) -> (r: Option<usize>)
    ensures
        match r {
            Some(i) => i < v.len() && v@[i as int].id@ == id@,
            None => !has_key(v@, rule_key(), id@),
        },
{
    let mut i: usize = 0;
    while i < v.len()
        invariant
            i <= v.len(),
            forall|j: int| 0 <= j < i ==> v@[j].id@ != id@,
        decreases v.len() - i,
    {
        if v[i].id == *id {
            return Some(i);
        }
        i = i + 1;
    }
    assert(!has_key(v@, rule_key(), id@)) by {
        if has_key(v@, rule_key(), id@) {
            let j = choose|j: int| 0 <= j < v@.len() && (rule_key())(v@[j]) == id@;
        }
    }
    None
}

/// `m` with every entry of `s` inserted in order.
pub open spec fn insert_all(m: Map<Seq<char>, Rule>, s: Seq<Rule>) -> Map<Seq<char>, Rule>
    decreases s.len(),
{
    if s.len() == 0 {
        m
    } else {
        insert_all(m, s.drop_last()).insert(s.last().id@, s.last())
    }
}


/// A rule that just fired for a process does not fire for it again before
/// its cooldown has passed.
pub proof fn cooldown_suppresses_refire(st: EvalState, rule: Rule, stat: ProcessStats, now: u64, later: u64)
    requires
        over_threshold(rule, stat),
        !cooling(st.0, rule, stat, now as nat),
        now <= later,
        later - now < cooldown_nanos(rule),
    ensures
        step_rule(st, rule, stat, now).1 == st.1.push(firing(rule, stat)),
        step_rule(step_rule(st, rule, stat, now), rule, stat, later) == step_rule(st, rule, stat, now),
{
}

/// Once its cooldown has passed, a rule still over its threshold fires again.
pub proof fn rule_fires_again_after_cooldown(st: EvalState, rule: Rule, stat: ProcessStats, now: u64, later: u64)
    requires
        over_threshold(rule, stat),
        !cooling(st.0, rule, stat, now as nat),
        now <= later,
        later - now >= cooldown_nanos(rule),
    ensures
        step_rule(step_rule(st, rule, stat, now), rule, stat, later).1 == st.1.push(firing(rule, stat)).push(
            firing(rule, stat),
        ),
{
}


proof fn lemma_over_rules_firings(st: EvalState, rules: Seq<Rule>, stat: ProcessStats, now: u64)
    ensures
        over_rules(st, rules, stat, now).1.len() >= st.1.len(),
        over_rules(st, rules, stat, now).1.take(st.1.len() as int) == st.1,
        forall|k: int|
            #![trigger over_rules(st, rules, stat, now).1[k]]
            st.1.len() <= k < over_rules(st, rules, stat, now).1.len() ==> exists|i: int|
                0 <= i < rules.len() && over_threshold(#[trigger] rules[i], stat)
                    && over_rules(st, rules, stat, now).1[k] == firing(rules[i], stat),
    decreases rules.len(),
{
    if rules.len() > 0 {
        let q = rules.drop_last();
        lemma_over_rules_firings(st, q, stat, now);
        let mid = over_rules(st, q, stat, now);
        let fin = over_rules(st, rules, stat, now);
        assert(fin == step_rule(mid, rules.last(), stat, now));
        if fin.1.len() > mid.1.len() {
            assert(fin.1 == mid.1.push(firing(rules.last(), stat)));
            assert(fin.1.take(st.1.len() as int) =~= mid.1.take(st.1.len() as int));
        }
        assert forall|k: int| #![trigger fin.1[k]] st.1.len() <= k < fin.1.len() implies exists|i: int|
            0 <= i < rules.len() && over_threshold(#[trigger] rules[i], stat) && fin.1[k] == firing(rules[i], stat) by {
            if k < mid.1.len() {
                let i = choose|i: int| 0 <= i < q.len() && over_threshold(#[trigger] q[i], stat) && mid.1[k] == firing(q[i], stat);
                assert(rules[i] == q[i]);
                assert(fin.1[k] == mid.1[k]);
            } else {
                assert(rules[rules.len() - 1] == rules.last());
            }
        }
    }
}

/// Alerts are sound: every event one evaluation reports is the firing of a
/// rule (enabled, matching the process, with a positive threshold the
/// watched rate exceeds) for one of the evaluated processes; earlier events
/// are kept as they were.
pub proof fn every_alert_is_a_rule_over_threshold(st: EvalState, rules: Seq<Rule>, stats: Seq<ProcessStats>, now: u64)
    ensures
        over_stats(st, rules, stats, now).1.len() >= st.1.len(),
        over_stats(st, rules, stats, now).1.take(st.1.len() as int) == st.1,
        forall|k: int|
            #![trigger over_stats(st, rules, stats, now).1[k]]
            st.1.len() <= k < over_stats(st, rules, stats, now).1.len() ==> exists|i: int, j: int|
                0 <= i < rules.len() && 0 <= j < stats.len() && over_threshold(#[trigger] rules[i], #[trigger] stats[j])
                    && over_stats(st, rules, stats, now).1[k] == firing(rules[i], stats[j]),
    decreases stats.len(),
{
    if stats.len() > 0 {
        let q = stats.drop_last();
        every_alert_is_a_rule_over_threshold(st, rules, q, now);
        let mid = over_stats(st, rules, q, now);
        let fin = over_stats(st, rules, stats, now);
        lemma_over_rules_firings(mid, rules, stats.last(), now);
        assert(fin == over_rules(mid, rules, stats.last(), now));
        assert(fin.1.take(st.1.len() as int) =~= fin.1.take(mid.1.len() as int).take(st.1.len() as int));
        assert forall|k: int| #![trigger fin.1[k]] st.1.len() <= k < fin.1.len() implies exists|i: int, j: int|
            0 <= i < rules.len() && 0 <= j < stats.len() && over_threshold(#[trigger] rules[i], #[trigger] stats[j])
                && fin.1[k] == firing(rules[i], stats[j]) by {
            if k < mid.1.len() {
                let (i, j) = choose|i: int, j: int|
                    0 <= i < rules.len() && 0 <= j < q.len() && over_threshold(#[trigger] rules[i], #[trigger] q[j])
                        && mid.1[k] == firing(rules[i], q[j]);
                assert(stats[j] == q[j]);
                assert(fin.1[k] == fin.1.take(mid.1.len() as int)[k]);
            } else {
                let i = choose|i: int| 0 <= i < rules.len() && over_threshold(#[trigger] rules[i], stats.last())
                    && fin.1[k] == firing(rules[i], stats.last());
                assert(stats[stats.len() - 1] == stats.last());
            }
        }
    }
}

/// `f` reports rule `r` firing for the process named `name`.
pub open spec fn fires_for(f: Firing, r: Rule, name: Seq<char>) -> bool {
    f.rule_id == r.id@ && f.process_name == name
}

/// How many of `fs` report rule `r` firing for process `name`.
pub open spec fn count_for(fs: Seq<Firing>, r: Rule, name: Seq<char>) -> nat
    decreases fs.len(),
{
    if fs.len() == 0 {
        0
    } else {
        count_for(fs.drop_last(), r, name) + if fires_for(fs.last(), r, name) { 1nat } else { 0nat }
    }
}

/// Successive evaluations, each of some processes at some clock reading,
/// starting from cooldown table `cd`, as [`Engine::evaluate_at`] runs them one
/// after the other: the final cooldown table and every firing reported, in
/// order.
pub open spec fn run_evals(
    cd: Map<Seq<char>, u64>,
    rules: Seq<Rule>,
    evals: Seq<(Seq<ProcessStats>, u64)>,
) -> (Map<Seq<char>, u64>, Seq<Firing>)
    decreases evals.len(),
{
    if evals.len() == 0 {
        (cd, Seq::empty())
    } else {
        let p = run_evals(cd, rules, evals.drop_last());
        let e = over_stats((p.0, Seq::empty()), rules, evals.last().0, evals.last().1);
        (e.0, p.1 + e.1)
    }
}

/// At most one firing of `r` for `name` so far (`base` of them before `st`),
/// and once there is one, the cooldown entry of that pair is stamped within
/// the window starting at `w`.
pub open spec fn window_inv(st: EvalState, base: nat, r: Rule, name: Seq<char>, w: nat) -> bool {
    let k = r.id@ + seq![':'] + name;
    &&& base + count_for(st.1, r, name) <= 1
    &&& base + count_for(st.1, r, name) >= 1 ==> st.0.contains_key(k) && st.0[k] as nat >= w
}

/// Each id in `rules` names the one rule `r`.
pub open spec fn id_names_only(rules: Seq<Rule>, r: Rule) -> bool {
    forall|i: int| 0 <= i < rules.len() && #[trigger] rules[i].id@ == r.id@ ==> rules[i] == r
}

proof fn lemma_count_push(fs: Seq<Firing>, f: Firing, r: Rule, name: Seq<char>)
    ensures
        count_for(fs.push(f), r, name) == count_for(fs, r, name) + if fires_for(f, r, name) { 1nat } else { 0nat },
{
    assert(fs.push(f).drop_last() =~= fs);
}

proof fn lemma_count_concat(a: Seq<Firing>, b: Seq<Firing>, r: Rule, name: Seq<char>)
    ensures
        count_for(a + b, r, name) == count_for(a, r, name) + count_for(b, r, name),
    decreases b.len(),
{
    if b.len() == 0 {
        assert(a + b =~= a);
    } else {
        lemma_count_concat(a, b.drop_last(), r, name);
        assert(a + b =~= (a + b.drop_last()).push(b.last()));
        lemma_count_push(a + b.drop_last(), b.last(), r, name);
    }
}

proof fn lemma_window_step(st: EvalState, base: nat, q: Rule, stat: ProcessStats, now: u64, r: Rule, name: Seq<char>, w: nat)
    requires
        window_inv(st, base, r, name, w),
        q.id@ == r.id@ ==> q == r,
        w <= now < w + cooldown_nanos(r),
    ensures
        window_inv(step_rule(st, q, stat, now), base, r, name, w),
{
    let k = r.id@ + seq![':'] + name;
    let st2 = step_rule(st, q, stat, now);
    if over_threshold(q, stat) && !cooling(st.0, q, stat, now as nat) {
        let f = firing(q, stat);
        lemma_count_push(st.1, f, r, name);
        if fires_for(f, r, name) {
            assert(q == r);
            assert(cooldown_key(q, stat) =~= k);
            assert(base + count_for(st.1, r, name) == 0);
        }
    }
}

proof fn lemma_window_rules(st: EvalState, base: nat, rules: Seq<Rule>, stat: ProcessStats, now: u64, r: Rule, name: Seq<char>, w: nat)
    requires
        window_inv(st, base, r, name, w),
        id_names_only(rules, r),
        w <= now < w + cooldown_nanos(r),
    ensures
        window_inv(over_rules(st, rules, stat, now), base, r, name, w),
    decreases rules.len(),
{
    if rules.len() > 0 {
        let q = rules.drop_last();
        assert forall|i: int| 0 <= i < q.len() && #[trigger] q[i].id@ == r.id@ implies q[i] == r by {
            assert(q[i] == rules[i]);
        }
        lemma_window_rules(st, base, q, stat, now, r, name, w);
        assert(rules.last() == rules[rules.len() - 1]);
        lemma_window_step(over_rules(st, q, stat, now), base, rules.last(), stat, now, r, name, w);
    }
}

proof fn lemma_window_stats(st: EvalState, base: nat, rules: Seq<Rule>, stats: Seq<ProcessStats>, now: u64, r: Rule, name: Seq<char>, w: nat)
    requires
        window_inv(st, base, r, name, w),
        id_names_only(rules, r),
        w <= now < w + cooldown_nanos(r),
    ensures
        window_inv(over_stats(st, rules, stats, now), base, r, name, w),
    decreases stats.len(),
{
    if stats.len() > 0 {
        lemma_window_stats(st, base, rules, stats.drop_last(), now, r, name, w);
        lemma_window_rules(over_stats(st, rules, stats.drop_last(), now), base, rules, stats.last(), now, r, name, w);
    }
}

proof fn lemma_window_run(cd: Map<Seq<char>, u64>, rules: Seq<Rule>, evals: Seq<(Seq<ProcessStats>, u64)>, r: Rule, name: Seq<char>, w: nat)
    requires
        id_names_only(rules, r),
        forall|i: int| 0 <= i < evals.len() ==> w <= #[trigger] evals[i].1 < w + cooldown_nanos(r),
    ensures
        window_inv(run_evals(cd, rules, evals), 0, r, name, w),
    decreases evals.len(),
{
    if evals.len() > 0 {
        let q = evals.drop_last();
        assert forall|i: int| 0 <= i < q.len() implies w <= #[trigger] q[i].1 < w + cooldown_nanos(r) by {
            assert(q[i] == evals[i]);
        }
        lemma_window_run(cd, rules, q, r, name, w);
        let p = run_evals(cd, rules, q);
        let last = evals.last();
        assert(last == evals[evals.len() - 1]);
        let base = count_for(p.1, r, name);
        assert(count_for(Seq::<Firing>::empty(), r, name) == 0);
        assert(window_inv((p.0, Seq::empty()), base, r, name, w));
        lemma_window_stats((p.0, Seq::empty()), base, rules, last.0, last.1, r, name, w);
        let e = over_stats((p.0, Seq::empty()), rules, last.0, last.1);
        lemma_count_concat(p.1, e.1, r, name);
    }
}

/// A rule alerts at most once per process name within its cooldown: over
/// any number of successive evaluations whose clock readings all lie in one
/// window as long as the rule's cooldown, the rule fires at most once for
/// each process name (also when several processes share the name), whatever
/// the cooldown table before.
pub proof fn one_alert_per_cooldown_window(
    cd: Map<Seq<char>, u64>,
    rules: Seq<Rule>,
    evals: Seq<(Seq<ProcessStats>, u64)>,
    r: Rule,
    name: Seq<char>,
    w: nat,
)
    requires
        id_names_only(rules, r),
        forall|i: int| 0 <= i < evals.len() ==> w <= #[trigger] evals[i].1 < w + cooldown_nanos(r),
    ensures
        count_for(run_evals(cd, rules, evals).1, r, name) <= 1,
{
    lemma_window_run(cd, rules, evals, r, name, w);
}

} // verus!
