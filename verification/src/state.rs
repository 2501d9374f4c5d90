//! The application's shared state and the decision of whether the packet
//! capture engine should run, and for which processes.

use vstd::prelude::*;
use crate::aggregator::Aggregator;
use crate::alert::Engine;
use crate::firewall::FirewallTable;
use crate::models::Policy;
use crate::packet::PortPidMap;
use crate::process::Resolver;
use crate::text::views_of;
use crate::throttle::ThrottleTable;

verus! {

/// The shortest emit cadence, in milliseconds.
pub const MIN_REFRESH_MS: u64 = 100;

/// What to do with the packet capture engine after the policies changed.
#[derive(Debug)]
pub enum CaptureAction {
    /// Leave the engine as it is (monitoring is off, or nothing to capture
    /// and no engine running).
    Keep,
    /// Hand the running engine a new list of target processes.
    UpdateTargets(Vec<String>),
    /// Start an engine for these target processes.
    Start(Vec<String>),
    /// Stop the running engine: no policy limits anything.
    Stop,
}

/// Process names of the policies that actually limit something (active, with
/// a non-zero rate), in the order the policies come.
pub open spec fn capture_targets(ps: Seq<Policy>) -> Seq<Seq<char>>
    decreases ps.len(),
{
    if ps.len() == 0 {
        Seq::empty()
    } else {
        let rest = capture_targets(ps.drop_last());
        let p = ps.last();
        if p.active && p.rate_limit_bps > 0 {
            rest.push(p.process_name@)
        } else {
            rest
        }
    }
}

/// The decision for the capture engine: nothing while monitoring is off;
/// otherwise update or start it when some policy limits a process, and stop
/// a running engine when none does.
pub open spec fn capture_decision(running: bool, policies: Seq<Policy>, engine_running: bool, a: CaptureAction) -> bool {
    let targets = capture_targets(policies);
    if !running {
        a is Keep
    } else if targets.len() > 0 {
        if engine_running {
            a matches CaptureAction::UpdateTargets(t) && views_of(t@) == targets
        } else {
            a matches CaptureAction::Start(t) && views_of(t@) == targets
        }
    } else if engine_running {
        a is Stop
    } else {
        a is Keep
    }
}

/// Shared application state: the verified tables and engines, the emit
/// cadence and whether live monitoring is on.
pub struct AppState {
    /// Per-process byte counters.
    pub aggregator: Aggregator,
    /// Runtime throttle table (token buckets keyed by PID).
    pub throttle: ThrottleTable,
    /// Alert rule engine.
    pub alert: Engine,
    /// Runtime firewall rules.
    pub firewall: FirewallTable,
    /// Socket -> PID mapping used by the packet engine.
    pub port_map: PortPidMap,
    /// Process metadata resolver.
    pub resolver: Resolver,
    /// Emit cadence in milliseconds.
    pub refresh_interval: u64,
    /// Whether live monitoring is currently active.
    pub running: bool,
}

fn policy_targets(policies: &Vec<Policy>) -> (t: Vec<String>)
    ensures
        views_of(t@) == capture_targets(policies@),
{
    let mut t: Vec<String> = Vec::new();
    let mut i: usize = 0;
    while i < policies.len()
        invariant
            i <= policies.len(),
            views_of(t@) == capture_targets(policies@.take(i as int)),
        decreases policies.len() - i,
    {
        let p = &policies[i];
        assert(policies@.take(i + 1).drop_last() =~= policies@.take(i as int));
        if p.active && p.rate_limit_bps > 0 {
            let name = p.process_name.clone();
            t.push(name);
            assert(views_of(t@) =~= capture_targets(policies@.take(i as int)).push(p.process_name@));
        }
        i = i + 1;
    }
    assert(policies@.take(i as int) =~= policies@);
    t
}

impl AppState {
    /// Fresh state: empty tables, monitoring off, the given cadence.
    pub fn new(refresh_interval: u64) -> (s: Self)
        ensures
            !s.running,
            s.refresh_interval == refresh_interval,
            s.aggregator.counters() == Map::<u32, crate::aggregator::ProcessAccumulator>::empty(),
            s.throttle.policies() == Map::<Seq<char>, Policy>::empty(),
            s.alert.rules() == Map::<Seq<char>, crate::models::Rule>::empty(),
            s.firewall@ == Map::<Seq<char>, crate::models::FirewallRule>::empty(),
            s.port_map.rows().len() == 0,
            s.resolver.cache() == Map::<u32, crate::process::Info>::empty(),
    {
        AppState {
            aggregator: Aggregator::new(),
            throttle: ThrottleTable::new(),
            alert: Engine::new(),
            firewall: FirewallTable::new(),
            port_map: PortPidMap::new(),
            resolver: Resolver::new(),
            refresh_interval,
            running: false,
        }
    }

    pub fn is_running(&self) -> (r: bool)
        ensures
            r == self.running,
    {
        self.running
    }

    pub fn set_running(&mut self, v: bool)
        ensures
            final(self).running == v,
            final(self).refresh_interval == old(self).refresh_interval,
            final(self).aggregator == old(self).aggregator,
            final(self).throttle == old(self).throttle,
            final(self).alert == old(self).alert,
            final(self).firewall == old(self).firewall,
            final(self).port_map == old(self).port_map,
            final(self).resolver == old(self).resolver,
    {
        self.running = v;
    }

    /// The emit cadence, never below [`MIN_REFRESH_MS`].
    pub fn refresh_ms(&self) -> (r: u64)
        ensures
            r == if self.refresh_interval < MIN_REFRESH_MS { MIN_REFRESH_MS } else { self.refresh_interval },
    {
        if self.refresh_interval < MIN_REFRESH_MS {
            MIN_REFRESH_MS
        } else {
            self.refresh_interval
        }
    }

    /// Store a new cadence, raised to at least [`MIN_REFRESH_MS`]; returns the
    /// value stored (the one to persist).
    pub fn set_refresh_interval(&mut self, ms: u64) -> (stored: u64)
        ensures
            stored == if ms < MIN_REFRESH_MS { MIN_REFRESH_MS } else { ms },
            final(self).refresh_interval == stored,
            final(self).running == old(self).running,
            final(self).aggregator == old(self).aggregator,
            final(self).throttle == old(self).throttle,
            final(self).alert == old(self).alert,
            final(self).firewall == old(self).firewall,
            final(self).port_map == old(self).port_map,
            final(self).resolver == old(self).resolver,
    {
        let v = if ms < MIN_REFRESH_MS { MIN_REFRESH_MS } else { ms };
        self.refresh_interval = v;
        v
    }

    /// What to do with the capture engine, given the persisted policies and
    /// whether an engine is running: it captures only while monitoring is on
    /// and some policy limits a process, and only those processes.
    pub fn sync_windivert_state(&self, policies: &Vec<Policy>, engine_running: bool) -> (a: CaptureAction)
        ensures
            capture_decision(self.running, policies@, engine_running, a),
    {
        if !self.running {
            return CaptureAction::Keep;
        }
        let targets = policy_targets(policies);
        if targets.len() > 0 {
            if engine_running {
                CaptureAction::UpdateTargets(targets)
            } else {
                CaptureAction::Start(targets)
            }
        } else if engine_running {
            CaptureAction::Stop
        } else {
            CaptureAction::Keep
        }
    }
}


/// The capture engine targets exactly the processes that some active policy
/// with a non-zero rate limits: every target is such a policy's process,
/// and every such policy's process is a target.
pub proof fn capture_targets_are_limited_processes(ps: Seq<Policy>)
    ensures
        forall|i: int|
            0 <= i < capture_targets(ps).len() ==> exists|j: int|
                0 <= j < ps.len() && ps[j].active && ps[j].rate_limit_bps > 0
                    && #[trigger] capture_targets(ps)[i] == ps[j].process_name@,
        forall|j: int|
            0 <= j < ps.len() && ps[j].active && ps[j].rate_limit_bps > 0 ==> capture_targets(
                ps,
            ).contains(#[trigger] ps[j].process_name@),
    decreases ps.len(),
{
    if ps.len() > 0 {
        let q = ps.drop_last();
        capture_targets_are_limited_processes(q);
        let t = capture_targets(ps);
        let tq = capture_targets(q);
        assert forall|i: int| 0 <= i < t.len() implies exists|j: int|
            0 <= j < ps.len() && ps[j].active && ps[j].rate_limit_bps > 0
                && #[trigger] t[i] == ps[j].process_name@ by {
            if i < tq.len() {
                assert(t[i] == tq[i]);
                let j = choose|j: int|
                    0 <= j < q.len() && q[j].active && q[j].rate_limit_bps > 0
                        && #[trigger] tq[i] == q[j].process_name@;
                assert(ps[j] == q[j]);
            } else {
                assert(ps[ps.len() - 1] == ps.last());
            }
        }
        assert forall|j: int| 0 <= j < ps.len() && ps[j].active && ps[j].rate_limit_bps > 0 implies t.contains(
            #[trigger] ps[j].process_name@,
        ) by {
            if j < q.len() {
                assert(q[j] == ps[j]);
                assert(tq.contains(q[j].process_name@));
                let k = choose|k: int| 0 <= k < tq.len() && tq[k] == q[j].process_name@;
                assert(t[k] == tq[k]);
            } else {
                assert(t[t.len() - 1] == ps.last().process_name@);
            }
        }
    }
}

} // verus!
