//! Data contracts shared by the verified core and the desktop shell.
//!
//! Rates and thresholds (bytes per second) are `f64` in the shell. The core
//! carries each of them as its *rate key*: the monotone `u64` encoding of a
//! non-NaN `f64` (the shell computes it from the float's bits, flipping all
//! bits of negative values and the sign bit of the others). For non-NaN values
//! `a <= b` holds exactly when `key(a) <= key(b)`, so every comparison the
//! engine makes on keys is the comparison the shell would make on floats, and
//! the shell turns keys back into the very same floats.

use vstd::prelude::*;
use crate::clock::unix_nanos;
use crate::fmt::{decimal, push_decimal};
use crate::text::push_char;
use crate::settings::{decimal_reads_back, is_ascii_digit, lemma_decimal_digits};

verus! {

/// The rate key of `0.0`.
pub const ZERO_RATE_KEY: u64 = 0x8000_0000_0000_0000;

/// A single process's network statistics snapshot (rates as rate keys).
#[derive(Debug)]
pub struct ProcessStats {
    pub pid: u32,
    pub name: String,
    pub path: String,
    pub icon_b64: String,
    pub upload_rate: u64,
    pub download_rate: u64,
    pub total_upload: u64,
    pub total_download: u64,
}

/// A user-defined alert rule (threshold on a process's send/recv rate).
#[derive(Debug)]
pub struct Rule {
    pub id: String,
    pub name: String,
    pub process_name: String,
    /// Rate key of the threshold (bytes/sec).
    pub threshold: u64,
    /// 0 = Upload, 1 = Download, 2 = Both
    pub direction: i32,
    pub cooldown_sec: i64,
    pub enabled: bool,
    pub created_at: i64,
}

impl Clone for Rule {
    fn clone(&self) -> (r: Self)
        ensures
            r == *self,
    {
        Rule {
            id: self.id.clone(),
            name: self.name.clone(),
            process_name: self.process_name.clone(),
            threshold: self.threshold,
            direction: self.direction,
            cooldown_sec: self.cooldown_sec,
            enabled: self.enabled,
            created_at: self.created_at,
        }
    }
}

/// An emitted alert event (a rule fired).
#[derive(Debug)]
pub struct AlertEvent {
    pub id: String,
    pub rule_id: String,
    pub process_name: String,
    pub pid: u32,
    /// 0 = Upload, 1 = Download
    pub direction: i32,
    /// Rate key of the rate that crossed the threshold.
    pub current_rate: u64,
    /// Rate key of the rule's threshold.
    pub threshold: u64,
    pub triggered_at: i64,
}

/// A firewall block rule applied to a process.
#[derive(Debug)]
pub struct FirewallRule {
    pub id: String,
    pub name: String,
    pub process_name: String,
    pub active: bool,
    pub created_at: i64,
}

impl Clone for FirewallRule {
    fn clone(&self) -> (r: Self)
        ensures
            r == *self,
    {
        FirewallRule {
            id: self.id.clone(),
            name: self.name.clone(),
            process_name: self.process_name.clone(),
            active: self.active,
            created_at: self.created_at,
        }
    }
}

/// A throttle (rate-limit) policy for a process.
#[derive(Debug)]
pub struct Policy {
    pub id: String,
    pub name: String,
    /// Executable name (e.g. `chrome.exe`).
    pub process_name: String,
    /// Limit in bits/sec; 0 means unlimited.
    pub rate_limit_bps: u64,
    pub limit_upload: bool,
    pub limit_download: bool,
    pub active: bool,
    pub created_at: i64,
}

impl Clone for Policy {
    fn clone(&self) -> (r: Self)
        ensures
            r == *self,
    {
        Policy {
            id: self.id.clone(),
            name: self.name.clone(),
            process_name: self.process_name.clone(),
            rate_limit_bps: self.rate_limit_bps,
            limit_upload: self.limit_upload,
            limit_download: self.limit_download,
            active: self.active,
            created_at: self.created_at,
        }
    }
}

/// Filter for querying the alert history.
#[derive(Debug)]
pub struct AlertHistoryFilter {
    pub rule_id: Option<String>,
    pub since: Option<i64>,
    pub limit: Option<usize>,
}

impl Default for AlertHistoryFilter {
    fn default() -> (r: Self)
        ensures
            r.rule_id is None,
            r.since is None,
            r.limit is None,
    {
        AlertHistoryFilter { rule_id: None, since: None, limit: None }
    }
}

/// Traffic direction (used internally for traffic filtering and alerts).
#[derive(Debug, Clone, Copy, PartialEq, Eq, Hash, Structural)]
pub enum Direction {
    Send,
    Recv,
}

impl Direction {
    /// Whether a policy limits traffic in this direction.
    pub open spec fn spec_matches_policy(self, p: Policy) -> bool {
        match self {
            Direction::Send => p.limit_upload,
            Direction::Recv => p.limit_download,
        }
    }

    pub fn matches_policy(&self, p: &Policy) -> (r: bool)
        ensures
            r == self.spec_matches_policy(*p),
    {
        match self {
            Direction::Send => p.limit_upload,
            Direction::Recv => p.limit_download,
        }
    }
}

/// Coarse process classification.
#[derive(Debug, Clone, Copy, PartialEq, Eq, Structural)]
pub enum ProcessCategory {
    Kernel,
    WindowsService,
    UserApp,
}

impl Default for ProcessCategory {
    fn default() -> (r: Self)
        ensures
            r == ProcessCategory::UserApp,
    {
        ProcessCategory::UserApp
    }
}

/// Local error type: a single message string.
#[derive(Debug)]
pub struct Error(pub String);

impl Error {
    pub fn new(msg: &str) -> (r: Self)
        ensures
            r.0@ == msg@,
    {
        Error(msg.to_owned())
    }

    /// The message carried by the error.
    pub fn message(&self) -> (r: String)
        ensures
            r@ == self.0@,
    {
        self.0.clone()
    }
}

/// The id `new_id` builds from a clock reading and a sequence number:
/// `{nanos}-{seq}`.
pub open spec fn id_text(nanos: nat, seq: nat) -> Seq<char> {
    decimal(nanos) + seq!['-'] + decimal(seq)
}

/// `{nanos}-{seq}` for the given clock reading and sequence number.
pub fn format_id(nanos: u128, seq: u64) -> (r: String)
    ensures
        r@ == id_text(nanos as nat, seq as nat),
{
    let mut s = String::new();
    push_decimal(&mut s, nanos);
    push_char(&mut s, '-');
    push_decimal(&mut s, seq as u128);
    s
}

/// A best-effort unique id (nanosecond-precise timestamp + counter suffix):
/// reads the wall clock and renders `{nanos}-{seq}`.
pub fn new_id(seq: u64) -> (r: String)
    ensures
        exists|nanos: nat| r@ == id_text(nanos, seq as nat),
{
    let nanos = unix_nanos();
    format_id(nanos, seq)
}

/// Ids are distinct for distinct sequence numbers, whatever the clock
/// readings: `{nanos}-{seq}` gives back both of its numbers, so two ids are
/// equal only when both their clock readings and sequence numbers are.
pub proof fn distinct_sequence_numbers_give_distinct_ids(n1: nat, s1: nat, n2: nat, s2: nat)
    ensures
        id_text(n1, s1) == id_text(n2, s2) ==> n1 == n2 && s1 == s2,
        s1 != s2 ==> id_text(n1, s1) != id_text(n2, s2),
{
    if id_text(n1, s1) == id_text(n2, s2) {
        let x = id_text(n1, s1);
        let a = decimal(n1);
        let b = decimal(n2);
        lemma_decimal_digits(n1);
        lemma_decimal_digits(n2);
        assert(x[a.len() as int] == '-');
        assert(id_text(n2, s2)[b.len() as int] == '-');
        if a.len() < b.len() {
            assert(x[a.len() as int] == b[a.len() as int]);
            assert(is_ascii_digit(b[a.len() as int]));
        } else if b.len() < a.len() {
            assert(x[b.len() as int] == a[b.len() as int]);
            assert(is_ascii_digit(a[b.len() as int]));
        }
        assert(a.len() == b.len());
        assert(a =~= x.subrange(0, a.len() as int));
        assert(b =~= id_text(n2, s2).subrange(0, b.len() as int));
        assert(decimal(s1) =~= x.skip(a.len() + 1int));
        assert(decimal(s2) =~= id_text(n2, s2).skip(b.len() + 1int));
        decimal_reads_back(n1);
        decimal_reads_back(n2);
        decimal_reads_back(s1);
        decimal_reads_back(s2);
    }
}

/// An id is two runs of decimal digits joined by one `-`: the clock reading,
/// then the sequence number.
pub proof fn ids_are_digits_dash_digits(nanos: nat, seq: nat)
    ensures
        ({
            let t = id_text(nanos, seq);
            let k = decimal(nanos).len() as int;
            &&& 0 < k < t.len() - 1
            &&& t[k] == '-'
            &&& forall|i: int| 0 <= i < t.len() && i != k ==> is_ascii_digit(#[trigger] t[i])
        }),
{
    lemma_decimal_digits(nanos);
    lemma_decimal_digits(seq);
    let t = id_text(nanos, seq);
    let a = decimal(nanos);
    let b = decimal(seq);
    assert forall|i: int| 0 <= i < t.len() && i != a.len() implies is_ascii_digit(#[trigger] t[i]) by {
        if i < a.len() {
            assert(t[i] == a[i]);
        } else {
            assert(t[i] == b[i - a.len() - 1]);
        }
    }
}

} // verus!
