//! Persistence contracts and the alert-history query.
//!
//! The SQLite-backed implementations of these traits live with the desktop
//! shell; the query text and its bound arguments are built here.

use vstd::prelude::*;
use crate::fmt::{decimal, signed_decimal, signed_decimal_string, push_decimal};
use crate::models::{AlertEvent, AlertHistoryFilter, Error, Policy, Rule};
use crate::text::{append, views_of};

verus! {

/// Persistence contract for alert rules and events.
pub trait AlertStore {
    fn save_rule(&self, rule: &Rule) -> Result<(), Error>;

    fn delete_rule(&self, id: &str) -> Result<(), Error>;

    fn list_rules(&self) -> Result<Vec<Rule>, Error>;

    fn save_alert_event(&self, ev: &AlertEvent) -> Result<(), Error>;

    fn list_alert_events(&self, f: &AlertHistoryFilter) -> Result<Vec<AlertEvent>, Error>;
}

/// Persistence contract for throttle policies.
pub trait ThrottleStore {
    fn save_policy(&self, p: &Policy) -> Result<(), Error>;

    fn delete_policy(&self, id: &str) -> Result<(), Error>;

    fn list_policies(&self) -> Result<Vec<Policy>, Error>;
}

/// Persistence contract for the key-value config table.
pub trait ConfigStore {
    fn config_get(&self, key: &str) -> Result<Option<String>, Error>;

    fn config_set(&self, key: &str, value: &str) -> Result<(), Error>;
}

pub open spec fn history_select() -> Seq<char> {
    "SELECT id, rule_id, process_name, pid, direction, current_rate, threshold, triggered_at FROM alert_events WHERE 1=1"@
}

/// The SQL of the alert-history query for `f`: all events, narrowed to one
/// rule and to events at or after `since` where those are given, newest
/// first, at most `limit` of them where a limit is given.
pub open spec fn history_sql(f: AlertHistoryFilter) -> Seq<char> {
    history_select() + (if f.rule_id is Some {
        " AND rule_id = ?"@
    } else {
        Seq::empty()
    }) + (if f.since is Some {
        " AND triggered_at >= ?"@
    } else {
        Seq::empty()
    }) + " ORDER BY triggered_at DESC"@ + (match f.limit {
        Some(n) => " LIMIT "@ + decimal(n as nat),
        None => Seq::empty(),
    })
}

/// The values bound to the query's placeholders, in order.
pub open spec fn history_args(f: AlertHistoryFilter) -> Seq<Seq<char>> {
    (match f.rule_id {
        Some(r) => seq![r@],
        None => Seq::empty(),
    }) + (match f.since {
        Some(t) => seq![signed_decimal(t as int)],
        None => Seq::empty(),
    })
}

/// The alert-history query for `f` and its bound arguments.
pub fn history_query(f: &AlertHistoryFilter) -> (r: (String, Vec<String>))
    ensures
        r.0@ == history_sql(*f),
        views_of(r.1@) == history_args(*f),
{
    let mut sql = "SELECT id, rule_id, process_name, pid, direction, current_rate, threshold, triggered_at FROM alert_events WHERE 1=1".to_owned();
    let mut args: Vec<String> = Vec::new();
    let ghost s0 = sql@;
    match &f.rule_id {
        Some(rid) => {
            append(&mut sql, " AND rule_id = ?");
            args.push(rid.clone());
        },
        None => {},
    }
    let ghost s1 = sql@;
    let ghost a1 = views_of(args@);
    match f.since {
        Some(since) => {
            append(&mut sql, " AND triggered_at >= ?");
            args.push(signed_decimal_string(since));
        },
        None => {},
    }
    let ghost s2 = sql@;
    append(&mut sql, " ORDER BY triggered_at DESC");
    let ghost s3 = sql@;
    match f.limit {
        Some(lim) => {
            append(&mut sql, " LIMIT ");
            push_decimal(&mut sql, lim as u128);
        },
        None => {},
    }
    proof {
        assert(a1 =~= match f.rule_id {
            Some(r) => seq![r@],
            None => Seq::<Seq<char>>::empty(),
        });
        assert(views_of(args@) =~= history_args(*f));
        assert(s1 =~= history_select() + (if f.rule_id is Some {
            " AND rule_id = ?"@
        } else {
            Seq::empty()
        }));
        assert(s2 =~= s1 + (if f.since is Some {
            " AND triggered_at >= ?"@
        } else {
            Seq::empty()
        }));
        assert(sql@ =~= s3 + (match f.limit {
            Some(n) => " LIMIT "@ + decimal(n as nat),
            None => Seq::empty(),
        }));
    }
    (sql, args)
}

} // verus!
