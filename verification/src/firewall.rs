//! In-memory table of firewall rules for process network control.

use vstd::prelude::*;
use crate::keyed::{map_of, keys_distinct, has_key, lemma_map_of, lemma_map_of_update,
    lemma_map_of_push, lemma_map_of_remove, lemma_map_of_len};
use crate::models::FirewallRule;
use crate::text::{lowercase, lower_chars, same_program, same_program_chars};

verus! {

pub open spec fn fw_key() -> spec_fn(FirewallRule) -> Seq<char> {
    |r: FirewallRule| r.id@
}

/// A firewall rule that is active and names the same program as `name`
/// (case-insensitively, ignoring a `.exe` difference).
pub open spec fn fw_rule_names(r: FirewallRule, name: Seq<char>) -> bool {
    r.active && same_program(lowercase(r.process_name@), lowercase(name))
}

/// `m` with the active rules of `s` inserted in order.
pub open spec fn insert_active_rules(m: Map<Seq<char>, FirewallRule>, s: Seq<FirewallRule>) -> Map<Seq<char>, FirewallRule>
    decreases s.len(),
{
    if s.len() == 0 {
        m
    } else {
        let rest = insert_active_rules(m, s.drop_last());
        if s.last().active {
            rest.insert(s.last().id@, s.last())
        } else {
            rest
        }
    }
}

/// In-memory table managing firewall rules for processes, keyed by rule id.
pub struct FirewallTable {
    rules: Vec<FirewallRule>,
}

impl View for FirewallTable {
    type V = Map<Seq<char>, FirewallRule>;

    closed spec fn view(&self) -> Map<Seq<char>, FirewallRule> {
        map_of(self.rules@, fw_key())
    }
}

impl FirewallTable {
    #[verifier::type_invariant]
    closed spec fn inv(self) -> bool {
        keys_distinct(self.rules@, fw_key())
    }

    pub fn new() -> (t: Self)
        ensures
            t@ == Map::<Seq<char>, FirewallRule>::empty(),
    {
        FirewallTable { rules: Vec::new() }
    }

    fn position(&self, id: &String) -> (r: Option<usize>)
        ensures
            match r {
                Some(i) => i < self.rules.len() && self.rules@[i as int].id@ == id@,
                None => !has_key(self.rules@, fw_key(), id@),
            },
    {
        let mut i: usize = 0;
        while i < self.rules.len()
            invariant
                i <= self.rules.len(),
                forall|j: int| 0 <= j < i ==> self.rules@[j].id@ != id@,
            decreases self.rules.len() - i,
        {
            if self.rules[i].id == *id {
                return Some(i);
            }
            i = i + 1;
        }
        assert(!has_key(self.rules@, fw_key(), id@)) by {
            if has_key(self.rules@, fw_key(), id@) {
                let j = choose|j: int|
                    0 <= j < self.rules@.len() && (fw_key())(self.rules@[j]) == id@;
            }
        }
        None
    }

    /// Apply every active rule of `list`, in order (loading persisted rules
    /// at startup).
    pub fn load_active_rules(&mut self, list: Vec<FirewallRule>)
        ensures
            final(self)@ == insert_active_rules(old(self)@, list@),
    {
        let mut i: usize = 0;
        while i < list.len()
            invariant
                i <= list.len(),
                self@ == insert_active_rules(old(self)@, list@.take(i as int)),
            decreases list.len() - i,
        {
            assert(list@.take(i + 1).drop_last() == list@.take(i as int));
            if list[i].active {
                self.apply_rule(list[i].clone());
            }
            i = i + 1;
        }
        assert(list@.take(list.len() as int) == list@);
    }

    /// Store or update a firewall rule.
    pub fn apply_rule(&mut self, rule: FirewallRule)
        ensures
            final(self)@ == old(self)@.insert(rule.id@, rule),
    {
        proof {
            use_type_invariant(&*self);
        }
        match self.position(&rule.id) {
            Some(i) => {
                proof {
                    lemma_map_of_update(self.rules@, fw_key(), i as int, rule);
                }
                let mut rules = Vec::new();
                std::mem::swap(&mut rules, &mut self.rules);
                rules.set(i, rule);
                self.rules = rules;
            },
            None => {
                proof {
                    lemma_map_of_push(self.rules@, fw_key(), rule);
                }
                let mut rules = Vec::new();
                std::mem::swap(&mut rules, &mut self.rules);
                rules.push(rule);
                self.rules = rules;
            },
        }
    }

    /// Lookup an active rule by process name (case-insensitive, ignores `.exe`
    /// difference). Which of several matching rules comes back is unspecified.
    pub fn rule_for_name(&self, name: &str) -> (r: Option<FirewallRule>)
        ensures
            match r {
                Some(x) => self@.contains_key(x.id@) && self@[x.id@] == x && fw_rule_names(
                    x,
                    name@,
                ),
                None => forall|k: Seq<char>|
                    #[trigger] self@.contains_key(k) ==> !fw_rule_names(self@[k], name@),
            },
    {
        proof {
            use_type_invariant(self);
            lemma_map_of(self.rules@, fw_key());
        }
        let name_lower = lower_chars(name);
        let mut i: usize = 0;
        while i < self.rules.len()
            invariant
                i <= self.rules.len(),
                name_lower@ == lowercase(name@),
                forall|j: int| 0 <= j < i ==> !fw_rule_names(#[trigger] self.rules@[j], name@),
            decreases self.rules.len() - i,
        {
            let r = &self.rules[i];
            if r.active {
                let pn = lower_chars(r.process_name.as_str());
                if same_program_chars(&pn, &name_lower) {
                    proof {
                        use_type_invariant(self);
                        lemma_map_of(self.rules@, fw_key());
                        assert(map_of(self.rules@, fw_key())[(fw_key())(self.rules@[i as int])]
                            == self.rules@[i as int]);
                        assert(has_key(self.rules@, fw_key(), r.id@));
                    }
                    return Some(r.clone());
                }
            }
            i = i + 1;
        }
        assert forall|k: Seq<char>| #[trigger] self@.contains_key(k) implies !fw_rule_names(
            self@[k],
            name@,
        ) by {
            let j = choose|j: int| 0 <= j < self.rules@.len() && (fw_key())(self.rules@[j]) == k;
            assert(map_of(self.rules@, fw_key())[(fw_key())(self.rules@[j])] == self.rules@[j]);
        }
        None
    }

    /// Remove a rule by ID.
    pub fn remove_rule(&mut self, id: &str)
        ensures
            final(self)@ == old(self)@.remove(id@),
    {
        proof {
            use_type_invariant(&*self);
            lemma_map_of(self.rules@, fw_key());
        }
        let key = id.to_owned();
        match self.position(&key) {
            Some(i) => {
                proof {
                    lemma_map_of_remove(self.rules@, fw_key(), i as int);
                }
                let mut rules = Vec::new();
                std::mem::swap(&mut rules, &mut self.rules);
                rules.remove(i);
                self.rules = rules;
            },
            None => {
                assert(old(self)@.remove(id@) =~= old(self)@);
            },
        }
    }

    /// List all stored rules (each once, in unspecified order).
    pub fn list_rules(&self) -> (r: Vec<FirewallRule>)
        ensures
            r@.len() == self@.dom().len(),
            keys_distinct(r@, fw_key()),
            forall|i: int| 0 <= i < r@.len() ==> self@.contains_key(#[trigger] r@[i].id@)
                && self@[r@[i].id@] == r@[i],
            forall|k: Seq<char>| #[trigger] self@.contains_key(k) ==> has_key(r@, fw_key(), k),
    {
        proof {
            use_type_invariant(self);
            lemma_map_of(self.rules@, fw_key());
        }
        let mut out: Vec<FirewallRule> = Vec::new();
        let mut i: usize = 0;
        while i < self.rules.len()
            invariant
                i <= self.rules.len(),
                out@ == self.rules@.take(i as int),
            decreases self.rules.len() - i,
        {
            out.push(self.rules[i].clone());
            assert(self.rules@.take(i + 1) == self.rules@.take(i as int).push(self.rules@[i as int]));
            i = i + 1;
        }
        assert(self.rules@.take(self.rules.len() as int) == self.rules@);
        proof {
            lemma_map_of_len(self.rules@, fw_key());
        }
        out
    }
}

impl Default for FirewallTable {
    fn default() -> (t: Self)
        ensures
            t@ == Map::<Seq<char>, FirewallRule>::empty(),
    {
        Self::new()
    }
}


/// Once an active rule is applied, the table holds a rule that blocks the
/// rule's own process name, so `rule_for_name` on that name finds one.
pub proof fn applied_rule_is_found(t: Map<Seq<char>, FirewallRule>, r: FirewallRule)
    requires
        r.active,
    ensures
        exists|k: Seq<char>|
            #[trigger] t.insert(r.id@, r).contains_key(k) && fw_rule_names(t.insert(r.id@, r)[k], r.process_name@),
{
    assert(t.insert(r.id@, r).contains_key(r.id@));
    assert(fw_rule_names(t.insert(r.id@, r)[r.id@], r.process_name@));
}

/// Removing a rule undoes applying it: a rule applied under an id the table
/// did not hold, then removed by that id, leaves the table as it was, and no
/// lookup can return it any more.
pub proof fn remove_undoes_apply(t: Map<Seq<char>, FirewallRule>, r: FirewallRule)
    requires
        !t.contains_key(r.id@),
    ensures
        t.insert(r.id@, r).remove(r.id@) == t,
        !t.insert(r.id@, r).remove(r.id@).contains_key(r.id@),
{
    assert(t.insert(r.id@, r).remove(r.id@) =~= t);
}

/// Removing a rule by id keeps every other rule as it was and drops only
/// that id; an unknown id changes nothing.
pub proof fn removing_a_rule_keeps_the_others(t: Map<Seq<char>, FirewallRule>, id: Seq<char>)
    ensures
        forall|k: Seq<char>| #[trigger] t.remove(id).contains_key(k) <==> t.contains_key(k) && k != id,
        forall|k: Seq<char>| #[trigger] t.remove(id).contains_key(k) ==> t.remove(id)[k] == t[k],
        !t.contains_key(id) ==> t.remove(id) == t,
{
    if !t.contains_key(id) {
        assert(t.remove(id) =~= t);
    }
}

} // verus!
