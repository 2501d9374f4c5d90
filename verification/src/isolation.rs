//! Bookkeeping of process network isolation: which executables are blocked,
//! under which Windows Firewall rule tag, with which WFP filter ids, and the
//! `netsh` command lines that add and delete the firewall rules.
//!
//! The firewall and WFP calls themselves are made by the caller; this module
//! decides what to call and records what came back.

use vstd::prelude::*;
use crate::keyed::{map_of, keys_distinct, has_key, lemma_map_of, lemma_map_of_update,
    lemma_map_of_push, lemma_map_of_remove};
use crate::process::{file_name_of, last_component};
use crate::text::{append, chars_of, normalize, normalized, string_from_chars, views_of};

verus! {

/// Tag of the firewall rules that block the executable known by `key`.
pub open spec fn rule_tag_for(key: Seq<char>) -> Seq<char> {
    "NetTamer_Block_"@ + last_component(key)
}

pub open spec fn dir_suffix(outbound: bool) -> Seq<char> {
    if outbound {
        "_Out"@
    } else {
        "_In"@
    }
}

pub open spec fn dir_arg(outbound: bool) -> Seq<char> {
    if outbound {
        "dir=out"@
    } else {
        "dir=in"@
    }
}

/// `netsh` arguments adding a rule that blocks `program` in one direction.
pub open spec fn netsh_add(tag: Seq<char>, outbound: bool, program: Seq<char>) -> Seq<Seq<char>> {
    seq![
        "advfirewall"@,
        "firewall"@,
        "add"@,
        "rule"@,
        "name="@ + tag + dir_suffix(outbound),
        dir_arg(outbound),
        "action=block"@,
        "program="@ + program,
        "enable=yes"@,
        "profile=any"@,
    ]
}

/// `netsh` arguments deleting the rule of one direction.
pub open spec fn netsh_delete(tag: Seq<char>, outbound: bool) -> Seq<Seq<char>> {
    seq!["advfirewall"@, "firewall"@, "delete"@, "rule"@, "name="@ + tag + dir_suffix(outbound)]
}

fn owned(s: &str) -> (r: String)
    ensures
        r@ == s@,
{
    s.to_owned()
}

fn rule_name_arg(tag: &String, outbound: bool) -> (r: String)
    ensures
        r@ == "name="@ + tag@ + dir_suffix(outbound),
{
    let mut r = owned("name=");
    append(&mut r, tag.as_str());
    if outbound {
        append(&mut r, "_Out");
    } else {
        append(&mut r, "_In");
    }
    r
}

/// The `netsh` arguments of [`netsh_add`].
pub fn firewall_add_args(tag: &String, outbound: bool, program: &str) -> (r: Vec<String>)
    ensures
        views_of(r@) == netsh_add(tag@, outbound, program@),
{
    let mut program_arg = owned("program=");
    append(&mut program_arg, program);
    let dir = if outbound {
        owned("dir=out")
    } else {
        owned("dir=in")
    };
    let r = vec![
        owned("advfirewall"),
        owned("firewall"),
        owned("add"),
        owned("rule"),
        rule_name_arg(tag, outbound),
        dir,
        owned("action=block"),
        program_arg,
        owned("enable=yes"),
        owned("profile=any"),
    ];
    assert(views_of(r@) =~= netsh_add(tag@, outbound, program@));
    r
}

/// The `netsh` arguments of [`netsh_delete`].
pub fn firewall_delete_args(tag: &String, outbound: bool) -> (r: Vec<String>)
    ensures
        views_of(r@) == netsh_delete(tag@, outbound),
{
    let r = vec![
        owned("advfirewall"),
        owned("firewall"),
        owned("delete"),
        owned("rule"),
        rule_name_arg(tag, outbound),
    ];
    assert(views_of(r@) =~= netsh_delete(tag@, outbound));
    r
}

/// WFP filters registered for a blocked executable.
#[derive(Debug)]
pub struct BlockedEntry {
    /// Normalized executable path.
    pub key: String,
    pub filter_ids: Vec<u64>,
}

/// Firewall rule tag of a blocked executable.
#[derive(Debug)]
pub struct TagEntry {
    /// Normalized executable path.
    pub key: String,
    pub tag: String,
}

pub open spec fn blocked_key() -> spec_fn(BlockedEntry) -> Seq<char> {
    |e: BlockedEntry| e.key@
}

pub open spec fn tag_key() -> spec_fn(TagEntry) -> Seq<char> {
    |e: TagEntry| e.key@
}

pub open spec fn blocked_map(s: Seq<BlockedEntry>) -> Map<Seq<char>, Seq<u64>> {
    map_of(s, blocked_key()).map_values(|e: BlockedEntry| e.filter_ids@)
}

pub open spec fn tag_map(s: Seq<TagEntry>) -> Map<Seq<char>, Seq<char>> {
    map_of(s, tag_key()).map_values(|e: TagEntry| e.tag@)
}

/// What blocking an executable takes: its key and rule tag, and the `netsh`
/// arguments of the outbound and inbound block rules.
#[derive(Debug)]
pub struct BlockCommands {
    pub key: String,
    pub tag: String,
    pub add_out: Vec<String>,
    pub add_in: Vec<String>,
}

/// What blocking `exe_path` takes given the blocked executables: nothing
/// when its normalized path is empty or already blocked; otherwise its key,
/// its rule tag and the `netsh` arguments of its two block rules.
pub open spec fn block_plan(blocked: Map<Seq<char>, Seq<u64>>, exe_path: Seq<char>, r: Option<BlockCommands>) -> bool {
    let key = normalized(exe_path);
    match r {
        None => key.len() == 0 || blocked.contains_key(key),
        Some(c) => {
            &&& key.len() > 0
            &&& !blocked.contains_key(key)
            &&& c.key@ == key
            &&& c.tag@ == rule_tag_for(key)
            &&& views_of(c.add_out@) == netsh_add(rule_tag_for(key), true, exe_path)
            &&& views_of(c.add_in@) == netsh_add(rule_tag_for(key), false, exe_path)
        },
    }
}

/// Executables under isolation.
pub struct Blocklist {
    filters: Vec<BlockedEntry>,
    tags: Vec<TagEntry>,
}

impl Blocklist {
    #[verifier::type_invariant]
    closed spec fn inv(self) -> bool {
        &&& keys_distinct(self.filters@, blocked_key())
        &&& keys_distinct(self.tags@, tag_key())
    }

    /// Normalized path -> WFP filter ids of each blocked executable.
    pub closed spec fn blocked(&self) -> Map<Seq<char>, Seq<u64>> {
        blocked_map(self.filters@)
    }

    /// Normalized path -> firewall rule tag.
    pub closed spec fn tags(&self) -> Map<Seq<char>, Seq<char>> {
        tag_map(self.tags@)
    }

    pub fn new() -> (b: Self)
        ensures
            b.blocked() == Map::<Seq<char>, Seq<u64>>::empty(),
            b.tags() == Map::<Seq<char>, Seq<char>>::empty(),
    {
        let b = Blocklist { filters: Vec::new(), tags: Vec::new() };
        assert(b.blocked() =~= Map::<Seq<char>, Seq<u64>>::empty());
        assert(b.tags() =~= Map::<Seq<char>, Seq<char>>::empty());
        b
    }

    fn filter_position(&self, key: &String) -> (r: Option<usize>)
        ensures
            match r {
                Some(i) => i < self.filters.len() && self.filters@[i as int].key@ == key@,
                None => !has_key(self.filters@, blocked_key(), key@),
            },
    {
        let mut i: usize = 0;
        while i < self.filters.len()
            invariant
                i <= self.filters.len(),
                forall|j: int| 0 <= j < i ==> self.filters@[j].key@ != key@,
            decreases self.filters.len() - i,
        {
            if self.filters[i].key == *key {
                return Some(i);
            }
            i = i + 1;
        }
        assert(!has_key(self.filters@, blocked_key(), key@)) by {
            if has_key(self.filters@, blocked_key(), key@) {
                let j = choose|j: int|
                    0 <= j < self.filters@.len() && (blocked_key())(self.filters@[j]) == key@;
            }
        }
        None
    }

    fn tag_position(&self, key: &String) -> (r: Option<usize>)
        ensures
            match r {
                Some(i) => i < self.tags.len() && self.tags@[i as int].key@ == key@,
                None => !has_key(self.tags@, tag_key(), key@),
            },
    {
        let mut i: usize = 0;
        while i < self.tags.len()
            invariant
                i <= self.tags.len(),
                forall|j: int| 0 <= j < i ==> self.tags@[j].key@ != key@,
            decreases self.tags.len() - i,
        {
            if self.tags[i].key == *key {
                return Some(i);
            }
            i = i + 1;
        }
        assert(!has_key(self.tags@, tag_key(), key@)) by {
            if has_key(self.tags@, tag_key(), key@) {
                let j = choose|j: int|
                    0 <= j < self.tags@.len() && (tag_key())(self.tags@[j]) == key@;
            }
        }
        None
    }

    /// Whether the executable at `exe_path` (normalized) is blocked.
    pub fn is_blocked(&self, exe_path: &str) -> (r: bool)
        ensures
            r == self.blocked().contains_key(normalized(exe_path@)),
    {
        proof {
            use_type_invariant(self);
            lemma_map_of(self.filters@, blocked_key());
        }
        let key = normalize(exe_path);
        match self.filter_position(&key) {
            Some(i) => {
                assert(has_key(self.filters@, blocked_key(), key@));
                true
            },
            None => false,
        }
    }

    /// The normalized paths of all blocked executables, each once.
    pub fn list_blocked(&self) -> (r: Vec<String>)
        ensures
            views_of(r@).no_duplicates(),
            views_of(r@).to_set() == self.blocked().dom(),
    {
        proof {
            use_type_invariant(self);
            lemma_map_of(self.filters@, blocked_key());
        }
        let mut r: Vec<String> = Vec::new();
        let mut i: usize = 0;
        while i < self.filters.len()
            invariant
                i <= self.filters.len(),
                r.len() == i,
                forall|j: int| 0 <= j < i ==> #[trigger] r@[j]@ == self.filters@[j].key@,
            decreases self.filters.len() - i,
        {
            r.push(self.filters[i].key.clone());
            i = i + 1;
        }
        proof {
            use_type_invariant(self);
            assert forall|a: int, b: int| 0 <= a < b < views_of(r@).len() implies views_of(r@)[a]
                != views_of(r@)[b] by {
                assert((blocked_key())(self.filters@[a]) != (blocked_key())(self.filters@[b]));
            }
            assert forall|k: Seq<char>| views_of(r@).to_set().contains(k) <==> self.blocked().dom().contains(k) by {
                if views_of(r@).to_set().contains(k) {
                    let j = choose|j: int| 0 <= j < views_of(r@).len() && views_of(r@)[j] == k;
                    assert((blocked_key())(self.filters@[j]) == k);
                }
                if self.blocked().dom().contains(k) {
                    assert(has_key(self.filters@, blocked_key(), k));
                    let j = choose|j: int| 0 <= j < self.filters@.len() && (blocked_key())(self.filters@[j]) == k;
                    assert(views_of(r@)[j] == k);
                }
            }
            assert(views_of(r@).to_set() =~= self.blocked().dom());
        }
        r
    }

    /// What blocking `exe_path` takes, or `None` when there is nothing to do
    /// (the normalized path is empty, or the executable is already blocked).
    pub fn plan_block(&self, exe_path: &str) -> (r: Option<BlockCommands>)
        ensures
            block_plan(self.blocked(), exe_path@, r),
    {
        proof {
            use_type_invariant(self);
            lemma_map_of(self.filters@, blocked_key());
        }
        let key = normalize(exe_path);
        let kc = chars_of(key.as_str());
        if kc.len() == 0 {
            return None;
        }
        match self.filter_position(&key) {
            Some(i) => {
                assert(has_key(self.filters@, blocked_key(), key@));
                return None;
            },
            None => {},
        }
        let file = file_name_of(&kc);
        let mut tag = owned("NetTamer_Block_");
        let file_s = string_from_chars(&file);
        append(&mut tag, file_s.as_str());
        let add_out = firewall_add_args(&tag, true, exe_path);
        let add_in = firewall_add_args(&tag, false, exe_path);
        Some(BlockCommands { key, tag, add_out, add_in })
    }

    /// Record a block: the rule tag always, the WFP filter ids when the
    /// filters were registered (`None` when WFP could not take them).
    pub fn finish_block(&mut self, key: String, tag: String, filter_ids: Option<Vec<u64>>)
        ensures
            final(self).tags() == old(self).tags().insert(key@, tag@),
            final(self).blocked() == match filter_ids {
                Some(ids) => old(self).blocked().insert(key@, ids@),
                None => old(self).blocked(),
            },
    {
        proof {
            use_type_invariant(&*self);
        }
        let te = TagEntry { key: key.clone(), tag };
        let mut tags = Vec::new();
        std::mem::swap(&mut tags, &mut self.tags);
        let mut filters = Vec::new();
        std::mem::swap(&mut filters, &mut self.filters);
        let ghost old_tags = tags@;
        let ghost old_filters = filters@;
        let probe = Blocklist { filters: Vec::new(), tags };
        let tp = probe.tag_position(&key);
        let mut tags = probe.tags;
        match tp {
            Some(i) => {
                proof {
                    lemma_map_of_update(tags@, tag_key(), i as int, te);
                }
                tags.set(i, te);
            },
            None => {
                proof {
                    lemma_map_of_push(tags@, tag_key(), te);
                }
                tags.push(te);
            },
        }
        match filter_ids {
            Some(ids) => {
                let be = BlockedEntry { key: key, filter_ids: ids };
                let probe = Blocklist { filters, tags: Vec::new() };
                let fp = probe.filter_position(&be.key);
                let mut filters = probe.filters;
                match fp {
                    Some(i) => {
                        proof {
                            lemma_map_of_update(filters@, blocked_key(), i as int, be);
                        }
                        filters.set(i, be);
                    },
                    None => {
                        proof {
                            lemma_map_of_push(filters@, blocked_key(), be);
                        }
                        filters.push(be);
                    },
                }
                *self = Blocklist { filters, tags };
                proof {
                    assert(self.blocked() =~= blocked_map(old_filters).insert(key@, ids@));
                }
            },
            None => {
                *self = Blocklist { filters, tags };
            },
        }
        proof {
            assert(self.tags() =~= tag_map(old_tags).insert(key@, te.tag@));
        }
    }

    /// Forget `exe_path`: returns its rule tag (whose rules are to be deleted)
    /// and its WFP filter ids, each when there was one.
    pub fn plan_unblock(&mut self, exe_path: &str) -> (r: (Option<String>, Option<Vec<u64>>))
        ensures
            ({
                let key = normalized(exe_path@);
                &&& final(self).tags() == old(self).tags().remove(key)
                &&& final(self).blocked() == old(self).blocked().remove(key)
                &&& match r.0 {
                    Some(t) => old(self).tags().contains_key(key) && t@ == old(self).tags()[key],
                    None => !old(self).tags().contains_key(key),
                }
                &&& match r.1 {
                    Some(ids) => old(self).blocked().contains_key(key) && ids@ == old(self).blocked()[key],
                    None => !old(self).blocked().contains_key(key),
                }
            }),
    {
        proof {
            use_type_invariant(&*self);
            lemma_map_of(self.tags@, tag_key());
            lemma_map_of(self.filters@, blocked_key());
        }
        let key = normalize(exe_path);
        let mut tags = Vec::new();
        std::mem::swap(&mut tags, &mut self.tags);
        let mut filters = Vec::new();
        std::mem::swap(&mut filters, &mut self.filters);
        let ghost old_tags = tags@;
        let ghost old_filters = filters@;
        let probe = Blocklist { filters, tags };
        let tp = probe.tag_position(&key);
        let fp = probe.filter_position(&key);
        let Blocklist { filters: mut filters, tags: mut tags } = probe;
        let tag = match tp {
            Some(i) => {
                proof {
                    lemma_map_of_remove(tags@, tag_key(), i as int);
                    assert(map_of(old_tags, tag_key())[(tag_key())(old_tags[i as int])] == old_tags[i as int]);
                }
                let e = tags.remove(i);
                Some(e.tag)
            },
            None => {
                proof {
                    assert(!map_of(old_tags, tag_key()).contains_key(key@));
                    assert(map_of(old_tags, tag_key()).remove(key@) =~= map_of(old_tags, tag_key()));
                }
                None
            },
        };
        let ids = match fp {
            Some(i) => {
                proof {
                    lemma_map_of_remove(filters@, blocked_key(), i as int);
                    assert(map_of(old_filters, blocked_key())[(blocked_key())(old_filters[i as int])] == old_filters[i as int]);
                }
                let e = filters.remove(i);
                Some(e.filter_ids)
            },
            None => {
                proof {
                    assert(!map_of(old_filters, blocked_key()).contains_key(key@));
                    assert(map_of(old_filters, blocked_key()).remove(key@) =~= map_of(old_filters, blocked_key()));
                }
                None
            },
        };
        *self = Blocklist { filters, tags };
        proof {
            assert(self.tags() =~= tag_map(old_tags).remove(key@));
            assert(self.blocked() =~= blocked_map(old_filters).remove(key@));
        }
        (tag, ids)
    }

    /// Unblock everything on shutdown: every executable is forgotten and all
    /// rule tags are handed back (their rules are to be deleted); the WFP
    /// filter ids are handed back (to be deleted) only when the WFP session is
    /// open, since without a session there is nothing to delete them from.
    pub fn close(&mut self, engine_open: bool) -> (r: (Vec<TagEntry>, Vec<BlockedEntry>))
        ensures
            keys_distinct(r.0@, tag_key()),
            tag_map(r.0@) == old(self).tags(),
            final(self).tags() == Map::<Seq<char>, Seq<char>>::empty(),
            final(self).blocked() == Map::<Seq<char>, Seq<u64>>::empty(),
            engine_open ==> keys_distinct(r.1@, blocked_key()) && blocked_map(r.1@) == old(self).blocked(),
            !engine_open ==> r.1@.len() == 0,
    {
        proof {
            use_type_invariant(&*self);
        }
        let mut tags = Vec::new();
        std::mem::swap(&mut tags, &mut self.tags);
        let mut filters = Vec::new();
        std::mem::swap(&mut filters, &mut self.filters);
        proof {
            assert(self.tags() =~= Map::<Seq<char>, Seq<char>>::empty());
            assert(self.blocked() =~= Map::<Seq<char>, Seq<u64>>::empty());
        }
        if engine_open {
            (tags, filters)
        } else {
            (tags, Vec::new())
        }
    }
}

/// Blocking is idempotent: once an executable's filters are recorded, asking
/// to block it again (under any spelling that normalizes the same) plans
/// nothing, so its firewall rules are added only once.
pub proof fn blocking_twice_plans_nothing(
    blocked: Map<Seq<char>, Seq<u64>>,
    exe_path: Seq<char>,
    ids: Seq<u64>,
    r: Option<BlockCommands>,
)
    requires
        block_plan(blocked.insert(normalized(exe_path), ids), exe_path, r),
    ensures
        r is None,
{
}

/// Unblocking forgets an executable entirely, so it can be blocked afresh.
pub proof fn unblocked_can_be_blocked_again(
    blocked: Map<Seq<char>, Seq<u64>>,
    exe_path: Seq<char>,
    r: Option<BlockCommands>,
)
    requires
        normalized(exe_path).len() > 0,
        block_plan(blocked.remove(normalized(exe_path)), exe_path, r),
    ensures
        r is Some,
{
}

} // verus!
