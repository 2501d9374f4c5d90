//! Process metadata: naming and classifying processes from what the OS
//! reports, and a cache of the results.

use vstd::prelude::*;
use crate::fmt::{decimal, push_decimal};
use crate::keyed::{map_of, keys_distinct, has_key, lemma_map_of, lemma_map_of_keyed, lemma_map_of_update,
    lemma_map_of_push, lemma_map_of_remove};
use crate::matcher::occurs_at;
use crate::models::ProcessCategory;
use crate::text::{chars_of, chars_eq, lower_chars, lowercase, string_from_chars, views_of};

verus! {

/// Resolved metadata for a process.
#[derive(Debug)]
pub struct Info {
    pub pid: u32,
    pub name: String,
    pub path: String,
    pub category: ProcessCategory,
    /// Base64-encoded process icon (empty placeholder for now).
    pub icon_b64: String,
    pub user: String,
}

impl Clone for Info {
    fn clone(&self) -> (r: Self)
        ensures
            r == *self,
    {
        Info {
            pid: self.pid,
            name: self.name.clone(),
            path: self.path.clone(),
            category: self.category,
            icon_b64: self.icon_b64.clone(),
            user: self.user.clone(),
        }
    }
}

/// What the OS reported about a process: its image path
/// (`QueryFullProcessImageNameW`), its executable name in a process snapshot
/// (`Process32FirstW`/`Process32NextW`), and its session (`ProcessIdToSessionId`);
/// `None` where the query failed.
#[derive(Debug)]
pub struct ProcessQuery {
    pub image_path: Option<String>,
    pub snapshot_name: Option<String>,
    pub session_id: Option<u32>,
}

/// Everything after the last `\` (the whole path when it has none).
pub open spec fn last_component(p: Seq<char>) -> Seq<char>
    decreases p.len(),
{
    if p.len() == 0 {
        p
    } else if p.last() == '\\' {
        Seq::empty()
    } else {
        last_component(p.drop_last()).push(p.last())
    }
}

pub open spec fn starts_with(s: Seq<char>, prefix: Seq<char>) -> bool {
    prefix.len() <= s.len() && s.take(prefix.len() as int) == prefix
}

pub open spec fn contains_seq(s: Seq<char>, needle: Seq<char>) -> bool {
    exists|i: int| #[trigger] occurs_at(s, i, needle)
}

/// Windows' own core services, by lowercase executable name.
pub open spec fn known_windows_service(n: Seq<char>) -> bool {
    ||| n == "svchost.exe"@
    ||| n == "services.exe"@
    ||| n == "lsass.exe"@
    ||| n == "csrss.exe"@
    ||| n == "wininit.exe"@
    ||| n == "smss.exe"@
    ||| n == "spoolsv.exe"@
    ||| n == "dwm.exe"@
    ||| n == "fontdrvhost.exe"@
    ||| n == "sihost.exe"@
    ||| n == "ctfmon.exe"@
    ||| n == "taskhostw.exe"@
    ||| n == "runtimebroker.exe"@
    ||| n == "searchhost.exe"@
    ||| n == "startmenuexperiencehost.exe"@
    ||| n == "searchindexer.exe"@
    ||| n == "audiodg.exe"@
    ||| n == "wlanext.exe"@
    ||| n == "dashost.exe"@
    ||| n == "explorer.exe"@
}

/// A (lowercase) path under the Windows directory.
pub open spec fn in_windows_dir(p: Seq<char>) -> bool {
    ||| starts_with(p, "c:\\windows\\"@)
    ||| contains_seq(p, "\\windows\\system32\\"@)
    ||| contains_seq(p, "\\windows\\syswow64\\"@)
    ||| contains_seq(p, "\\windows\\systemapps\\"@)
}

/// Kernel for PIDs 0 and 4; a Windows service when its name is a known core
/// service, or when it lives under the Windows directory and runs in session 0;
/// a user application otherwise.
pub open spec fn category_of(pid: u32, name: Seq<char>, path: Seq<char>, session: Option<u32>) -> ProcessCategory {
    if pid == 0 || pid == 4 {
        ProcessCategory::Kernel
    } else if known_windows_service(lowercase(name)) {
        ProcessCategory::WindowsService
    } else if in_windows_dir(lowercase(path)) && session == Some(0u32) {
        ProcessCategory::WindowsService
    } else {
        ProcessCategory::UserApp
    }
}

/// Name and path of an ordinary process: from its image path when known,
/// else its snapshot name (no path), else `pid_{pid}`.
pub open spec fn queried_name_path(pid: u32, q: ProcessQuery) -> (Seq<char>, Seq<char>) {
    match q.image_path {
        Some(p) => (last_component(p@), p@),
        None => match q.snapshot_name {
            Some(n) => (n@, Seq::empty()),
            None => ("pid_"@ + decimal(pid as nat), Seq::empty()),
        },
    }
}

pub open spec fn kernel_path() -> Seq<char> {
    "[Windows Kernel]"@
}

/// The metadata of process `pid` given what the OS reported.
pub open spec fn info_matches(i: Info, pid: u32, q: ProcessQuery) -> bool {
    &&& i.pid == pid
    &&& i.icon_b64@ == Seq::<char>::empty()
    &&& i.user@ == Seq::<char>::empty()
    &&& if pid == 0 {
        i.name@ == "System Idle Process"@ && i.path@ == kernel_path() && i.category
            == ProcessCategory::Kernel
    } else if pid == 4 {
        i.name@ == "Windows 系统网络 (System)"@ && i.path@ == kernel_path() && i.category
            == ProcessCategory::Kernel
    } else {
        let (n, p) = queried_name_path(pid, q);
        i.name@ == n && i.path@ == p && i.category == category_of(pid, n, p, q.session_id)
    }
}

fn starts_with_chars(s: &Vec<char>, prefix: &Vec<char>) -> (r: bool)
    ensures
        r == starts_with(s@, prefix@),
{
    if prefix.len() > s.len() {
        return false;
    }
    let mut i: usize = 0;
    while i < prefix.len()
        invariant
            prefix.len() <= s.len(),
            i <= prefix.len(),
            forall|k: int| 0 <= k < i ==> s@[k] == prefix@[k],
        decreases prefix.len() - i,
    {
        if s[i] != prefix[i] {
            assert(s@.take(prefix.len() as int)[i as int] != prefix@[i as int]);
            return false;
        }
        i = i + 1;
    }
    assert(s@.take(prefix.len() as int) =~= prefix@);
    true
}

fn occurs_chars(s: &Vec<char>, at: usize, needle: &Vec<char>) -> (r: bool)
    ensures
        r == occurs_at(s@, at as int, needle@),
{
    if at > s.len() || needle.len() > s.len() - at {
        return false;
    }
    let mut k: usize = 0;
    while k < needle.len()
        invariant
            at + needle.len() <= s.len(),
            k <= needle.len(),
            forall|t: int| 0 <= t < k ==> #[trigger] s@[at + t] == needle@[t],
        decreases needle.len() - k,
    {
        if s[at + k] != needle[k] {
            assert(s@.subrange(at as int, at + needle.len())[k as int] != needle@[k as int]);
            return false;
        }
        k = k + 1;
    }
    assert forall|t: int| 0 <= t < needle.len() implies s@.subrange(at as int, at + needle.len())[t]
        == needle@[t] by {
        assert(s@[at + t] == needle@[t]);
    }
    assert(s@.subrange(at as int, at + needle.len()) =~= needle@);
    true
}

pub(crate) fn contains_chars(s: &Vec<char>, needle: &Vec<char>) -> (r: bool)
    ensures
        r == contains_seq(s@, needle@),
{
    let mut i: usize = 0;
    loop
        invariant
            i <= s.len(),
            forall|k: int| 0 <= k < i ==> !#[trigger] occurs_at(s@, k, needle@),
        decreases s.len() - i,
    {
        if occurs_chars(s, i, needle) {
            return true;
        }
        if i == s.len() {
            return false;
        }
        i = i + 1;
    }
}

fn is_known_service(n: &Vec<char>) -> (r: bool)
    ensures
        r == known_windows_service(n@),
{
    chars_eq(n, &chars_of("svchost.exe")) || chars_eq(n, &chars_of("services.exe"))
        || chars_eq(n, &chars_of("lsass.exe")) || chars_eq(n, &chars_of("csrss.exe"))
        || chars_eq(n, &chars_of("wininit.exe")) || chars_eq(n, &chars_of("smss.exe"))
        || chars_eq(n, &chars_of("spoolsv.exe")) || chars_eq(n, &chars_of("dwm.exe"))
        || chars_eq(n, &chars_of("fontdrvhost.exe")) || chars_eq(n, &chars_of("sihost.exe"))
        || chars_eq(n, &chars_of("ctfmon.exe")) || chars_eq(n, &chars_of("taskhostw.exe"))
        || chars_eq(n, &chars_of("runtimebroker.exe")) || chars_eq(n, &chars_of("searchhost.exe"))
        || chars_eq(n, &chars_of("startmenuexperiencehost.exe"))
        || chars_eq(n, &chars_of("searchindexer.exe")) || chars_eq(n, &chars_of("audiodg.exe"))
        || chars_eq(n, &chars_of("wlanext.exe")) || chars_eq(n, &chars_of("dashost.exe"))
        || chars_eq(n, &chars_of("explorer.exe"))
}

impl Resolver {
    /// Classify a process into Kernel, WindowsService, or UserApp.
    pub fn classify_process(pid: u32, name: &str, path: &str, session: Option<u32>) -> (c: ProcessCategory)
        ensures
            c == category_of(pid, name@, path@, session),
    {
        if pid == 0 || pid == 4 {
            return ProcessCategory::Kernel;
        }
        let name_lower = lower_chars(name);
        let path_lower = lower_chars(path);
        if is_known_service(&name_lower) {
            return ProcessCategory::WindowsService;
        }
        let is_in_windows_dir = starts_with_chars(&path_lower, &chars_of("c:\\windows\\"))
            || contains_chars(&path_lower, &chars_of("\\windows\\system32\\"))
            || contains_chars(&path_lower, &chars_of("\\windows\\syswow64\\"))
            || contains_chars(&path_lower, &chars_of("\\windows\\systemapps\\"));
        let in_session_zero = match session {
            Some(s) => s == 0,
            None => false,
        };
        if is_in_windows_dir && in_session_zero {
            return ProcessCategory::WindowsService;
        }
        ProcessCategory::UserApp
    }
}

/// The last path component (after the final `\`).
pub(crate) fn file_name_of(p: &Vec<char>) -> (r: Vec<char>)
    ensures
        r@ == last_component(p@),
{
    let mut start = p.len();
    while start > 0 && p[start - 1] != '\\'
        invariant
            start <= p.len(),
            forall|k: int| start <= k < p.len() ==> p@[k] != '\\',
        decreases start,
    {
        start = start - 1;
    }
    let mut r: Vec<char> = Vec::new();
    let mut i = start;
    while i < p.len()
        invariant
            start <= i <= p.len(),
            r@ == p@.subrange(start as int, i as int),
        decreases p.len() - i,
    {
        r.push(p[i]);
        assert(p@.subrange(start as int, i + 1) =~= p@.subrange(start as int, i as int).push(p@[i as int]));
        i = i + 1;
    }
    proof {
        lemma_last_component(p@, start as int);
    }
    r
}

proof fn lemma_last_component(p: Seq<char>, start: int)
    requires
        0 <= start <= p.len(),
        start == 0 || p[start - 1] == '\\',
        forall|k: int| start <= k < p.len() ==> p[k] != '\\',
    ensures
        last_component(p) == p.subrange(start, p.len() as int),
    decreases p.len(),
{
    if p.len() == 0 {
        assert(p.subrange(start, 0) =~= p);
    } else if p.last() == '\\' {
        assert(start == p.len());
        assert(p.subrange(start, p.len() as int) =~= Seq::<char>::empty());
    } else {
        let q = p.drop_last();
        assert forall|k: int| start <= k < q.len() implies q[k] != '\\' by {
            assert(q[k] == p[k]);
        }
        if start > 0 {
            assert(q[start - 1] == p[start - 1]);
        }
        lemma_last_component(q, start);
        assert(p.subrange(start, p.len() as int) =~= q.subrange(start, q.len() as int).push(p.last()));
    }
}

impl Resolver {
    /// Name, path and category of process `pid` given what the OS reported.
    pub fn query_process(pid: u32, q: ProcessQuery) -> (i: Info)
        ensures
            info_matches(i, pid, q),
    {
        if pid == 0 {
            return Info {
                pid,
                name: String::from_str("System Idle Process"),
                path: String::from_str("[Windows Kernel]"),
                category: ProcessCategory::Kernel,
                icon_b64: String::new(),
                user: String::new(),
            };
        }
        if pid == 4 {
            return Info {
                pid,
                name: String::from_str("Windows 系统网络 (System)"),
                path: String::from_str("[Windows Kernel]"),
                category: ProcessCategory::Kernel,
                icon_b64: String::new(),
                user: String::new(),
            };
        }
        let ghost q0 = q;
        let (name, path) = match q.image_path {
            Some(p) => {
                let n = string_from_chars(&file_name_of(&chars_of(p.as_str())));
                (n, p)
            },
            None => match q.snapshot_name {
                Some(n) => (n, String::new()),
                None => {
                    let mut n = String::from_str("pid_");
                    push_decimal(&mut n, pid as u128);
                    (n, String::new())
                },
            },
        };
        let category = Resolver::classify_process(pid, name.as_str(), path.as_str(), q.session_id);
        Info { pid, name, path, category, icon_b64: String::new(), user: String::new() }
    }
}

pub open spec fn info_key() -> spec_fn(Info) -> u32 {
    |i: Info| i.pid
}

/// A cached process whose lowercase name is `a` or `b` and whose path is known.
pub open spec fn named_path(i: Info, a: Seq<char>, b: Seq<char>) -> bool {
    (lowercase(i.name@) == a || lowercase(i.name@) == b) && i.path@.len() > 0
}

/// Caches process metadata to avoid repeated OS lookups on the hot path.
pub struct Resolver {
    cache: Vec<Info>,
}

impl Resolver {
    #[verifier::type_invariant]
    closed spec fn inv(self) -> bool {
        keys_distinct(self.cache@, info_key())
    }

    /// Cached metadata by PID.
    pub closed spec fn cache(&self) -> Map<u32, Info> {
        map_of(self.cache@, info_key())
    }

    /// Paths (non-empty) of the cached processes whose lowercase name is `a`
    /// or `b`.
    pub fn cached_paths_named(&self, a: &Vec<char>, b: &Vec<char>) -> (r: Vec<String>)
        ensures
            forall|p: Seq<char>|
                #![trigger views_of(r@).contains(p)]
                views_of(r@).contains(p) <==> exists|pid: u32|
                    #[trigger] self.cache().contains_key(pid) && named_path(self.cache()[pid], a@, b@)
                        && self.cache()[pid].path@ == p,
    {
        proof {
            use_type_invariant(self);
            lemma_map_of(self.cache@, info_key());
        }
        let mut r: Vec<String> = Vec::new();
        let mut i: usize = 0;
        while i < self.cache.len()
            invariant
                i <= self.cache.len(),
                forall|p: Seq<char>|
                    #![trigger views_of(r@).contains(p)]
                    views_of(r@).contains(p) <==> exists|j: int|
                        0 <= j < i && named_path(#[trigger] self.cache@[j], a@, b@) && self.cache@[j].path@ == p,
            decreases self.cache.len() - i,
        {
            let info = &self.cache[i];
            let name = lower_chars(info.name.as_str());
            let path = chars_of(info.path.as_str());
            if (chars_eq(&name, a) || chars_eq(&name, b)) && path.len() > 0 {
                let ghost before = views_of(r@);
                r.push(info.path.clone());
                proof {
                    assert(views_of(r@) =~= before.push(info.path@));
                    assert forall|p: Seq<char>| views_of(r@).contains(p) <==> exists|j: int|
                        0 <= j < i + 1 && named_path(#[trigger] self.cache@[j], a@, b@) && self.cache@[j].path@ == p by {
                        if views_of(r@).contains(p) {
                            let k = choose|k: int| 0 <= k < views_of(r@).len() && views_of(r@)[k] == p;
                            if k < before.len() {
                                assert(before.contains(p));
                            } else {
                                assert(named_path(self.cache@[i as int], a@, b@));
                            }
                        }
                        if exists|j: int| 0 <= j < i + 1 && named_path(#[trigger] self.cache@[j], a@, b@)
                            && self.cache@[j].path@ == p {
                            let j = choose|j: int| 0 <= j < i + 1 && named_path(#[trigger] self.cache@[j], a@, b@)
                                && self.cache@[j].path@ == p;
                            if j < i {
                                assert(before.contains(p));
                                let k = choose|k: int| 0 <= k < before.len() && before[k] == p;
                                assert(views_of(r@)[k] == p);
                            } else {
                                assert(views_of(r@)[before.len() as int] == p);
                            }
                        }
                    }
                }
            } else {
                proof {
                    assert(!named_path(self.cache@[i as int], a@, b@));
                    assert forall|p: Seq<char>| views_of(r@).contains(p) <==> exists|j: int|
                        0 <= j < i + 1 && named_path(#[trigger] self.cache@[j], a@, b@) && self.cache@[j].path@ == p by {
                        if exists|j: int| 0 <= j < i + 1 && named_path(#[trigger] self.cache@[j], a@, b@)
                            && self.cache@[j].path@ == p {
                            let j = choose|j: int| 0 <= j < i + 1 && named_path(#[trigger] self.cache@[j], a@, b@)
                                && self.cache@[j].path@ == p;
                            assert(j < i);
                        }
                    }
                }
            }
            i = i + 1;
        }
        proof {
            use_type_invariant(self);
            assert forall|p: Seq<char>| views_of(r@).contains(p) <==> exists|pid: u32|
                #[trigger] self.cache().contains_key(pid) && named_path(self.cache()[pid], a@, b@)
                    && self.cache()[pid].path@ == p by {
                if views_of(r@).contains(p) {
                    let j = choose|j: int| 0 <= j < self.cache@.len() && named_path(#[trigger] self.cache@[j], a@, b@)
                        && self.cache@[j].path@ == p;
                    let pid = self.cache@[j].pid;
                    assert(map_of(self.cache@, info_key())[(info_key())(self.cache@[j])] == self.cache@[j]);
                    assert(has_key(self.cache@, info_key(), pid));
                    assert(self.cache().contains_key(pid));
                }
                if exists|pid: u32| #[trigger] self.cache().contains_key(pid) && named_path(self.cache()[pid], a@, b@)
                    && self.cache()[pid].path@ == p {
                    let pid = choose|pid: u32| #[trigger] self.cache().contains_key(pid) && named_path(
                        self.cache()[pid],
                        a@,
                        b@,
                    ) && self.cache()[pid].path@ == p;
                    assert(has_key(self.cache@, info_key(), pid));
                    let j = choose|j: int| 0 <= j < self.cache@.len() && (info_key())(self.cache@[j]) == pid;
                    assert(map_of(self.cache@, info_key())[(info_key())(self.cache@[j])] == self.cache@[j]);
                }
            }
        }
        r
    }

    pub fn new() -> (r: Self)
        ensures
            r.cache() == Map::<u32, Info>::empty(),
    {
        Resolver { cache: Vec::new() }
    }

    fn position(&self, pid: u32) -> (r: Option<usize>)
        ensures
            match r {
                Some(i) => i < self.cache.len() && self.cache@[i as int].pid == pid && self.cache().contains_key(pid)
                    && self.cache()[pid] == self.cache@[i as int],
                None => !self.cache().contains_key(pid) && !has_key(self.cache@, info_key(), pid),
            },
    {
        proof {
            use_type_invariant(self);
            lemma_map_of(self.cache@, info_key());
        }
        let mut i: usize = 0;
        while i < self.cache.len()
            invariant
                i <= self.cache.len(),
                forall|j: int| 0 <= j < i ==> self.cache@[j].pid != pid,
            decreases self.cache.len() - i,
        {
            if self.cache[i].pid == pid {
                proof {
                    use_type_invariant(self);
                    lemma_map_of(self.cache@, info_key());
                    assert(map_of(self.cache@, info_key())[(info_key())(self.cache@[i as int])]
                        == self.cache@[i as int]);
                }
                return Some(i);
            }
            i = i + 1;
        }
        proof {
            use_type_invariant(self);
            lemma_map_of(self.cache@, info_key());
            if has_key(self.cache@, info_key(), pid) {
                let j = choose|j: int| 0 <= j < self.cache@.len() && (info_key())(self.cache@[j]) == pid;
            }
        }
        None
    }

    /// Cached metadata for `pid`, if any.
    pub fn lookup(&self, pid: u32) -> (r: Option<Info>)
        ensures
            r == if self.cache().contains_key(pid) { Some(self.cache()[pid]) } else { None::<Info> },
            r matches Some(i) ==> i.pid == pid,
    {
        proof {
            lemma_map_of_keyed(self.cache@, info_key());
        }
        match self.position(pid) {
            Some(i) => Some(self.cache[i].clone()),
            None => None,
        }
    }

    /// Resolve metadata for `pid`, consulting the cache first; on a miss the
    /// metadata is built from `query` (what the OS reported) and cached.
    pub fn resolve(&mut self, pid: u32, query: ProcessQuery) -> (r: Info)
        ensures
            old(self).cache().contains_key(pid) ==> r == old(self).cache()[pid] && final(self).cache()
                == old(self).cache(),
            !old(self).cache().contains_key(pid) ==> info_matches(r, pid, query) && final(self).cache()
                == old(self).cache().insert(pid, r),
            r.pid == pid,
    {
        proof {
            use_type_invariant(&*self);
            lemma_map_of_keyed(self.cache@, info_key());
        }
        match self.position(pid) {
            Some(i) => self.cache[i].clone(),
            None => {
                let info = Resolver::query_process(pid, query);
                let mut cache = Vec::new();
                std::mem::swap(&mut cache, &mut self.cache);
                proof {
                    lemma_map_of_push(cache@, info_key(), info);
                }
                cache.push(info.clone());
                self.cache = cache;
                info
            },
        }
    }

    /// Drop a cached entry (e.g. on process exit).
    pub fn invalidate(&mut self, pid: u32)
        ensures
            final(self).cache() == old(self).cache().remove(pid),
    {
        proof {
            use_type_invariant(&*self);
        }
        match self.position(pid) {
            Some(i) => {
                let mut cache = Vec::new();
                std::mem::swap(&mut cache, &mut self.cache);
                proof {
                    lemma_map_of_remove(cache@, info_key(), i as int);
                }
                cache.remove(i);
                self.cache = cache;
            },
            None => {
                assert(old(self).cache().remove(pid) =~= old(self).cache());
            },
        }
    }
}

impl Default for Resolver {
    fn default() -> (r: Self)
        ensures
            r.cache() == Map::<u32, Info>::empty(),
    {
        Self::new()
    }
}


/// Every cached entry describes the PID it is cached under, so whatever
/// `resolve` answers from the cache carries the PID that was asked for.
pub proof fn cached_metadata_carries_its_pid(r: Resolver)
    ensures
        forall|k: u32| #[trigger] r.cache().contains_key(k) ==> r.cache()[k].pid == k,
{
    lemma_map_of_keyed(r.cache@, info_key());
}

/// Metadata, once resolved, is the answer for its PID until invalidated:
/// after `resolve` caches `first` for `pid`, the PID is cached with exactly
/// that metadata, so a later `resolve` gives it back whatever the OS reports.
pub proof fn resolved_metadata_is_stable(cache: Map<u32, Info>, pid: u32, first: Info)
    ensures
        cache.insert(pid, first).contains_key(pid),
        cache.insert(pid, first)[pid] == first,
{
}

/// After `invalidate`, the next `resolve` of that PID asks the OS again.
pub proof fn invalidated_pid_is_queried_again(cache: Map<u32, Info>, pid: u32)
    ensures
        !cache.remove(pid).contains_key(pid),
{
}


/// Length of a NUL-terminated UTF-16 buffer's text: the index of the first
/// zero unit, or the whole buffer when there is none.
pub fn wide_text_len(units: &[u16]) -> (n: usize)
    ensures
        n <= units@.len(),
        forall|i: int| 0 <= i < n ==> units@[i] != 0,
        n < units@.len() ==> units@[n as int] == 0,
{
    let mut n: usize = 0;
    while n < units.len() && units[n] != 0
        invariant
            n <= units@.len(),
            forall|i: int| 0 <= i < n ==> units@[i] != 0,
        decreases units.len() - n,
    {
        n = n + 1;
    }
    n
}

/// The executable name a process snapshot reports for `pid`: that of the
/// first entry with this PID, if any.
pub fn snapshot_name(entries: &Vec<(u32, String)>, pid: u32) -> (r: Option<String>)
    ensures
        match r {
            Some(n) => exists|i: int|
                0 <= i < entries@.len() && entries@[i].0 == pid && entries@[i].1@ == n@ && forall|j: int|
                    0 <= j < i ==> #[trigger] entries@[j].0 != pid,
            None => forall|j: int| 0 <= j < entries@.len() ==> #[trigger] entries@[j].0 != pid,
        },
{
    let mut i: usize = 0;
    while i < entries.len()
        invariant
            i <= entries.len(),
            forall|j: int| 0 <= j < i ==> #[trigger] entries@[j].0 != pid,
        decreases entries.len() - i,
    {
        if entries[i].0 == pid {
            return Some(entries[i].1.clone());
        }
        i = i + 1;
    }
    None
}

/// Windows' own core services are classified as such wherever they run
/// from: for every PID but the kernel's (0 and 4), a process whose lowercased
/// name is one of these twenty is a Windows service.
pub proof fn core_services_are_windows_services(pid: u32, name: Seq<char>, path: Seq<char>, session: Option<u32>)
    requires
        pid != 0,
        pid != 4,
        ({
            let n = lowercase(name);
            ||| n == "svchost.exe"@
            ||| n == "services.exe"@
            ||| n == "lsass.exe"@
            ||| n == "csrss.exe"@
            ||| n == "wininit.exe"@
            ||| n == "smss.exe"@
            ||| n == "spoolsv.exe"@
            ||| n == "dwm.exe"@
            ||| n == "fontdrvhost.exe"@
            ||| n == "sihost.exe"@
            ||| n == "ctfmon.exe"@
            ||| n == "taskhostw.exe"@
            ||| n == "runtimebroker.exe"@
            ||| n == "searchhost.exe"@
            ||| n == "startmenuexperiencehost.exe"@
            ||| n == "searchindexer.exe"@
            ||| n == "audiodg.exe"@
            ||| n == "wlanext.exe"@
            ||| n == "dashost.exe"@
            ||| n == "explorer.exe"@
        }),
    ensures
        category_of(pid, name, path, session) == ProcessCategory::WindowsService,
{
}

/// The kernel's PIDs (0 and 4) are always the kernel.
pub proof fn kernel_pids_are_kernel(pid: u32, name: Seq<char>, path: Seq<char>, session: Option<u32>)
    requires
        pid == 0 || pid == 4,
    ensures
        category_of(pid, name, path, session) == ProcessCategory::Kernel,
{
}

} // verus!
