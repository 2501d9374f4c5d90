//! Finding the executable files of a process by name: what to look for,
//! which running process names count, where installed programs usually
//! live, and the final sorted, duplicate-free list of paths.
//!
//! Enumerating processes, querying their image paths and probing files are
//! the caller's part.

use vstd::prelude::*;
use crate::process::{Info, Resolver, named_path};
use crate::text::{append, chars_eq, chars_of, lowercase, lower_chars, normalize, trim, trimmed,
    views_of};

verus! {

// ---------------------------------------------------------------------------
// Lexicographic order on character sequences (the order of `String`).

/// `a` sorts strictly before `b`, comparing character by character (by code
/// point), a proper prefix first.
pub open spec fn lex_lt(a: Seq<char>, b: Seq<char>) -> bool
    decreases a.len(),
{
    if a.len() == 0 {
        b.len() > 0
    } else if b.len() == 0 {
        false
    } else if a[0] != b[0] {
        (a[0] as u32) < (b[0] as u32)
    } else {
        lex_lt(a.drop_first(), b.drop_first())
    }
}

proof fn lemma_distinct_code_points(a: char, b: char)
    requires
        a != b,
    ensures
        (a as u32) != (b as u32),
{
    assert((a as u32) as int == a as int);
    assert((b as u32) as int == b as int);
}

pub(crate) proof fn lemma_lex_irreflexive(a: Seq<char>)
    ensures
        !lex_lt(a, a),
    decreases a.len(),
{
    if a.len() > 0 {
        lemma_lex_irreflexive(a.drop_first());
    }
}

pub(crate) proof fn lemma_lex_total(a: Seq<char>, b: Seq<char>)
    ensures
        a == b || lex_lt(a, b) || lex_lt(b, a),
        !(lex_lt(a, b) && lex_lt(b, a)),
    decreases a.len(),
{
    if a.len() > 0 && b.len() > 0 {
        if a[0] != b[0] {
            lemma_distinct_code_points(a[0], b[0]);
        } else {
            lemma_lex_total(a.drop_first(), b.drop_first());
            if a.drop_first() == b.drop_first() {
                assert(a =~= seq![a[0]] + a.drop_first());
                assert(b =~= seq![b[0]] + b.drop_first());
            }
        }
    } else if a.len() == 0 && b.len() == 0 {
        assert(a =~= b);
    }
}

pub(crate) proof fn lemma_lex_transitive(a: Seq<char>, b: Seq<char>, c: Seq<char>)
    requires
        lex_lt(a, b),
        lex_lt(b, c),
    ensures
        lex_lt(a, c),
    decreases a.len(),
{
    if a.len() > 0 && b.len() > 0 && c.len() > 0 {
        if a[0] == b[0] && b[0] == c[0] {
            lemma_lex_transitive(a.drop_first(), b.drop_first(), c.drop_first());
        }
    }
}

/// Whether `a` sorts strictly before `b`.
pub(crate) fn lex_less(a: &Vec<char>, b: &Vec<char>) -> (r: bool)
    ensures
        r == lex_lt(a@, b@),
{
    let mut i: usize = 0;
    assert(a@.skip(0) =~= a@);
    assert(b@.skip(0) =~= b@);
    while i < a.len() && i < b.len() && a[i] == b[i]
        invariant
            i <= a.len(),
            i <= b.len(),
            a@.take(i as int) == b@.take(i as int),
            lex_lt(a@, b@) == lex_lt(a@.skip(i as int), b@.skip(i as int)),
        decreases a.len() - i,
    {
        proof {
            assert(a@.skip(i as int).drop_first() =~= a@.skip(i + 1));
            assert(b@.skip(i as int).drop_first() =~= b@.skip(i + 1));
            assert(a@.take(i + 1) =~= a@.take(i as int).push(a@[i as int]));
            assert(b@.take(i + 1) =~= b@.take(i as int).push(b@[i as int]));
        }
        i = i + 1;
    }
    if i == a.len() {
        i < b.len()
    } else if i == b.len() {
        false
    } else {
        (a[i] as u32) < (b[i] as u32)
    }
}

/// Strictly increasing: sorted, each element once.
pub open spec fn strictly_sorted(s: Seq<Seq<char>>) -> bool {
    forall|i: int, j: int| 0 <= i < j < s.len() ==> lex_lt(#[trigger] s[i], #[trigger] s[j])
}

/// The paths sorted in `String` order with duplicates removed.
pub fn sorted_unique_paths(paths: Vec<String>) -> (r: Vec<String>)
    ensures
        strictly_sorted(views_of(r@)),
        views_of(r@).to_set() == views_of(paths@).to_set(),
{
    let mut r: Vec<String> = Vec::new();
    let mut keys: Vec<Vec<char>> = Vec::new();
    let mut i: usize = 0;
    while i < paths.len()
        invariant
            i <= paths.len(),
            r.len() == keys.len(),
            forall|k: int| 0 <= k < r.len() ==> #[trigger] keys@[k]@ == r@[k]@,
            strictly_sorted(views_of(r@)),
            views_of(r@).to_set() == views_of(paths@.take(i as int)).to_set(),
        decreases paths.len() - i,
    {
        let x = chars_of(paths[i].as_str());
        let ghost vr = views_of(r@);
        let mut k: usize = 0;
        while k < keys.len() && lex_less(&keys[k], &x)
            invariant
                k <= keys.len(),
                r.len() == keys.len(),
                vr == views_of(r@),
                forall|m: int| 0 <= m < r.len() ==> #[trigger] keys@[m]@ == r@[m]@,
                forall|m: int| 0 <= m < k ==> lex_lt(#[trigger] vr[m], x@),
            decreases keys.len() - k,
        {
            k = k + 1;
        }
        let present = k < keys.len() && chars_eq(&keys[k], &x);
        proof {
            assert(views_of(paths@.take(i + 1)) =~= views_of(paths@.take(i as int)).push(x@));
            views_of(paths@.take(i as int)).lemma_push_to_set_commute(x@);
        }
        if present {
            proof {
                assert(vr[k as int] == x@);
                assert(vr.to_set().insert(x@) =~= vr.to_set());
            }
        } else {
            proof {
                if k < keys.len() {
                    lemma_lex_total(vr[k as int], x@);
                    assert(lex_lt(x@, vr[k as int]));
                }
                assert forall|m: int| k <= m < vr.len() implies lex_lt(x@, #[trigger] vr[m]) by {
                    if m > k {
                        lemma_lex_transitive(x@, vr[k as int], vr[m]);
                    }
                }
            }
            let s = paths[i].clone();
            r.insert(k, s);
            keys.insert(k, x);
            proof {
                let nr = views_of(r@);
                assert(nr =~= vr.insert(k as int, x@));
                assert forall|a: int, b: int| 0 <= a < b < nr.len() implies lex_lt(#[trigger] nr[a], #[trigger] nr[b]) by {
                    if a < k && b == k {
                    } else if a < k && b > k {
                        assert(nr[a] == vr[a]);
                        assert(nr[b] == vr[b - 1]);
                        lemma_lex_transitive(vr[a], x@, vr[b - 1]);
                    } else if a == k {
                        assert(nr[b] == vr[b - 1]);
                    } else if b < k {
                        assert(nr[a] == vr[a] && nr[b] == vr[b]);
                    } else {
                        assert(nr[a] == vr[a - 1] && nr[b] == vr[b - 1]);
                    }
                }
                assert forall|t: Seq<char>| nr.to_set().contains(t) <==> vr.to_set().insert(x@).contains(t) by {
                    if nr.to_set().contains(t) {
                        let m = choose|m: int| 0 <= m < nr.len() && nr[m] == t;
                        if m < k {
                            assert(vr[m] == t);
                        } else if m > k {
                            assert(vr[m - 1] == t);
                        }
                    }
                    if vr.to_set().contains(t) {
                        let m = choose|m: int| 0 <= m < vr.len() && vr[m] == t;
                        if m < k {
                            assert(nr[m] == t);
                        } else {
                            assert(nr[m + 1] == t);
                        }
                    }
                    if t == x@ {
                        assert(nr[k as int] == t);
                    }
                }
                assert(nr.to_set() =~= vr.to_set().insert(x@));
            }
        }
        i = i + 1;
    }
    proof {
        assert(paths@.take(paths.len() as int) =~= paths@);
    }
    r
}


// ---------------------------------------------------------------------------
// What to search for.

pub open spec fn ends_with_exe(s: Seq<char>) -> bool {
    s.len() >= 4 && s.subrange(s.len() - 4, s.len() as int) == crate::text::exe_suffix()
}

/// The executable name a lowercase process name stands for: itself when it
/// already ends in `.exe`, else with `.exe` appended.
pub open spec fn with_exe(lower: Seq<char>) -> Seq<char> {
    if ends_with_exe(lower) {
        lower
    } else {
        lower + crate::text::exe_suffix()
    }
}

/// The names a search for `process_name` accepts.
#[derive(Debug)]
pub struct ExeTarget {
    /// The trimmed name, lowercased.
    pub lower: String,
    /// The same with `.exe` (see [`with_exe`]).
    pub with_exe: String,
    /// Paths of cached processes with either name.
    pub cached_paths: Vec<String>,
}

/// The first stage of looking up the executable paths of a process name.
#[derive(Debug)]
pub enum ExeSearch {
    /// Empty name: no paths.
    Nothing,
    /// The name is itself an absolute path: that path alone.
    Direct(String),
    /// Search running processes (and, failing that, install locations) for
    /// these names; the cached paths are the first results.
    Search(ExeTarget),
}

/// What the first stage gives for `process_name` against the cache, given
/// whether the trimmed name is an absolute path.
pub open spec fn exe_search_result(cache: Map<u32, Info>, process_name: Seq<char>, absolute: bool, r: ExeSearch) -> bool {
    let t = trimmed(process_name);
    if t.len() == 0 {
        r is Nothing
    } else if absolute {
        r matches ExeSearch::Direct(p) && p@ == t
    } else {
        r matches ExeSearch::Search(g) && {
            &&& g.lower@ == lowercase(t)
            &&& g.with_exe@ == with_exe(lowercase(t))
            &&& forall|p: Seq<char>|
                #![trigger views_of(g.cached_paths@).contains(p)]
                views_of(g.cached_paths@).contains(p) <==> exists|pid: u32|
                    #[trigger] cache.contains_key(pid) && named_path(cache[pid], g.lower@, g.with_exe@)
                        && cache[pid].path@ == p
        }
    }
}

/// Text that has no `/`, `\` or `:` in it.
pub open spec fn separator_free(p: Seq<char>) -> bool {
    !p.contains('/') && !p.contains('\\') && !p.contains(':')
}

/// Calls `std::path::Path::is_absolute`. What counts as absolute depends on
/// the platform's path rules (a root on Unix, a prefix and a root on
/// Windows), so only this is stated: text with no `/`, `\` or `:` has
/// neither a root nor a prefix and is never absolute.
#[verifier::external_body]
fn is_absolute_path(p: &str) -> (r: bool)
    ensures
        separator_free(p@) ==> !r,
{
    std::path::Path::new(p).is_absolute()
}

fn ends_with_exe_chars(s: &Vec<char>) -> (r: bool)
    ensures
        r == ends_with_exe(s@),
{
    if s.len() < 4 {
        return false;
    }
    let n = s.len();
    let r = s[n - 4] == '.' && s[n - 3] == 'e' && s[n - 2] == 'x' && s[n - 1] == 'e';
    proof {
        let tail = s@.subrange(n - 4, n as int);
        if r {
            assert(tail =~= crate::text::exe_suffix());
        } else {
            if tail == crate::text::exe_suffix() {
                assert(tail[0] == s@[n - 4]);
                assert(tail[1] == s@[n - 3]);
                assert(tail[2] == s@[n - 2]);
                assert(tail[3] == s@[n - 1]);
            }
        }
    }
    r
}

/// The final answer of a search for a process's executables: the paths
/// found for its cached and running processes, sorted with duplicates
/// removed; only when none was found, the installed executable (if one was
/// found in the usual install locations).
pub fn finish_exe_search(found: Vec<String>, installed: Option<String>) -> (r: Vec<String>)
    ensures
        strictly_sorted(views_of(r@)),
        found@.len() > 0 ==> views_of(r@).to_set() == views_of(found@).to_set(),
        found@.len() == 0 ==> views_of(r@) == match installed {
            Some(p) => seq![p@],
            None => Seq::<Seq<char>>::empty(),
        },
        (forall|i: int| 0 <= i < found@.len() ==> #[trigger] found@[i]@.len() > 0) && (installed matches Some(
            p,
        ) ==> p@.len() > 0) ==> forall|i: int| 0 <= i < r@.len() ==> #[trigger] r@[i]@.len() > 0,
{
    if found.len() > 0 {
        let ghost fv = views_of(found@);
        let r = sorted_unique_paths(found);
        proof {
            assert forall|i: int| 0 <= i < r@.len() && (forall|j: int| 0 <= j < fv.len() ==> #[trigger] fv[j].len() > 0)
                implies #[trigger] r@[i]@.len() > 0 by {
                assert(views_of(r@)[i] == r@[i]@);
                assert(views_of(r@).to_set().contains(r@[i]@));
                assert(fv.to_set().contains(r@[i]@));
                let j = choose|j: int| 0 <= j < fv.len() && fv[j] == r@[i]@;
            }
            assert((forall|i: int| 0 <= i < found@.len() ==> #[trigger] found@[i]@.len() > 0) ==> (forall|j: int|
                0 <= j < fv.len() ==> #[trigger] fv[j].len() > 0)) by {
                assert forall|j: int| 0 <= j < fv.len() && (forall|i: int| 0 <= i < found@.len() ==> #[trigger] found@[i]@.len() > 0)
                    implies #[trigger] fv[j].len() > 0 by {
                    assert(fv[j] == found@[j]@);
                }
            }
        }
        r
    } else {
        let mut r: Vec<String> = Vec::new();
        match installed {
            Some(p) => {
                r.push(p);
            },
            None => {},
        }
        proof {
            assert(views_of(r@) =~= match installed {
                Some(p) => seq![p@],
                None => Seq::<Seq<char>>::empty(),
            });
        }
        r
    }
}

impl Resolver {
    /// The first stage of finding the executables of `process_name`, given
    /// whether its trimmed form is an absolute path.
    pub fn exe_search_with(&self, process_name: &str, absolute: bool) -> (r: ExeSearch)
        ensures
            exe_search_result(self.cache(), process_name@, absolute, r),
    {
        let t = trim(process_name);
        let tc = chars_of(t);
        if tc.len() == 0 {
            return ExeSearch::Nothing;
        }
        if absolute {
            return ExeSearch::Direct(t.to_owned());
        }
        let lower = lower_chars(t);
        let exe = if ends_with_exe_chars(&lower) {
            lower.clone()
        } else {
            crate::text::concat_chars(&lower, &crate::text::exe_suffix_chars())
        };
        let cached_paths = self.cached_paths_named(&lower, &exe);
        ExeSearch::Search(ExeTarget {
            lower: crate::text::string_from_chars(&lower),
            with_exe: crate::text::string_from_chars(&exe),
            cached_paths,
        })
    }

    /// The first stage of finding the executables of `process_name`: the
    /// name is trimmed and checked for being an absolute path under the
    /// platform's rules, the outcome is that of
    /// [`Resolver::exe_search_with`] for that check.
    pub fn find_exe_paths_by_name(&self, process_name: &str) -> (r: ExeSearch)
        ensures
            exists|absolute: bool| exe_search_result(self.cache(), process_name@, absolute, r),
            separator_free(trimmed(process_name@)) ==> exe_search_result(self.cache(), process_name@, false, r),
    {
        let t = trim(process_name);
        let absolute = is_absolute_path(t);
        self.exe_search_with(process_name, absolute)
    }
}

/// Whether a running process's executable name (as the snapshot reports
/// it) is one the search accepts, case-insensitively.
pub fn exe_name_matches(target: &ExeTarget, exe_name: &str) -> (r: bool)
    ensures
        r == (lowercase(exe_name@) == target.lower@ || lowercase(exe_name@) == target.with_exe@),
{
    let n = lower_chars(exe_name);
    chars_eq(&n, &chars_of(target.lower.as_str())) || chars_eq(&n, &chars_of(target.with_exe.as_str()))
}

// ---------------------------------------------------------------------------
// Where installed programs usually live.

pub open spec fn or_default(v: Option<Seq<char>>, d: Seq<char>) -> Seq<char> {
    match v {
        Some(s) => s,
        None => d,
    }
}

pub open spec fn opt_view(v: Option<&str>) -> Option<Seq<char>> {
    match v {
        Some(s) => Some(s@),
        None => None,
    }
}

/// `{root}\{rel}\{exe}` (or `{root}\{exe}` for an empty `rel`).
pub open spec fn under(root: Seq<char>, rel: Seq<char>, exe: Seq<char>) -> Seq<char> {
    if rel.len() == 0 {
        root + "\\"@ + exe
    } else {
        root + "\\"@ + rel + "\\"@ + exe
    }
}

/// The usual install locations of `exe`, in the order they are tried, from
/// the `ProgramFiles`, `ProgramFiles(x86)`, `LOCALAPPDATA` and `SystemRoot`
/// environment values (each with its usual default when unset).
pub open spec fn install_candidates(
    pf: Option<Seq<char>>,
    pf86: Option<Seq<char>>,
    local: Option<Seq<char>>,
    sys: Option<Seq<char>>,
    exe: Seq<char>,
) -> Seq<Seq<char>> {
    let pf = or_default(pf, "C:\\Program Files"@);
    let pf86 = or_default(pf86, "C:\\Program Files (x86)"@);
    let local = or_default(local, Seq::empty());
    let sys = or_default(sys, "C:\\Windows"@);
    seq![
        under(pf, "Google\\Chrome\\Application"@, exe),
        under(pf86, "Google\\Chrome\\Application"@, exe),
        under(local, "Google\\Chrome\\Application"@, exe),
        under(pf, "Microsoft\\Edge\\Application"@, exe),
        under(pf86, "Microsoft\\Edge\\Application"@, exe),
        under(pf86, "Steam"@, exe),
        under(pf, "Steam"@, exe),
        under(pf, "Tencent\\WeChat"@, exe),
        under(pf86, "Tencent\\WeChat"@, exe),
        under(sys, "System32"@, exe),
        under(sys, Seq::empty(), exe),
    ]
}

fn joined(root: &str, rel: &str, exe: &str) -> (r: String)
    ensures
        r@ == under(root@, rel@, exe@),
{
    let mut r = root.to_owned();
    append(&mut r, "\\");
    let rc = chars_of(rel);
    if rc.len() > 0 {
        append(&mut r, rel);
        append(&mut r, "\\");
    }
    append(&mut r, exe);
    r
}

fn value_or<'a>(v: Option<&'a str>, d: &'a str) -> (r: &'a str)
    ensures
        r@ == or_default(opt_view(v), d@),
{
    match v {
        Some(s) => s,
        None => d,
    }
}

/// The paths of [`install_candidates`].
pub fn installed_exe_candidates(
    program_files: Option<&str>,
    program_files_x86: Option<&str>,
    local_app_data: Option<&str>,
    system_root: Option<&str>,
    exe_name: &str,
) -> (r: Vec<String>)
    ensures
        views_of(r@) == install_candidates(
            opt_view(program_files),
            opt_view(program_files_x86),
            opt_view(local_app_data),
            opt_view(system_root),
            exe_name@,
        ),
{
    let pf = value_or(program_files, "C:\\Program Files");
    let pf86 = value_or(program_files_x86, "C:\\Program Files (x86)");
    let local = value_or(local_app_data, "");
    let sys = value_or(system_root, "C:\\Windows");
    proof {
        reveal_strlit("");
    }
    let r = vec![
        joined(pf, "Google\\Chrome\\Application", exe_name),
        joined(pf86, "Google\\Chrome\\Application", exe_name),
        joined(local, "Google\\Chrome\\Application", exe_name),
        joined(pf, "Microsoft\\Edge\\Application", exe_name),
        joined(pf86, "Microsoft\\Edge\\Application", exe_name),
        joined(pf86, "Steam", exe_name),
        joined(pf, "Steam", exe_name),
        joined(pf, "Tencent\\WeChat", exe_name),
        joined(pf86, "Tencent\\WeChat", exe_name),
        joined(sys, "System32", exe_name),
        joined(sys, "", exe_name),
    ];
    proof {
        reveal_strlit("Google\\Chrome\\Application");
        reveal_strlit("Microsoft\\Edge\\Application");
        reveal_strlit("Steam");
        reveal_strlit("Tencent\\WeChat");
        reveal_strlit("System32");
        assert(views_of(r@) =~= install_candidates(
            opt_view(program_files),
            opt_view(program_files_x86),
            opt_view(local_app_data),
            opt_view(system_root),
            exe_name@,
        ));
    }
    r
}

} // verus!
