//! Process-name matcher supporting `*` wildcards (case-insensitive).

use vstd::prelude::*;
use crate::text::{lowercase, lower_chars, same_program, same_program_chars, is_ascii_str, ascii_lowercase,
    ascii_uppercase, ascii_lower_char, ascii_upper_char};

verus! {

/// Classical wildcard semantics: `*` matches any (possibly empty) run of
/// characters, every other character matches itself.
pub open spec fn glob(p: Seq<char>, n: Seq<char>) -> bool
    decreases p.len(), n.len(),
{
    if p.len() == 0 {
        n.len() == 0
    } else if p[0] == '*' {
        glob(p.drop_first(), n) || (n.len() > 0 && glob(p, n.drop_first()))
    } else {
        n.len() > 0 && n[0] == p[0] && glob(p.drop_first(), n.drop_first())
    }
}

pub open spec fn star_free(s: Seq<char>) -> bool {
    forall|i: int| 0 <= i < s.len() ==> s[i] != '*'
}

/// What [`match_process`] decides for `pattern` and `name`: both are
/// lowercased; a pattern without `*` names the same program as the name
/// (`.exe` may be appended on either side), a pattern with `*` matches the name
/// as a wildcard pattern.
pub open spec fn process_matches(pattern: Seq<char>, name: Seq<char>) -> bool {
    let p = lowercase(pattern);
    let n = lowercase(name);
    if p.contains('*') {
        glob(p, n)
    } else {
        same_program(p, n)
    }
}

/// [`process_matches`] on ASCII text: the same decision, with the ASCII
/// lowercase mapping.
pub open spec fn ascii_process_matches(pattern: Seq<char>, name: Seq<char>) -> bool {
    let p = ascii_lowercase(pattern);
    let n = ascii_lowercase(name);
    if p.contains('*') {
        glob(p, n)
    } else {
        same_program(p, n)
    }
}

// ---------------------------------------------------------------------------
// Lemmas about `glob`.

/// A literal (star-free) prefix of the pattern must be a prefix of the name.
proof fn lemma_literal_prefix(lit: Seq<char>, q: Seq<char>, n: Seq<char>)
    requires
        star_free(lit),
    ensures
        glob(lit + q, n) == (lit.len() <= n.len() && n.take(lit.len() as int) == lit && glob(
            q,
            n.skip(lit.len() as int),
        )),
    decreases lit.len(),
{
    if lit.len() == 0 {
        assert(lit + q =~= q);
        assert(n.take(0) =~= lit);
        assert(n.skip(0) =~= n);
    } else {
        let p = lit + q;
        assert(p[0] == lit[0]);
        assert(p.drop_first() =~= lit.drop_first() + q);
        if n.len() > 0 {
            let m = n.drop_first();
            let l2 = lit.drop_first();
            lemma_literal_prefix(l2, q, m);
            if lit.len() <= n.len() {
                assert(m.skip(l2.len() as int) =~= n.skip(lit.len() as int));
                if n.take(lit.len() as int) == lit {
                    assert(n[0] == n.take(lit.len() as int)[0]);
                    assert(m.take(l2.len() as int) =~= l2) by {
                        assert forall|i: int| 0 <= i < l2.len() implies m.take(
                            l2.len() as int,
                        )[i] == l2[i] by {
                            assert(n.take(lit.len() as int)[i + 1] == lit[i + 1]);
                        }
                    }
                }
                if n[0] == lit[0] && m.take(l2.len() as int) == l2 {
                    assert(n.take(lit.len() as int) =~= lit) by {
                        assert forall|i: int| 0 <= i < lit.len() implies n.take(
                            lit.len() as int,
                        )[i] == lit[i] by {
                            if i > 0 {
                                assert(m.take(l2.len() as int)[i - 1] == l2[i - 1]);
                            }
                        }
                    }
                }
            }
        }
    }
}

/// A star-free pattern matches exactly itself.
proof fn lemma_literal_whole(lit: Seq<char>, n: Seq<char>)
    requires
        star_free(lit),
    ensures
        glob(lit, n) == (n == lit),
{
    lemma_literal_prefix(lit, Seq::empty(), n);
    assert(lit + Seq::<char>::empty() =~= lit);
    if lit.len() <= n.len() && n.take(lit.len() as int) == lit {
        if n.skip(lit.len() as int).len() == 0 {
            assert(n =~= lit);
        }
    }
    if n == lit {
        assert(n.take(lit.len() as int) =~= lit);
        assert(n.skip(lit.len() as int) =~= Seq::<char>::empty());
    }
}

/// Introduction for a leading star: skipping any `j` characters is allowed.
proof fn lemma_star_intro(q: Seq<char>, n: Seq<char>, j: int)
    requires
        0 <= j <= n.len(),
        glob(q, n.skip(j)),
    ensures
        glob(seq!['*'] + q, n),
    decreases j,
{
    let p = seq!['*'] + q;
    assert(p[0] == '*');
    assert(p.drop_first() =~= q);
    if j == 0 {
        assert(n.skip(0) =~= n);
    } else {
        assert(n.drop_first().skip(j - 1) =~= n.skip(j));
        lemma_star_intro(q, n.drop_first(), j - 1);
    }
}

/// Elimination for a leading star: some number of skipped characters works.
proof fn lemma_star_elim(q: Seq<char>, n: Seq<char>) -> (j: int)
    requires
        glob(seq!['*'] + q, n),
    ensures
        0 <= j <= n.len(),
        glob(q, n.skip(j)),
    decreases n.len(),
{
    let p = seq!['*'] + q;
    assert(p[0] == '*');
    assert(p.drop_first() =~= q);
    if glob(q, n) {
        assert(n.skip(0) =~= n);
        0
    } else {
        let k = lemma_star_elim(q, n.drop_first());
        assert(n.drop_first().skip(k) =~= n.skip(k + 1));
        k + 1
    }
}

/// Under a leading star, matching a suffix implies matching every longer suffix.
proof fn lemma_star_monotone(q: Seq<char>, n: Seq<char>, a: int, b: int)
    requires
        0 <= b <= a <= n.len(),
        glob(seq!['*'] + q, n.skip(a)),
    ensures
        glob(seq!['*'] + q, n.skip(b)),
{
    let j = lemma_star_elim(q, n.skip(a));
    assert(n.skip(a).skip(j) =~= n.skip(b).skip(a - b + j));
    lemma_star_intro(q, n.skip(b), a - b + j);
}

pub open spec fn occurs_at(n: Seq<char>, i: int, seg: Seq<char>) -> bool {
    0 <= i && i + seg.len() <= n.len() && n.subrange(i, i + seg.len()) == seg
}

/// Greedy step: under a leading star, a star-free segment followed by a star
/// may be placed at its leftmost occurrence without loss.
proof fn lemma_middle_segment(seg: Seq<char>, r: Seq<char>, n: Seq<char>, pos: int)
    requires
        star_free(seg),
        r.len() > 0,
        r[0] == '*',
        0 <= pos <= n.len(),
    ensures
        glob(seq!['*'] + (seg + r), n.skip(pos)) <==> exists|i: int|
            pos <= i && #[trigger] occurs_at(n, i, seg) && glob(r, n.skip(i + seg.len())),
        forall|i: int|
            pos <= i && occurs_at(n, i, seg) && (forall|k: int|
                pos <= k < i ==> !#[trigger] occurs_at(n, k, seg)) ==> (glob(
                seq!['*'] + (seg + r),
                n.skip(pos),
            ) == glob(r, n.skip(i + seg.len()))),
{
    let rq = r.drop_first();
    assert(r =~= seq!['*'] + rq);
    if glob(seq!['*'] + (seg + r), n.skip(pos)) {
        let j = lemma_star_elim(seg + r, n.skip(pos));
        lemma_literal_prefix(seg, r, n.skip(pos).skip(j));
        let m = n.skip(pos).skip(j);
        assert(m =~= n.skip(pos + j));
        assert(m.take(seg.len() as int) =~= n.subrange(pos + j, pos + j + seg.len()));
        assert(m.skip(seg.len() as int) =~= n.skip(pos + j + seg.len()));
        assert(occurs_at(n, pos + j, seg));
    }
    assert forall|i: int| pos <= i && #[trigger] occurs_at(n, i, seg) && glob(
        r,
        n.skip(i + seg.len()),
    ) implies glob(seq!['*'] + (seg + r), n.skip(pos)) by {
        let m = n.skip(i);
        assert(m.take(seg.len() as int) =~= n.subrange(i, i + seg.len()));
        assert(m.skip(seg.len() as int) =~= n.skip(i + seg.len()));
        lemma_literal_prefix(seg, r, m);
        assert(n.skip(pos).skip(i - pos) =~= m);
        lemma_star_intro(seg + r, n.skip(pos), i - pos);
    }
    assert forall|i: int|
        pos <= i && occurs_at(n, i, seg) && (forall|k: int|
            pos <= k < i ==> !#[trigger] occurs_at(n, k, seg)) implies (glob(
        seq!['*'] + (seg + r),
        n.skip(pos),
    ) == glob(r, n.skip(i + seg.len()))) by {
        if glob(seq!['*'] + (seg + r), n.skip(pos)) {
            let j = lemma_star_elim(seg + r, n.skip(pos));
            let m = n.skip(pos).skip(j);
            lemma_literal_prefix(seg, r, m);
            assert(m =~= n.skip(pos + j));
            assert(m.take(seg.len() as int) =~= n.subrange(pos + j, pos + j + seg.len()));
            assert(m.skip(seg.len() as int) =~= n.skip(pos + j + seg.len()));
            assert(occurs_at(n, pos + j, seg));
            assert(pos + j >= i);
            lemma_star_monotone(rq, n, pos + j + seg.len(), i + seg.len());
        }
    }
}

/// The last segment: under a leading star, a star-free tail must end the name.
proof fn lemma_last_segment(seg: Seq<char>, n: Seq<char>, pos: int)
    requires
        star_free(seg),
        0 <= pos <= n.len(),
    ensures
        glob(seq!['*'] + seg, n.skip(pos)) == (n.len() - pos >= seg.len() && n.skip(
            n.len() - seg.len(),
        ) == seg),
{
    if glob(seq!['*'] + seg, n.skip(pos)) {
        let j = lemma_star_elim(seg, n.skip(pos));
        lemma_literal_whole(seg, n.skip(pos).skip(j));
        assert(n.skip(pos).skip(j) =~= n.skip(pos + j));
        assert(n.skip(pos + j).len() == seg.len());
    }
    if n.len() - pos >= seg.len() && n.skip(n.len() - seg.len()) == seg {
        let j = n.len() - seg.len() - pos;
        assert(n.skip(pos).skip(j) =~= n.skip(n.len() - seg.len()));
        lemma_literal_whole(seg, n.skip(pos).skip(j));
        lemma_star_intro(seg, n.skip(pos), j);
    }
}

// ---------------------------------------------------------------------------
// Executable pieces.

/// First `*` in `p` at or after `from`.
fn find_star(p: &Vec<char>, from: usize) -> (r: Option<usize>)
    requires
        from <= p.len(),
    ensures
        match r {
            Some(i) => from <= i < p.len() && p@[i as int] == '*' && forall|k: int|
                from <= k < i ==> p@[k] != '*',
            None => forall|k: int| from <= k < p.len() ==> p@[k] != '*',
        },
{
    let mut i = from;
    while i < p.len()
        invariant
            from <= i <= p.len(),
            forall|k: int| from <= k < i ==> p@[k] != '*',
        decreases p.len() - i,
    {
        if p[i] == '*' {
            return Some(i);
        }
        i = i + 1;
    }
    None
}

/// Whether `p[lo..hi]` occurs in `n` at `at`.
fn region_eq(n: &Vec<char>, at: usize, p: &Vec<char>, lo: usize, hi: usize) -> (r: bool)
    requires
        lo <= hi <= p.len(),
    ensures
        r == occurs_at(n@, at as int, p@.subrange(lo as int, hi as int)),
{
    let len = hi - lo;
    if at > n.len() || len > n.len() - at {
        return false;
    }
    let mut k: usize = 0;
    while k < len
        invariant
            len == hi - lo,
            lo <= hi <= p.len(),
            at + len <= n.len(),
            k <= len,
            forall|t: int| 0 <= t < k ==> #[trigger] n@[at + t] == p@[lo + t],
        decreases len - k,
    {
        if n[at + k] != p[lo + k] {
            assert(n@.subrange(at as int, at + len)[k as int] != p@.subrange(
                lo as int,
                hi as int,
            )[k as int]);
            return false;
        }
        k = k + 1;
    }
    assert forall|t: int| 0 <= t < len implies n@.subrange(at as int, at + len)[t]
        == p@.subrange(lo as int, hi as int)[t] by {
        assert(n@[at + t] == p@[lo + t]);
    }
    assert(n@.subrange(at as int, at + len) =~= p@.subrange(lo as int, hi as int));
    true
}

/// Leftmost occurrence of `p[lo..hi]` in `n` at or after `pos`.
fn find_from(n: &Vec<char>, pos: usize, p: &Vec<char>, lo: usize, hi: usize) -> (r: Option<
    usize,
>)
    requires
        lo <= hi <= p.len(),
        pos <= n.len(),
    ensures
        match r {
            Some(i) => pos <= i && occurs_at(n@, i as int, p@.subrange(lo as int, hi as int))
                && forall|k: int|
                pos <= k < i ==> !#[trigger] occurs_at(n@, k, p@.subrange(lo as int, hi as int)),
            None => forall|k: int|
                pos <= k ==> !#[trigger] occurs_at(n@, k, p@.subrange(lo as int, hi as int)),
        },
{
    let ghost seg = p@.subrange(lo as int, hi as int);
    let mut i = pos;
    loop
        invariant
            pos <= i <= n.len(),
            lo <= hi <= p.len(),
            seg == p@.subrange(lo as int, hi as int),
            forall|k: int| pos <= k < i ==> !#[trigger] occurs_at(n@, k, seg),
        ensures
            forall|k: int| pos <= k <= n.len() ==> !#[trigger] occurs_at(n@, k, seg),
        decreases n.len() - i,
    {
        if region_eq(n, i, p, lo, hi) {
            return Some(i);
        }
        if i == n.len() {
            break;
        }
        i = i + 1;
    }
    None
}

fn contains_star(p: &Vec<char>) -> (r: bool)
    ensures
        r == p@.contains('*'),
{
    match find_star(p, 0) {
        Some(i) => {
            assert(p@[i as int] == '*');
            true
        },
        None => false,
    }
}

/// Greedy ordered-segment matching of a pattern that holds a `*`: the first
/// segment is a prefix, each middle segment is placed at its leftmost
/// occurrence, and the last segment must end the remaining name.
fn glob_greedy(p: &Vec<char>, n: &Vec<char>) -> (r: bool)
    requires
        p@.contains('*'),
    ensures
        r == glob(p@, n@),
{
    let first = match find_star(p, 0) {
        Some(i) => i,
        None => {
            proof {
                let k = choose|k: int| 0 <= k < p@.len() && p@[k] == '*';
            }
            return false;
        },
    };
    proof {
        let seg0 = p@.subrange(0, first as int);
        assert(p@ =~= seg0 + p@.skip(first as int));
        lemma_literal_prefix(seg0, p@.skip(first as int), n@);
        assert(n@.take(first as int) =~= n@.subrange(0, first as int));
    }
    if !region_eq(n, 0, p, 0, first) {
        return false;
    }
    proof {
        assert(n@.take(first as int) =~= p@.subrange(0, first as int));
    }
    let mut pos: usize = first;
    let mut q: usize = first;
    loop
        invariant
            q < p.len(),
            p@[q as int] == '*',
            pos <= n.len(),
            glob(p@, n@) == glob(p@.skip(q as int), n@.skip(pos as int)),
        decreases p.len() - q,
    {
        match find_star(p, q + 1) {
            None => {
                let ghost seg = p@.skip(q + 1);
                proof {
                    assert(p@.skip(q as int) =~= seq!['*'] + seg);
                    lemma_last_segment(seg, n@, pos as int);
                }
                let seg_len = p.len() - (q + 1);
                if seg_len == 0 {
                    proof {
                        assert(n@.skip(n@.len() as int) =~= seg);
                    }
                    return true;
                }
                if n.len() - pos < seg_len {
                    return false;
                }
                let at = n.len() - seg_len;
                let ok = region_eq(n, at, p, q + 1, p.len());
                proof {
                    assert(p@.subrange(q + 1, p@.len() as int) =~= seg);
                    if ok {
                        assert(n@.skip(at as int) =~= n@.subrange(at as int, at + seg_len));
                    } else {
                        assert(n@.skip(at as int) =~= n@.subrange(at as int, at + seg_len));
                    }
                }
                return ok;
            },
            Some(q2) => {
                let ghost seg = p@.subrange(q + 1, q2 as int);
                let ghost r = p@.skip(q2 as int);
                proof {
                    assert(p@.skip(q as int) =~= seq!['*'] + (seg + r));
                    lemma_middle_segment(seg, r, n@, pos as int);
                }
                if q2 == q + 1 {
                    // Empty segment (`**`): nothing to place.
                    proof {
                        assert(occurs_at(n@, pos as int, seg)) by {
                            assert(n@.subrange(pos as int, pos as int) =~= seg);
                        }
                        assert(seg.len() == 0);
                        assert(n@.skip(pos + seg.len()) =~= n@.skip(pos as int));
                    }
                    q = q2;
                } else {
                    match find_from(n, pos, p, q + 1, q2) {
                        None => {
                            return false;
                        },
                        Some(i) => {
                            pos = i + (q2 - (q + 1));
                            q = q2;
                        },
                    }
                }
            },
        }
    }
}

/// Returns `true` if `name` matches `pattern`.
///
/// Matching is case-insensitive. A pattern without `*` requires an exact match
/// (also allowing a `.exe` suffix on either side). A pattern containing `*`
/// performs ordered segment matching (e.g. `chrome*`, `*setup*`, `svc*host`),
/// which is exactly wildcard matching where `*` stands for any run of characters.
pub fn match_process(pattern: &str, name: &str) -> (r: bool)
    ensures
        r == process_matches(pattern@, name@),
        is_ascii_str(pattern@) && is_ascii_str(name@) ==> r == ascii_process_matches(pattern@, name@),
        !pattern@.contains('*') ==> r == same_program(lowercase(pattern@), lowercase(name@)),
        pattern@.contains('*') ==> r == glob(lowercase(pattern@), lowercase(name@)),
{
    let p = lower_chars(pattern);
    let n = lower_chars(name);
    if !contains_star(&p) {
        return same_program_chars(&p, &n);
    }
    glob_greedy(&p, &n)
}


/// A pattern that is a lone `*` matches every name.
pub proof fn star_matches_every_name(n: Seq<char>)
    ensures
        glob(seq!['*'], n),
    decreases n.len(),
{
    let star = seq!['*'];
    assert(star.drop_first() =~= Seq::<char>::empty());
    assert(star[0] == '*');
    if n.len() > 0 {
        star_matches_every_name(n.drop_first());
    } else {
        assert(glob(star.drop_first(), n));
    }
}

proof fn lemma_glob_self(p: Seq<char>)
    ensures
        glob(p, p),
    decreases p.len(),
{
    if p.len() > 0 {
        lemma_glob_self(p.drop_first());
        if p[0] == '*' {
            assert(glob(p, p.drop_first()));
        }
    }
}

/// Every process name, used as a pattern, matches itself.
pub proof fn name_matches_itself(n: Seq<char>)
    ensures
        process_matches(n, n),
{
    lemma_glob_self(lowercase(n));
}

proof fn lemma_lower_of_upper(s: Seq<char>)
    ensures
        ascii_lowercase(ascii_uppercase(s)) == ascii_lowercase(s),
{
    assert forall|i: int| 0 <= i < s.len() implies ascii_lower_char(ascii_upper_char(s[i])) == ascii_lower_char(s[i]) by {
        let c = s[i];
        if 'a' <= c <= 'z' {
            let u = ((c as u32) - 32) as char;
            assert(u as u32 == (c as u32) - 32);
            assert('A' <= u <= 'Z');
            assert(((u as u32) + 32) as char == c);
        }
    }
    assert(ascii_lowercase(ascii_uppercase(s)) =~= ascii_lowercase(s));
}

/// Matching ignores ASCII case: upper-casing the name or the pattern (ASCII
/// letters) never changes whether they match.
pub proof fn matching_ignores_ascii_case(pattern: Seq<char>, name: Seq<char>)
    ensures
        ascii_process_matches(pattern, ascii_uppercase(name)) == ascii_process_matches(pattern, name),
        ascii_process_matches(ascii_uppercase(pattern), name) == ascii_process_matches(pattern, name),
{
    lemma_lower_of_upper(name);
    lemma_lower_of_upper(pattern);
}

} // verus!
