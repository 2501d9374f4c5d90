//! Cache of process icons (Base64 data URIs), keyed by normalized path.
//!
//! Looking an icon up either answers from the cache or asks the caller to
//! extract it from the executable; the extracted result (possibly nothing)
//! is then remembered, so a missing file is not queried again.

use vstd::prelude::*;
use crate::keyed::{map_of, keys_distinct, has_key, lemma_map_of, lemma_map_of_update,
    lemma_map_of_push};
use crate::text::{normalize, normalized};

verus! {

/// One cached icon.
#[derive(Debug)]
pub struct IconEntry {
    /// Normalized executable path.
    pub key: String,
    /// Data URI of the icon; empty when extraction failed.
    pub data_uri: String,
}

pub open spec fn icon_key() -> spec_fn(IconEntry) -> Seq<char> {
    |e: IconEntry| e.key@
}

/// Icon cache: normalized path -> data URI.
pub struct IconCache {
    entries: Vec<IconEntry>,
}

impl View for IconCache {
    type V = Map<Seq<char>, Seq<char>>;

    closed spec fn view(&self) -> Map<Seq<char>, Seq<char>> {
        map_of(self.entries@, icon_key()).map_values(|e: IconEntry| e.data_uri@)
    }
}

/// Outcome of an icon lookup.
#[derive(Debug)]
pub enum IconLookup {
    /// No icon for this path (empty, or a pseudo path such as `[Windows Kernel]`):
    /// the answer is the empty string.
    Skip,
    /// The cached data URI.
    Cached(String),
    /// Not cached yet: extract the icon, then hand the result to
    /// [`remember_icon`] under this key.
    Extract(String),
}

/// What a lookup of `exe_path` answers, given the cache contents.
pub open spec fn icon_lookup_result(cache: Map<Seq<char>, Seq<char>>, exe_path: Seq<char>, r: IconLookup) -> bool {
    let key = normalized(exe_path);
    if key.len() == 0 || key[0] == '[' {
        r is Skip
    } else if cache.contains_key(key) {
        r matches IconLookup::Cached(s) && s@ == cache[key]
    } else {
        r matches IconLookup::Extract(k) && k@ == key
    }
}

impl IconCache {
    #[verifier::type_invariant]
    closed spec fn inv(self) -> bool {
        keys_distinct(self.entries@, icon_key())
    }

    pub fn new() -> (c: Self)
        ensures
            c@ == Map::<Seq<char>, Seq<char>>::empty(),
    {
        let c = IconCache { entries: Vec::new() };
        assert(c@ =~= Map::<Seq<char>, Seq<char>>::empty());
        c
    }

    fn position(&self, key: &String) -> (r: Option<usize>)
        ensures
            match r {
                Some(i) => i < self.entries.len() && self.entries@[i as int].key@ == key@,
                None => !has_key(self.entries@, icon_key(), key@),
            },
    {
        let mut i: usize = 0;
        while i < self.entries.len()
            invariant
                i <= self.entries.len(),
                forall|j: int| 0 <= j < i ==> self.entries@[j].key@ != key@,
            decreases self.entries.len() - i,
        {
            if self.entries[i].key == *key {
                return Some(i);
            }
            i = i + 1;
        }
        assert(!has_key(self.entries@, icon_key(), key@)) by {
            if has_key(self.entries@, icon_key(), key@) {
                let j = choose|j: int|
                    0 <= j < self.entries@.len() && (icon_key())(self.entries@[j]) == key@;
            }
        }
        None
    }
}

/// Look up the icon of `exe_path` by its normalized form (trimmed,
/// lowercased).
pub fn get_process_icon_b64(cache: &IconCache, exe_path: &str) -> (r: IconLookup)
    ensures
        icon_lookup_result(cache@, exe_path@, r),
{
    proof {
        use_type_invariant(cache);
        lemma_map_of(cache.entries@, icon_key());
    }
    let key = normalize(exe_path);
    let kc = crate::text::chars_of(key.as_str());
    if kc.len() == 0 || kc[0] == '[' {
        return IconLookup::Skip;
    }
    match cache.position(&key) {
        Some(i) => {
            proof {
                assert(map_of(cache.entries@, icon_key())[(icon_key())(cache.entries@[i as int])]
                    == cache.entries@[i as int]);
            }
            IconLookup::Cached(cache.entries[i].data_uri.clone())
        },
        None => IconLookup::Extract(key),
    }
}

/// Remember what extraction gave for `key` (nothing counts as the empty
/// string) and return it.
pub fn remember_icon(cache: &mut IconCache, key: String, extracted: Option<String>) -> (uri: String)
    ensures
        uri@ == match extracted {
            Some(s) => s@,
            None => Seq::<char>::empty(),
        },
        final(cache)@ == old(cache)@.insert(key@, uri@),
{
    proof {
        use_type_invariant(&*cache);
    }
    let uri = match extracted {
        Some(s) => s,
        None => String::new(),
    };
    let entry = IconEntry { key: key.clone(), data_uri: uri.clone() };
    let ghost old_map = map_of(cache.entries@, icon_key());
    match cache.position(&key) {
        Some(i) => {
            proof {
                lemma_map_of_update(cache.entries@, icon_key(), i as int, entry);
            }
            let mut entries = Vec::new();
            std::mem::swap(&mut entries, &mut cache.entries);
            entries.set(i, entry);
            *cache = IconCache { entries };
        },
        None => {
            proof {
                lemma_map_of_push(cache.entries@, icon_key(), entry);
            }
            let mut entries = Vec::new();
            std::mem::swap(&mut entries, &mut cache.entries);
            entries.push(entry);
            *cache = IconCache { entries };
        },
    }
    proof {
        assert(map_of(cache.entries@, icon_key()) == old_map.insert(key@, entry));
        assert(cache@ =~= old_map.map_values(|e: IconEntry| e.data_uri@).insert(key@, uri@));
    }
    uri
}


/// A remembered icon is what the next lookup of the same executable (under
/// any spelling that normalizes the same) answers, without extracting again.
pub proof fn remembered_icon_is_answered(
    cache: Map<Seq<char>, Seq<char>>,
    exe_path: Seq<char>,
    uri: Seq<char>,
    r: IconLookup,
)
    requires
        normalized(exe_path).len() > 0,
        normalized(exe_path)[0] != '[',
        icon_lookup_result(cache.insert(normalized(exe_path), uri), exe_path, r),
    ensures
        r matches IconLookup::Cached(s) && s@ == uri,
{
}

} // verus!
