//! TTL-bounded cache of registry answers, keyed by source and package.
//!
//! The store itself is an in-memory table of entries; persisting it is a
//! caller's concern.  An entry is written on a successful non-local query
//! and read back only while it is fresh: a read that finds an expired
//! entry removes it.

use vstd::prelude::*;

verus! {

/// How long a cache entry stays fresh, in seconds.
pub const DEFAULT_TTL_SECS: u64 = 3600;

/// Whether a character survives sanitization.  Relies on
/// `char::is_alphanumeric`, named below, for the alphanumeric class.
pub open spec fn keeps_char(c: char) -> bool {
    char_alphanumeric(c) || c == '-' || c == '_'
}

/// Whether a character is Unicode alphanumeric: the class that
/// `char::is_alphanumeric` decides, a property of the character alone.
pub uninterp spec fn char_alphanumeric(c: char) -> bool;

/// Relies on `char::is_alphanumeric` of std, which decides whether a
/// character is in the Unicode `Alphabetic` class or is numeric; vstd
/// gives it no specification, so its result is only named here.
pub assume_specification[ char::is_alphanumeric ](c: char) -> (r: bool)
    ensures
        r == char_alphanumeric(c),
;

/// Relies on `String::push` of std: appends one character.
pub assume_specification[ String::push ](s: &mut String, c: char)
    ensures
        final(s)@ == old(s)@.push(c),
;

/// `name`, with every character that is not alphanumeric, `-` or `_`
/// replaced by `_`.
pub open spec fn spec_sanitize(name: Seq<char>) -> Seq<char> {
    name.map_values(
        |c: char|
            if keeps_char(c) {
                c
            } else {
                '_'
            },
    )
}

/// Sanitize a package name for use in a storage key.
pub fn sanitize(name: &str) -> (r: String)
    ensures
        r@ == spec_sanitize(name@),
{
    let n = name.unicode_len();
    let mut r = String::new();
    let mut i: usize = 0;
    while i < n
        invariant
            n == name@.len(),
            i <= n,
            r@ == spec_sanitize(name@.take(i as int)),
        decreases n - i,
    {
        let c = name.get_char(i);
        let ghost prev = r@;
        if c.is_alphanumeric() || c == '-' || c == '_' {
            r.push(c);
        } else {
            r.push('_');
        }
        proof {
            assert(name@.take(i + 1) =~= name@.take(i as int).push(name@[i as int]));
            assert(spec_sanitize(name@.take(i + 1)) =~= r@);
        }
        i += 1;
    }
    proof {
        assert(name@.take(n as int) =~= name@);
    }
    r
}

/// The storage key of a cached answer: source name, a dash, and the
/// sanitized package name.
pub open spec fn cache_key(source: Seq<char>, package: Seq<char>) -> Seq<char> {
    source + seq!['-'] + spec_sanitize(package)
}

/// One cached answer: the version a source reported and when.
pub struct CacheEntry {
    pub version: String,
    pub timestamp: u64,
}

/// An entry written at `ts` is fresh at `now` while less than a TTL has
/// elapsed.
pub open spec fn entry_fresh(ts: u64, now: u64) -> bool {
    now - ts < DEFAULT_TTL_SECS
}

/// The cache: a table of entries with distinct keys.
pub struct Cache {
    entries: Vec<(String, CacheEntry)>,
}

/// The map a sequence of keyed entries denotes, later entries winning.
pub open spec fn entries_map(s: Seq<(String, CacheEntry)>) -> Map<Seq<char>, (Seq<char>, u64)>
    decreases s.len(),
{
    if s.len() == 0 {
        Map::empty()
    } else {
        entries_map(s.drop_last()).insert(
            s.last().0@,
            (s.last().1.version@, s.last().1.timestamp),
        )
    }
}

/// A key absent from every entry is absent from the map.
proof fn lemma_entries_map_absent(s: Seq<(String, CacheEntry)>, k: Seq<char>)
    requires
        forall|i: int| 0 <= i < s.len() ==> #[trigger] s[i].0@ != k,
    ensures
        !entries_map(s).contains_key(k),
    decreases s.len(),
{
    if s.len() > 0 {
        lemma_entries_map_absent(s.drop_last(), k);
        assert(s[s.len() - 1].0@ != k);
    }
}

/// With distinct keys, every entry is in the map with its own value.
proof fn lemma_entries_map_index(s: Seq<(String, CacheEntry)>, i: int)
    requires
        0 <= i < s.len(),
        forall|p: int, q: int| 0 <= p < q < s.len() ==> #[trigger] s[p].0@ != #[trigger] s[q].0@,
    ensures
        entries_map(s).contains_key(s[i].0@),
        entries_map(s)[s[i].0@] == (s[i].1.version@, s[i].1.timestamp),
    decreases s.len(),
{
    if i == s.len() - 1 {
    } else {
        lemma_entries_map_index(s.drop_last(), i);
        assert(s.drop_last()[i] == s[i]);
        assert(s[i].0@ != s[s.len() - 1].0@);
    }
}

/// With distinct keys, removing entry `i` removes exactly its key.
proof fn lemma_entries_map_remove(s: Seq<(String, CacheEntry)>, i: int)
    requires
        0 <= i < s.len(),
        forall|p: int, q: int| 0 <= p < q < s.len() ==> #[trigger] s[p].0@ != #[trigger] s[q].0@,
    ensures
        entries_map(s.remove(i)) =~= entries_map(s).remove(s[i].0@),
    decreases s.len(),
{
    let k = s[i].0@;
    if i == s.len() - 1 {
        assert(s.remove(i) =~= s.drop_last());
        lemma_entries_map_absent_of_distinct(s);
        assert(entries_map(s.drop_last()) =~= entries_map(s.drop_last()).insert(
            k,
            (s[i].1.version@, s[i].1.timestamp),
        ).remove(k));
    } else {
        let t = s.drop_last();
        assert(s.remove(i).drop_last() =~= t.remove(i));
        assert(s.remove(i).last() == s.last());
        lemma_entries_map_remove(t, i);
        assert(t[i] == s[i]);
        assert(s[i].0@ != s.last().0@);
    }
}

/// With distinct keys, the last entry's key is absent from the rest.
proof fn lemma_entries_map_absent_of_distinct(s: Seq<(String, CacheEntry)>)
    requires
        s.len() > 0,
        forall|p: int, q: int| 0 <= p < q < s.len() ==> #[trigger] s[p].0@ != #[trigger] s[q].0@,
    ensures
        !entries_map(s.drop_last()).contains_key(s.last().0@),
{
    lemma_entries_map_absent(s.drop_last(), s.last().0@);
}

/// What a cache read yields: the stored version while fresh, nothing
/// otherwise.
pub open spec fn spec_cache_get(
    m: Map<Seq<char>, (Seq<char>, u64)>,
    k: Seq<char>,
    now: u64,
) -> Option<Seq<char>> {
    if m.contains_key(k) && entry_fresh(m[k].1, now) {
        Option::Some(m[k].0)
    } else {
        Option::None
    }
}

/// What a cache read leaves behind: the same map, less the entry it found
/// expired.
pub open spec fn spec_cache_after_get(
    m: Map<Seq<char>, (Seq<char>, u64)>,
    k: Seq<char>,
    now: u64,
) -> Map<Seq<char>, (Seq<char>, u64)> {
    if m.contains_key(k) && !entry_fresh(m[k].1, now) {
        m.remove(k)
    } else {
        m
    }
}

impl View for Cache {
    type V = Map<Seq<char>, (Seq<char>, u64)>;

    closed spec fn view(&self) -> Map<Seq<char>, (Seq<char>, u64)> {
        entries_map(self.entries@)
    }
}

impl Cache {
    /// The table holds no two entries under one key.
    pub closed spec fn wf(&self) -> bool {
        forall|p: int, q: int|
            0 <= p < q < self.entries@.len() ==> #[trigger] self.entries@[p].0@
                != #[trigger] self.entries@[q].0@
    }

    /// An empty cache.
    pub fn new() -> (r: Cache)
        ensures
            r.wf(),
            r@ == Map::<Seq<char>, (Seq<char>, u64)>::empty(),
    {
        Cache { entries: Vec::new() }
    }

    /// The position of the entry under `key`, if any.
    fn find_key(&self, key: &str) -> (r: Option<usize>)
        ensures
            match r {
                Option::Some(i) => i < self.entries@.len() && self.entries@[i as int].0@ == key@,
                Option::None => forall|i: int|
                    0 <= i < self.entries@.len() ==> #[trigger] self.entries@[i].0@ != key@,
            },
    {
        let mut i: usize = 0;
        while i < self.entries.len()
            invariant
                i <= self.entries@.len(),
                forall|j: int| 0 <= j < i ==> #[trigger] self.entries@[j].0@ != key@,
            decreases self.entries@.len() - i,
        {
            if crate::sources::str_eq(self.entries[i].0.as_str(), key) {
                return Option::Some(i);
            }
            i += 1;
        }
        Option::None
    }

    /// The storage key under which a source's answer for a package lives.
    fn build_key(source: &str, package: &str) -> (r: String)
        ensures
            r@ == cache_key(source@, package@),
    {
        let mut r = source.to_owned();
        r.push('-');
        let s = sanitize(package);
        r.append(s.as_str());
        proof {
            assert(r@ =~= cache_key(source@, package@));
        }
        r
    }

    /// Read the version cached for `(source, package)`, valid at `now`: a
    /// fresh entry is returned, an expired one is removed and nothing is
    /// returned.
    pub fn get(&mut self, source: &str, package: &str, now: u64) -> (r: Option<String>)
        requires
            old(self).wf(),
        ensures
            final(self).wf(),
            final(self)@ == spec_cache_after_get(old(self)@, cache_key(source@, package@), now),
            match r {
                Option::Some(v) => spec_cache_get(old(self)@, cache_key(source@, package@), now)
                    == Option::Some(v@),
                Option::None => spec_cache_get(old(self)@, cache_key(source@, package@), now)
                    is None,
            },
    {
        let key = Self::build_key(source, package);
        match self.find_key(key.as_str()) {
            Option::None => {
                proof {
                    lemma_entries_map_absent(self.entries@, key@);
                }
                Option::None
            },
            Option::Some(i) => {
                proof {
                    lemma_entries_map_index(self.entries@, i as int);
                }
                let ts = self.entries[i].1.timestamp;
                if now < ts || now - ts < DEFAULT_TTL_SECS {
                    Option::Some(self.entries[i].1.version.clone())
                } else {
                    proof {
                        lemma_entries_map_remove(self.entries@, i as int);
                    }
                    self.entries.remove(i);
                    Option::None
                }
            },
        }
    }

    /// Record `version` for `(source, package)` at `now`, overwriting any
    /// earlier entry under the same key.
    pub fn set(&mut self, source: &str, package: &str, version: &str, now: u64)
        requires
            old(self).wf(),
        ensures
            final(self).wf(),
            final(self)@ == old(self)@.insert(cache_key(source@, package@), (version@, now)),
    {
        let key = Self::build_key(source, package);
        match self.find_key(key.as_str()) {
            Option::Some(i) => {
                proof {
                    lemma_entries_map_remove(self.entries@, i as int);
                }
                self.entries.remove(i);
            },
            Option::None => {
                proof {
                    lemma_entries_map_absent(self.entries@, key@);
                }
            },
        }
        let ghost before = self.entries@;
        let entry = CacheEntry { version: version.to_owned(), timestamp: now };
        self.entries.push((key, entry));
        proof {
            assert(self.entries@.drop_last() =~= before);
            assert(self@ =~= old(self)@.insert(cache_key(source@, package@), (version@, now)));
        }
    }

    /// The entry stored for `(source, package)`, with its timestamp,
    /// fresh or not; the cache is left as it is.
    pub fn peek(&self, source: &str, package: &str) -> (r: Option<(String, u64)>)
        requires
            self.wf(),
        ensures
            match r {
                Option::Some(p) => self@.contains_key(cache_key(source@, package@)) && self@[
                    cache_key(source@, package@)
                ] == (p.0@, p.1),
                Option::None => !self@.contains_key(cache_key(source@, package@)),
            },
    {
        let key = Self::build_key(source, package);
        match self.find_key(key.as_str()) {
            Option::None => {
                proof {
                    lemma_entries_map_absent(self.entries@, key@);
                }
                Option::None
            },
            Option::Some(i) => {
                proof {
                    lemma_entries_map_index(self.entries@, i as int);
                }
                Option::Some(
                    (self.entries[i].1.version.clone(), self.entries[i].1.timestamp),
                )
            },
        }
    }

    /// How many entries the cache holds.
    pub fn len(&self) -> (r: usize)
        requires
            self.wf(),
        ensures
            r == self@.dom().len(),
    {
        proof {
            lemma_entries_map_len(self.entries@);
        }
        self.entries.len()
    }
}

/// With distinct keys, the map has exactly one key per entry.
proof fn lemma_entries_map_len(s: Seq<(String, CacheEntry)>)
    requires
        forall|p: int, q: int| 0 <= p < q < s.len() ==> #[trigger] s[p].0@ != #[trigger] s[q].0@,
    ensures
        entries_map(s).dom().len() == s.len(),
        entries_map(s).dom().finite(),
    decreases s.len(),
{
    if s.len() > 0 {
        lemma_entries_map_len(s.drop_last());
        lemma_entries_map_absent_of_distinct(s);
    }
}

/// The cache round trip: a version recorded at `now` is read back intact
/// at `now`, and once a TTL has elapsed a read yields nothing and leaves
/// the entry removed.
pub proof fn lemma_cache_round_trip(
    m: Map<Seq<char>, (Seq<char>, u64)>,
    source: Seq<char>,
    package: Seq<char>,
    version: Seq<char>,
    now: u64,
    later: u64,
)
    ensures
        spec_cache_get(m.insert(cache_key(source, package), (version, now)), cache_key(
            source,
            package,
        ), now) == Option::Some(version),
        later - now >= DEFAULT_TTL_SECS ==> spec_cache_get(
            m.insert(cache_key(source, package), (version, now)),
            cache_key(source, package),
            later,
        ) is None,
        later - now >= DEFAULT_TTL_SECS ==> spec_cache_after_get(
            m.insert(cache_key(source, package), (version, now)),
            cache_key(source, package),
            later,
        ) == m.insert(cache_key(source, package), (version, now)).remove(
            cache_key(source, package),
        ),
{
}

} // verus!
