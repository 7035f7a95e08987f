//! A bounded cache of compiled regular expressions that evicts the least
//! recently used one.

use vstd::prelude::*;
use regex::Regex;
use crate::text::str_eq;

verus! {

/// `regex::Regex`, a compiled regular expression; opaque.
#[verifier::external_type_specification]
#[verifier::external_body]
pub struct ExRegex(regex::Regex);

/// Whether `regex::Regex::new` accepts the pattern (valid syntax, and small
/// enough under the default size limit).
pub uninterp spec fn regex_compiles(pattern: Seq<char>) -> bool;

/// Compiles a pattern with `regex::Regex::new`; the result is there exactly
/// when the pattern compiles.
#[verifier::external_body]
fn compile_regex(pattern: &str) -> (r: Option<Regex>)
    ensures
        r is Some <==> regex_compiles(pattern@),
{
    Regex::new(pattern).ok()
}

/// A copy of a compiled regex (`Regex::clone`); nothing is stated of it.
#[verifier::external_body]
fn clone_regex(re: &Regex) -> (r: Regex) {
    re.clone()
}

/// A compiled regex together with the pattern it was compiled from.
pub struct CompiledRegex {
    regex: Regex,
    source: String,
}

impl CompiledRegex {
    /// The pattern the regex was compiled from.
    pub closed spec fn source_view(&self) -> Seq<char> {
        self.source@
    }

    /// The compiled regex.
    pub fn regex(&self) -> (r: &Regex) {
        &self.regex
    }

    /// The pattern the regex was compiled from.
    pub fn source(&self) -> (r: &str)
        ensures
            r@ == self.source_view(),
    {
        self.source.as_str()
    }
}

/// Compiles `pattern`, keeping the pattern with the regex.
fn compile_with_source(pattern: &str) -> (r: Option<CompiledRegex>)
    ensures
        r is Some <==> regex_compiles(pattern@),
        r matches Some(c) ==> c.source_view() == pattern@,
{
    match compile_regex(pattern) {
        Some(regex) => Some(CompiledRegex { regex, source: pattern.to_owned() }),
        None => None,
    }
}

/// A copy of a compiled regex, from the same pattern.
fn copy_compiled(c: &CompiledRegex) -> (r: CompiledRegex)
    ensures
        r.source_view() == c.source_view(),
{
    CompiledRegex { regex: clone_regex(&c.regex), source: c.source.clone() }
}

/// What a cached regex was compiled for: a pattern and Java flags.
#[derive(Clone, Debug, PartialEq, Eq, Hash)]
pub struct RegexCacheKey {
    pub pattern: String,
    pub flags: i32,
}

pub open spec fn key_view(k: RegexCacheKey) -> (Seq<char>, i32) {
    (k.pattern@, k.flags)
}

/// `keys` without the first occurrence of `k`.
pub open spec fn remove_key(keys: Seq<(Seq<char>, i32)>, k: (Seq<char>, i32)) -> Seq<(Seq<char>, i32)>
    decreases keys.len(),
{
    if keys.len() == 0 {
        keys
    } else if keys[0] == k {
        keys.drop_first()
    } else {
        seq![keys[0]] + remove_key(keys.drop_first(), k)
    }
}

/// The cached keys, least recently used first, after `compile` of `k` on a
/// cache of capacity `cap` holding `keys` (`compiles` says whether the
/// pattern compiles): a hit makes `k` the most recent; a new pattern that
/// compiles is added as the most recent, after the least recently used
/// keys leave to make room; a capacity of 0 caches nothing.
pub open spec fn after_compile(
    keys: Seq<(Seq<char>, i32)>,
    k: (Seq<char>, i32),
    cap: nat,
    compiles: bool,
) -> Seq<(Seq<char>, i32)> {
    if keys.contains(k) {
        remove_key(keys, k).push(k)
    } else if !compiles || cap == 0 {
        keys
    } else if keys.len() >= cap {
        keys.subrange(keys.len() - cap + 1, keys.len() as int).push(k)
    } else {
        keys.push(k)
    }
}

/// A bounded LRU cache of compiled regular expressions.
pub struct RegexCache {
    capacity: usize,
    /// Entries from the least to the most recently used.
    entries: Vec<(RegexCacheKey, CompiledRegex)>,
}

impl RegexCache {
    /// The cached keys, least recently used first.
    pub closed spec fn keys(&self) -> Seq<(Seq<char>, i32)> {
        self.entries@.map_values(|e: (RegexCacheKey, CompiledRegex)| key_view(e.0))
    }

    pub closed spec fn capacity(&self) -> nat {
        self.capacity as nat
    }

    /// Each cached regex was compiled from its key's pattern.
    pub closed spec fn sources_match(&self) -> bool {
        forall|i: int| 0 <= i < self.entries@.len() ==> (#[trigger] self.entries@[i]).1.source_view()
            == self.entries@[i].0.pattern@
    }

    /// No key is cached twice, there are at most `capacity` of them, and
    /// each cached regex was compiled from its key's pattern.
    pub open spec fn wf(&self) -> bool {
        &&& self.keys().no_duplicates()
        &&& self.keys().len() <= self.capacity()
        &&& self.sources_match()
    }

    /// An empty cache holding at most `capacity` regexes.
    pub fn new(capacity: usize) -> (c: RegexCache)
        ensures
            c.wf(),
            c.keys() == Seq::<(Seq<char>, i32)>::empty(),
            c.capacity() == capacity,
    {
        let c = RegexCache { capacity, entries: Vec::new() };
        assert(c.keys() =~= Seq::<(Seq<char>, i32)>::empty());
        c
    }

    /// Whether a regex is cached for the pattern and flags.
    pub fn contains(&self, pattern: &str, flags: i32) -> (r: bool)
        ensures
            r == self.keys().contains((pattern@, flags)),
    {
        match self.position(pattern, flags) {
            Some(_) => true,
            None => false,
        }
    }

    fn position(&self, pattern: &str, flags: i32) -> (r: Option<usize>)
        ensures
            match r {
                Some(i) => i < self.keys().len() && self.keys()[i as int] == (pattern@, flags),
                None => !self.keys().contains((pattern@, flags)),
            },
    {
        let mut i: usize = 0;
        while i < self.entries.len()
            invariant
                i <= self.entries@.len(),
                self.keys().len() == self.entries@.len(),
                forall|j: int| 0 <= j < i ==> self.keys()[j] != (pattern@, flags),
            decreases self.entries@.len() - i,
        {
            let e = &self.entries[i];
            if e.0.flags == flags && str_eq(e.0.pattern.as_str(), pattern) {
                assert(self.keys()[i as int] == key_view(self.entries@[i as int].0));
                return Some(i);
            }
            assert(self.keys()[i as int] == key_view(self.entries@[i as int].0));
            i = i + 1;
        }
        None
    }

    /// Makes the entry at `i` the most recently used one.
    fn touch(&mut self, i: usize)
        requires
            old(self).wf(),
            i < old(self).keys().len(),
        ensures
            final(self).wf(),
            final(self).capacity() == old(self).capacity(),
            final(self).keys() == remove_key(old(self).keys(), old(self).keys()[i as int]).push(
                old(self).keys()[i as int],
            ),
    {
        let ghost k = self.keys()[i as int];
        let ghost ks = self.keys();
        let e = self.entries.remove(i);
        proof {
            lemma_remove_key_at(ks, i as int);
        }
        assert(self.keys() =~= remove_key(ks, k));
        self.entries.push(e);
        assert(self.keys() =~= remove_key(ks, k).push(k));
        proof {
            lemma_remove_key_unique(ks, k);
        }
    }

    /// The regex for a pattern and flags: the cached one (which becomes the
    /// most recently used), or a newly compiled one, cached as the most
    /// recently used after the least recently used ones leave to make room.
    /// `None` when the pattern does not compile.
    pub fn compile(&mut self, pattern: &str, flags: i32) -> (r: Option<CompiledRegex>)
        requires
            old(self).wf(),
        ensures
            final(self).wf(),
            final(self).capacity() == old(self).capacity(),
            final(self).keys() == after_compile(
                old(self).keys(),
                (pattern@, flags),
                old(self).capacity(),
                regex_compiles(pattern@),
            ),
            r is Some <==> old(self).keys().contains((pattern@, flags)) || regex_compiles(pattern@),
            r matches Some(c) ==> c.source_view() == pattern@,
    {
        match self.position(pattern, flags) {
            Some(i) => {
                assert(self.keys()[i as int] == key_view(self.entries@[i as int].0));
                let regex = copy_compiled(&self.entries[i].1);
                proof {
                    lemma_contains_index(self.keys(), i as int);
                }
                self.touch(i);
                return Some(regex);
            },
            None => {},
        }
        let regex = match compile_with_source(pattern) {
            Some(re) => re,
            None => {
                return None;
            },
        };
        if self.capacity != 0 {
            let ghost ks = self.keys();
            let ghost dropped: int = 0;
            while self.entries.len() >= self.capacity
                invariant
                    self.capacity == old(self).capacity,
                    self.capacity > 0,
                    ks == old(self).keys(),
                    ks.len() <= self.capacity,
                    ks.no_duplicates(),
                    dropped == 0 || (dropped == 1 && ks.len() == self.capacity),
                    self.keys() == ks.subrange(dropped, ks.len() as int),
                    self.sources_match(),
                decreases self.entries@.len(),
            {
                let ghost before = self.keys();
                let ghost before_entries = self.entries@;
                self.entries.remove(0);
                assert forall|i: int| 0 <= i < self.entries@.len() implies (#[trigger] self.entries@[i]).1.source_view()
                    == self.entries@[i].0.pattern@ by {
                    assert(self.entries@[i] == before_entries[i + 1]);
                }
                assert(self.keys() =~= before.drop_first());
                proof {
                    dropped = dropped + 1;
                }
                assert(self.keys() =~= ks.subrange(dropped, ks.len() as int));
            }
            let key = RegexCacheKey { pattern: pattern.to_owned(), flags };
            let ghost before_entries = self.entries@;
            self.entries.push((key, copy_compiled(&regex)));
            assert forall|i: int| 0 <= i < self.entries@.len() implies (#[trigger] self.entries@[i]).1.source_view()
                == self.entries@[i].0.pattern@ by {
                if i < before_entries.len() {
                    assert(self.entries@[i] == before_entries[i]);
                }
            }
            proof {
                let kept = ks.subrange(dropped, ks.len() as int);
                assert(self.keys() =~= kept.push((pattern@, flags)));
                if ks.len() >= self.capacity {
                    assert(dropped == ks.len() - self.capacity + 1);
                } else {
                    assert(dropped == 0);
                    assert(kept =~= ks);
                }
                assert forall|a: int, b: int| 0 <= a < b < self.keys().len() implies self.keys()[a]
                    != self.keys()[b] by {
                    if b == self.keys().len() - 1 {
                        assert(kept[a] == ks[dropped + a]);
                    } else {
                        assert(kept[a] == ks[dropped + a]);
                        assert(kept[b] == ks[dropped + b]);
                    }
                }
            }
        }
        Some(regex)
    }
}

proof fn lemma_contains_index(ks: Seq<(Seq<char>, i32)>, i: int)
    requires
        0 <= i < ks.len(),
    ensures
        ks.contains(ks[i]),
{
}

/// Removing the key found at `i` of a duplicate-free list removes exactly
/// that position.
proof fn lemma_remove_key_at(ks: Seq<(Seq<char>, i32)>, i: int)
    requires
        ks.no_duplicates(),
        0 <= i < ks.len(),
    ensures
        remove_key(ks, ks[i]) == ks.remove(i),
    decreases ks.len(),
{
    if i == 0 {
        assert(ks.drop_first() =~= ks.remove(0));
    } else {
        assert(ks[0] != ks[i]);
        assert(ks.drop_first()[i - 1] == ks[i]);
        lemma_remove_key_at(ks.drop_first(), i - 1);
        assert(seq![ks[0]] + ks.drop_first().remove(i - 1) =~= ks.remove(i));
    }
}

/// After moving `k` to the end of a duplicate-free list holding it, the
/// list is still free of duplicates.
proof fn lemma_remove_key_unique(ks: Seq<(Seq<char>, i32)>, k: (Seq<char>, i32))
    requires
        ks.no_duplicates(),
        ks.contains(k),
    ensures
        remove_key(ks, k).push(k).no_duplicates(),
        remove_key(ks, k).len() == ks.len() - 1,
{
    let i = choose|i: int| 0 <= i < ks.len() && ks[i] == k;
    lemma_remove_key_at(ks, i);
    let r = ks.remove(i);
    assert forall|a: int, b: int| 0 <= a < b < r.push(k).len() implies r.push(k)[a] != r.push(k)[b] by {
        let ia = if a < i { a } else { a + 1 };
        if b == r.len() {
            assert(r[a] == ks[ia]);
        } else {
            let ib = if b < i { b } else { b + 1 };
            assert(r[a] == ks[ia]);
            assert(r[b] == ks[ib]);
        }
    }
}

proof fn lemma_remove_key_absent(ks: Seq<(Seq<char>, i32)>, k: (Seq<char>, i32))
    requires
        !ks.contains(k),
    ensures
        remove_key(ks, k) == ks,
    decreases ks.len(),
{
    if ks.len() > 0 {
        assert(ks[0] != k);
        assert(!ks.drop_first().contains(k)) by {
            if ks.drop_first().contains(k) {
                let i = choose|i: int| 0 <= i < ks.drop_first().len() && ks.drop_first()[i] == k;
                assert(ks[i + 1] == k);
            }
        }
        lemma_remove_key_absent(ks.drop_first(), k);
        assert(seq![ks[0]] + ks.drop_first() =~= ks);
    }
}

/// Least-recently-used caching: on a cache with room for at least one regex,
/// compiling a pattern that is cached or compiles leaves it cached as the
/// most recently used key; the cache stays within its capacity; and the
/// other keys kept are the most recently used of the rest, in their order
/// (so the ones that leave are the least recently used).
pub proof fn law_compile_keeps_most_recent(
    keys: Seq<(Seq<char>, i32)>,
    k: (Seq<char>, i32),
    cap: nat,
    compiles: bool,
)
    requires
        keys.no_duplicates(),
        keys.len() <= cap,
        cap > 0,
        keys.contains(k) || compiles,
    ensures
        ({
            let after = after_compile(keys, k, cap, compiles);
            let rest = remove_key(keys, k);
            &&& after.len() > 0
            &&& after.last() == k
            &&& after.len() <= cap
            &&& exists|d: int|
                0 <= d <= rest.len() && after.drop_last() == rest.subrange(d, rest.len() as int)
        }),
{
    let after = after_compile(keys, k, cap, compiles);
    let rest = remove_key(keys, k);
    if keys.contains(k) {
        lemma_remove_key_unique(keys, k);
        assert(after.drop_last() =~= rest.subrange(0, rest.len() as int));
    } else {
        lemma_remove_key_absent(keys, k);
        if keys.len() >= cap {
            let d = keys.len() - cap + 1;
            assert(after.drop_last() =~= rest.subrange(d, rest.len() as int));
        } else {
            assert(after.drop_last() =~= rest.subrange(0, rest.len() as int));
        }
    }
}

} // verus!
