//! A cache of wide strings keyed by the text they encode, so that the
//! buffers handed to the list view stay alive and are built once per text.

use vstd::prelude::*;
use crate::order::{compare_text, lemma_text_facts, text_lt, Order};
use crate::wide::{law_wide_round_trip, to_wstring, utf16_decode, utf16_encode, wide_text};

verus! {

/// The NUL-terminated wide form of a text, as `to_wstring` builds it.
pub open spec fn wide_of(text: Seq<char>) -> Seq<u16> {
    utf16_encode(text) + seq![0u16, 0u16]
}

/// Texts mapped to their wide forms.
pub struct WideCache {
    entries: Vec<(String, Vec<u16>)>,
}

impl View for WideCache {
    type V = Map<Seq<char>, Seq<u16>>;

    /// Every text held, mapped to its wide form.
    open spec fn view(&self) -> Map<Seq<char>, Seq<u16>> {
        Map::new(|k: Seq<char>| self.keys().contains(k), |k: Seq<char>| wide_of(k))
    }
}

impl WideCache {
    /// The keys in ascending order, each with its wide form.
    #[verifier::type_invariant]
    spec fn well_formed(self) -> bool {
        &&& forall|i: int, j: int|
            0 <= i < j < self.entries@.len() ==> text_lt(
                #[trigger] self.entries@[i].0@,
                #[trigger] self.entries@[j].0@,
            )
        &&& forall|i: int|
            0 <= i < self.entries@.len() ==> #[trigger] self.entries@[i].1@ == wide_of(
                self.entries@[i].0@,
            )
    }

    /// The texts held.
    pub closed spec fn keys(self) -> Set<Seq<char>> {
        Set::new(|k: Seq<char>| exists|i: int| 0 <= i < self.entries@.len() && #[trigger] self.entries@[i].0@ == k)
    }

    /// The number of texts held.
    pub closed spec fn count(self) -> nat {
        self.entries@.len()
    }

    /// An empty cache.
    pub fn new() -> (cache: Self)
        ensures
            cache.view() == Map::<Seq<char>, Seq<u16>>::empty(),
            cache.count() == 0,
    {
        let cache = WideCache { entries: Vec::new() };
        assert(cache.view() =~= Map::<Seq<char>, Seq<u16>>::empty());
        cache
    }

    /// The number of texts held.
    pub fn len(&self) -> (n: usize)
        ensures
            n == self.count(),
            n == self.view().dom().len(),
    {
        proof {
            use_type_invariant(self);
            self.lemma_count();
        }
        self.entries.len()
    }

    proof fn lemma_count(self)
        requires
            self.well_formed(),
        ensures
            self.view().dom().len() == self.count(),
            self.view().dom().finite(),
    {
        let keys = self.entries@.map_values(|p: (String, Vec<u16>)| p.0@);
        assert forall|i: int, j: int| 0 <= i < j < keys.len() implies keys[i] != keys[j] by {
            assert(text_lt(self.entries@[i].0@, self.entries@[j].0@));
            lemma_text_facts(keys[i], keys[i], keys[i]);
        }
        assert(keys.no_duplicates());
        keys.unique_seq_to_set();
        assert(keys.to_set() =~= self.view().dom()) by {
            assert forall|k: Seq<char>| keys.to_set().contains(k) implies self.view().dom().contains(k) by {
                let i = choose|i: int| 0 <= i < keys.len() && keys[i] == k;
                assert(self.entries@[i].0@ == k);
            }
            assert forall|k: Seq<char>| self.view().dom().contains(k) implies keys.to_set().contains(k) by {
                let i = choose|i: int| 0 <= i < self.entries@.len() && #[trigger] self.entries@[i].0@ == k;
                assert(keys[i] == k);
            }
        }
    }

    /// Where `key` is, or goes: every text before `pos` is below `key`, and
    /// every text from `pos` on is not.
    fn search(&self, key: &str) -> (pos: usize)
        ensures
            pos <= self.entries@.len(),
            forall|k: int| 0 <= k < pos ==> text_lt(#[trigger] self.entries@[k].0@, key@),
            forall|k: int| pos <= k < self.entries@.len() ==> !text_lt(#[trigger] self.entries@[k].0@, key@),
    {
        proof {
            use_type_invariant(self);
        }
        let mut lo: usize = 0;
        let mut hi: usize = self.entries.len();
        while lo < hi
            invariant
                self.well_formed(),
                lo <= hi <= self.entries@.len(),
                forall|k: int| 0 <= k < lo ==> text_lt(#[trigger] self.entries@[k].0@, key@),
                forall|k: int| hi <= k < self.entries@.len() ==> !text_lt(#[trigger] self.entries@[k].0@, key@),
            decreases hi - lo,
        {
            let mid = lo + (hi - lo) / 2;
            let o = compare_text(self.entries[mid].0.as_str(), key);
            if let Order::Less = o {
                proof {
                    assert forall|k: int| 0 <= k <= mid implies text_lt(#[trigger] self.entries@[k].0@, key@) by {
                        if k < mid {
                            lemma_text_facts(self.entries@[k].0@, self.entries@[mid as int].0@, key@);
                        }
                    }
                }
                lo = mid + 1;
            } else {
                proof {
                    assert forall|k: int| mid <= k < self.entries@.len() implies !text_lt(#[trigger] self.entries@[k].0@, key@) by {
                        if k > mid && k < hi {
                            lemma_text_facts(self.entries@[mid as int].0@, self.entries@[k].0@, key@);
                            lemma_text_facts(key@, self.entries@[mid as int].0@, self.entries@[k].0@);
                            lemma_text_facts(self.entries@[k].0@, key@, self.entries@[mid as int].0@);
                        }
                    }
                }
                hi = mid;
            }
        }
        lo
    }

    /// The wide form of `key`, if the cache holds it.
    pub fn get(&self, key: &str) -> (wide: Option<&Vec<u16>>)
        ensures
            wide is Some <==> self.view().dom().contains(key@),
            wide matches Some(w) ==> w@ == self.view()[key@],
    {
        proof {
            use_type_invariant(self);
        }
        let pos = self.search(key);
        if pos < self.entries.len() {
            let found = &self.entries[pos];
            if let Order::Equal = compare_text(found.0.as_str(), key) {
                return Some(&found.1);
            }
            proof {
                lemma_text_facts(key@, found.0@, found.0@);
            }
        }
        proof {
            if self.keys().contains(key@) {
                let i = choose|i: int| 0 <= i < self.entries@.len() && #[trigger] self.entries@[i].0@ == key@;
                lemma_text_facts(key@, key@, key@);
                if i > pos {
                    assert(!text_lt(self.entries@[pos as int].0@, key@));
                    assert(text_lt(self.entries@[pos as int].0@, self.entries@[i].0@));
                }
            }
        }
        None
    }

    /// Adds `key` with its wide form; a key held already stays as it is.
    pub fn insert(&mut self, key: &str)
        ensures
            final(self).view() == old(self).view().insert(key@, wide_of(key@)),
    {
        proof {
            use_type_invariant(&*self);
        }
        let pos = self.search(key);
        if pos < self.entries.len() {
            if let Order::Equal = compare_text(self.entries[pos].0.as_str(), key) {
                proof {
                    assert(self.view() =~= old(self).view().insert(key@, wide_of(key@)));
                }
                return;
            }
        }
        let ghost before = self.entries@;
        let wide = to_wstring(key);
        let owned = key.to_owned();
        proof {
            if pos < before.len() {
                lemma_text_facts(key@, before[pos as int].0@, before[pos as int].0@);
            }
        }
        let mut entries: Vec<(String, Vec<u16>)> = Vec::new();
        std::mem::swap(&mut entries, &mut self.entries);
        entries.insert(pos, (owned, wide));
        proof {
            assert forall|i: int, j: int| 0 <= i < j < entries@.len() implies text_lt(
                #[trigger] entries@[i].0@,
                #[trigger] entries@[j].0@,
            ) by {
                let pi = if i < pos { i } else { i - 1 };
                let pj = if j < pos { j } else { j - 1 };
                if i != pos && j != pos {
                    assert(entries@[i] == before[pi]);
                    assert(entries@[j] == before[pj]);
                } else if i == pos {
                    assert(entries@[j] == before[pj]);
                    assert(!text_lt(before[pj].0@, key@));
                    lemma_text_facts(key@, before[pj].0@, before[pj].0@);
                    if pj > pos {
                        lemma_text_facts(key@, before[pos as int].0@, before[pj].0@);
                        lemma_text_facts(before[pos as int].0@, key@, key@);
                    }
                } else {
                    assert(entries@[i] == before[pi]);
                }
            }
        }
        self.entries = entries;
        proof {
            assert forall|k: Seq<char>| #[trigger] self.keys().contains(k) <==> (old(self).keys().contains(k) || k == key@) by {
                if self.keys().contains(k) {
                    let i = choose|i: int| 0 <= i < self.entries@.len() && #[trigger] self.entries@[i].0@ == k;
                    if i < pos {
                        assert(before[i].0@ == k);
                    } else if i > pos {
                        assert(before[i - 1].0@ == k);
                    }
                }
                if old(self).keys().contains(k) {
                    let i = choose|i: int| 0 <= i < before.len() && #[trigger] before[i].0@ == k;
                    if i < pos {
                        assert(self.entries@[i].0@ == k);
                    } else {
                        assert(self.entries@[i + 1].0@ == k);
                    }
                }
                if k == key@ {
                    assert(self.entries@[pos as int].0@ == k);
                }
            }
            assert(self.view() =~= old(self).view().insert(key@, wide_of(key@)));
        }
    }
}


/// What `insert` writes, `get` reads back: after `insert(key)` the cache
/// finds the wide form of `key`, and finds every other text just as before.
pub proof fn law_get_after_insert(cache: WideCache, key: Seq<char>, other: Seq<char>)
    ensures
        cache.view().insert(key, wide_of(key)).dom().contains(key),
        cache.view().insert(key, wide_of(key))[key] == wide_of(key),
        other != key ==> (cache.view().insert(key, wide_of(key)).dom().contains(other)
            <==> cache.view().dom().contains(other)),
        other != key && cache.view().dom().contains(other) ==> cache.view().insert(
            key,
            wide_of(key),
        )[other] == cache.view()[other],
{
}

/// A wide string that the cache holds reads back, through `to_string`, as
/// the text it is held under, where that text has no NUL.
pub proof fn law_cached_text_reads_back(cache: WideCache, key: Seq<char>)
    requires
        cache.view().dom().contains(key),
        forall|i: int| 0 <= i < key.len() ==> key[i] != '\0',
    ensures
        utf16_decode(wide_text(cache.view()[key])) == Some(key),
{
    law_wide_round_trip(key);
}

} // verus!
