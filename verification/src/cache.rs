//! The content byte cache: populated once by the fetch stage, read-only
//! afterwards, shared by every transplant that references the same content.

use vstd::prelude::*;

use crate::graph::str_eq;

verus! {

pub struct CacheEntry {
    pub id: String,
    pub bytes: Vec<u8>,
}

/// The cache contents as a map. Later entries win, but the cache never holds
/// two entries with one identifier, so the order never matters.
pub open spec fn cache_map(s: Seq<CacheEntry>) -> Map<Seq<char>, Seq<u8>>
    decreases s.len(),
{
    if s.len() == 0 {
        Map::empty()
    } else {
        cache_map(s.drop_last()).insert(s.last().id@, s.last().bytes@)
    }
}

pub open spec fn distinct_ids(s: Seq<CacheEntry>) -> bool {
    forall|a: int, b: int| 0 <= a < b < s.len() ==> s[a].id@ != s[b].id@
}

/// With distinct identifiers, a linear scan agrees with the map.
pub proof fn lemma_cache_map_lookup(s: Seq<CacheEntry>, k: Seq<char>)
    requires
        distinct_ids(s),
    ensures
        cache_map(s).contains_key(k) <==> exists|j: int| 0 <= j < s.len() && s[j].id@ == k,
        forall|j: int|
            0 <= j < s.len() && s[j].id@ == k ==> cache_map(s).contains_key(k) && cache_map(s)[k]
                == s[j].bytes@,
    decreases s.len(),
{
    if s.len() > 0 {
        assert(distinct_ids(s.drop_last())) by {
            assert(forall|a: int, b: int|
                0 <= a < b < s.len() - 1 ==> s.drop_last()[a].id@ == s[a].id@ && s.drop_last()[b].id@
                    == s[b].id@);
        }
        lemma_cache_map_lookup(s.drop_last(), k);
        assert(forall|j: int| 0 <= j < s.len() - 1 ==> s.drop_last()[j] == s[j]);
    }
}

/// Mapping from content identifier to raw fetched bytes.
pub struct ContentCache {
    entries: Vec<CacheEntry>,
}

impl View for ContentCache {
    type V = Map<Seq<char>, Seq<u8>>;

    closed spec fn view(&self) -> Map<Seq<char>, Seq<u8>> {
        cache_map(self.entries@)
    }
}

impl ContentCache {
    pub closed spec fn wf(&self) -> bool {
        distinct_ids(self.entries@)
    }

    pub fn new() -> (c: ContentCache)
        ensures
            c.wf(),
            c@ == Map::<Seq<char>, Seq<u8>>::empty(),
    {
        ContentCache { entries: Vec::new() }
    }

    #[verifier::loop_isolation(false)]
    pub fn get(&self, id: &str) -> (r: Option<&Vec<u8>>)
        requires
            self.wf(),
        ensures
            match r {
                Some(b) => self@.contains_key(id@) && self@[id@] == b@,
                None => !self@.contains_key(id@),
            },
    {
        proof {
            lemma_cache_map_lookup(self.entries@, id@);
        }
        let mut j: usize = 0;
        while j < self.entries.len()
            invariant
                j <= self.entries@.len(),
                forall|t: int| 0 <= t < j ==> self.entries@[t].id@ != id@,
                distinct_ids(self.entries@),
                self@ == cache_map(self.entries@),
            decreases self.entries@.len() - j,
        {
            if str_eq(self.entries[j].id.as_str(), id) {
                return Some(&self.entries[j].bytes);
            }
            j += 1;
        }
        None
    }

    /// Records one fetched payload. The first payload recorded for an
    /// identifier wins; the cache is only ever filled once per identifier.
    pub fn insert(&mut self, id: String, bytes: Vec<u8>)
        requires
            old(self).wf(),
        ensures
            final(self).wf(),
            final(self)@ == if old(self)@.contains_key(id@) {
                old(self)@
            } else {
                old(self)@.insert(id@, bytes@)
            },
    {
        proof {
            lemma_cache_map_lookup(self.entries@, id@);
        }
        let present = match self.get(id.as_str()) {
            Some(_) => true,
            None => false,
        };
        if !present {
            let ghost entries0 = self.entries@;
            self.entries.push(CacheEntry { id, bytes });
            proof {
                assert(self.entries@.drop_last() =~= entries0);
                assert forall|a: int, b: int|
                    0 <= a < b < self.entries@.len() implies self.entries@[a].id@
                    != self.entries@[b].id@ by {
                    if b < self.entries@.len() - 1 {
                        assert(entries0[a].id@ != entries0[b].id@);
                    } else {
                        assert(!(exists|j: int|
                            0 <= j < entries0.len() && entries0[j].id@
                                == self.entries@.last().id@));
                    }
                }
            }
        }
    }
}

} // verus!
