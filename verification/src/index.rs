//! The cache index: the persistent mapping from dependency id to a location
//! string, which is either an absolute path or a filename relative to the
//! cache directory.  The index is kept as a vector of pairs strictly sorted
//! by id, so keys are unique, listings are deterministic, and the serialized
//! form of a given mapping is canonical.

use vstd::prelude::*;
use crate::error::SphereError;
use crate::text::{lex_lt, lemma_lex_irrefl, lemma_lex_connected, lemma_lex_trans, str_lt, str_eq, trim_str, trim_spec};
use vstd::string::StringExecFns;

verus! {

/// Keys strictly increase in lexicographic code point order.
pub open spec fn keys_sorted(s: Seq<(String, String)>) -> bool {
    forall|i: int, j: int|
        0 <= i < j < s.len() ==> lex_lt(#[trigger] s[i].0@, #[trigger] s[j].0@)
}

/// Whether some entry of `s` has key view `k`.
pub open spec fn has_key(s: Seq<(String, String)>, k: Seq<char>) -> bool {
    exists|i: int| 0 <= i < s.len() && (#[trigger] s[i].0@) == k
}

/// The index of the entry of `s` whose key view is `k`.
pub open spec fn key_at(s: Seq<(String, String)>, k: Seq<char>) -> int {
    choose|i: int| 0 <= i < s.len() && (#[trigger] s[i].0@) == k
}

/// The mapping that a pair sequence denotes.
pub open spec fn pairs_map(s: Seq<(String, String)>) -> Map<Seq<char>, Seq<char>> {
    Map::new(|k: Seq<char>| has_key(s, k), |k: Seq<char>| s[key_at(s, k)].1@)
}

/// In a sorted pair sequence, distinct entries have distinct keys.
pub proof fn lemma_sorted_unique(s: Seq<(String, String)>)
    requires
        keys_sorted(s),
    ensures
        forall|i: int, j: int|
            0 <= i < s.len() && 0 <= j < s.len() && i != j
                ==> (#[trigger] s[i].0@) != (#[trigger] s[j].0@),
{
    assert forall|i: int, j: int|
        0 <= i < s.len() && 0 <= j < s.len() && i != j
            implies (#[trigger] s[i].0@) != (#[trigger] s[j].0@) by {
        if s[i].0@ == s[j].0@ {
            if i < j {
                lemma_lex_irrefl(s[i].0@);
            } else {
                lemma_lex_irrefl(s[j].0@);
            }
        }
    }
}

/// The local cache index: dependency id to location string.
#[derive(Debug)]
pub struct CacheIndex {
    pairs: Vec<(String, String)>,
}

impl View for CacheIndex {
    type V = Map<Seq<char>, Seq<char>>;

    closed spec fn view(&self) -> Map<Seq<char>, Seq<char>> {
        pairs_map(self.pairs@)
    }
}

impl CacheIndex {
    /// The entries, in their stored (sorted) order.
    pub closed spec fn entries(&self) -> Seq<(String, String)> {
        self.pairs@
    }

    /// Well-formed: entries strictly sorted by id.
    pub closed spec fn wf(&self) -> bool {
        keys_sorted(self.pairs@)
    }

    /// Every entry is a binding of the mapping, and every binding an entry.
    pub proof fn lemma_entries_bindings(&self)
        requires
            self.wf(),
        ensures
            keys_sorted(self.entries()),
            forall|i: int|
                0 <= i < self.entries().len()
                    ==> self@.contains_key(#[trigger] self.entries()[i].0@)
                        && self@[self.entries()[i].0@] == self.entries()[i].1@,
            forall|k: Seq<char>| self@.contains_key(k) ==> has_key(self.entries(), k),
    {
        lemma_sorted_unique(self.pairs@);
        assert forall|i: int|
            0 <= i < self.entries().len()
                implies self@.contains_key(#[trigger] self.entries()[i].0@)
                    && self@[self.entries()[i].0@] == self.entries()[i].1@ by {
            let k = self.pairs@[i].0@;
            assert(has_key(self.pairs@, k));
            let j = key_at(self.pairs@, k);
            assert(j == i);
        }
    }

    /// An empty index.
    pub fn new() -> (r: CacheIndex)
        ensures
            r.wf(),
            r@ == Map::<Seq<char>, Seq<char>>::empty(),
            r.entries().len() == 0,
    {
        let r = CacheIndex { pairs: Vec::new() };
        proof {
            assert(r@ =~= Map::<Seq<char>, Seq<char>>::empty());
        }
        r
    }

    /// How many entries the index holds.
    pub fn len(&self) -> (n: usize)
        ensures
            n == self.entries().len(),
    {
        self.pairs.len()
    }

    /// The entry at a position, for displaying listings in id order.
    pub fn entry_at(&self, i: usize) -> (r: (&String, &String))
        requires
            i < self.entries().len(),
        ensures
            *r.0 == self.entries()[i as int].0,
            *r.1 == self.entries()[i as int].1,
    {
        let p = &self.pairs[i];
        (&p.0, &p.1)
    }

    /// Finds the position of `id`, or the position where it would be
    /// inserted to keep the entries sorted.
    fn search(&self, id: &str) -> (r: (usize, bool))
        requires
            self.wf(),
        ensures
            r.0 <= self.entries().len(),
            r.1 == has_key(self.entries(), id@),
            r.1 ==> r.0 < self.entries().len() && self.entries()[r.0 as int].0@ == id@,
            !r.1 ==> forall|j: int|
                0 <= j < self.entries().len()
                    ==> (j < r.0 ==> lex_lt(#[trigger] self.entries()[j].0@, id@))
                        && (j >= r.0 ==> lex_lt(id@, self.entries()[j].0@)),
    {
        let ghost s = self.pairs@;
        let n = self.pairs.len();
        let mut i: usize = 0;
        while i < n
            invariant
                self.wf(),
                s == self.pairs@,
                n == s.len(),
                i <= n,
                forall|j: int| 0 <= j < i ==> lex_lt(#[trigger] s[j].0@, id@),
            decreases n - i,
        {
            let key = &self.pairs[i].0;
            if str_eq(key.as_str(), id) {
                proof {
                    assert(s[i as int].0@ == id@);
                }
                return (i, true);
            }
            if str_lt(id, key.as_str()) {
                proof {
                    assert(lex_lt(id@, s[i as int].0@));
                    assert forall|j: int| i <= j < n implies lex_lt(id@, #[trigger] s[j].0@) by {
                        if j > i {
                            lemma_lex_trans(id@, s[i as int].0@, s[j].0@);
                        }
                    }
                    assert(!has_key(s, id@)) by {
                        if has_key(s, id@) {
                            let w = key_at(s, id@);
                            if w < i {
                                lemma_lex_irrefl(id@);
                            } else {
                                lemma_lex_irrefl(id@);
                            }
                        }
                    }
                }
                return (i, false);
            }
            proof {
                if s[i as int].0@ != id@ {
                    lemma_lex_connected(s[i as int].0@, id@);
                }
            }
            i = i + 1;
        }
        proof {
            assert(!has_key(s, id@)) by {
                if has_key(s, id@) {
                    let w = key_at(s, id@);
                    lemma_lex_irrefl(id@);
                }
            }
        }
        (n, false)
    }

    /// Whether `id` is present.
    pub fn contains(&self, id: &str) -> (r: bool)
        requires
            self.wf(),
        ensures
            r == self@.contains_key(id@),
    {
        let (_, found) = self.search(id);
        proof {
            self.lemma_entries_bindings();
        }
        found
    }

    /// The location stored for `id`, if any.
    pub fn get(&self, id: &str) -> (r: Option<&String>)
        requires
            self.wf(),
        ensures
            r is Some <==> self@.contains_key(id@),
            r matches Some(v) ==> self@[id@] == v@,
    {
        let (i, found) = self.search(id);
        proof {
            self.lemma_entries_bindings();
        }
        if found {
            proof {
                lemma_sorted_unique(self.pairs@);
                assert(key_at(self.pairs@, id@) == i as int);
            }
            Some(&self.pairs[i].1)
        } else {
            None
        }
    }

    /// Binds `id` to `location`, replacing any previous binding.
    pub fn set(&mut self, id: &str, location: &str) -> (r: ())
        requires
            old(self).wf(),
        ensures
            final(self).wf(),
            final(self)@ == old(self)@.insert(id@, location@),
    {
        let ghost s0 = self.pairs@;
        let (i, found) = self.search(id);
        let pair = (String::from_str(id), String::from_str(location));
        let ghost gpair = pair;
        if found {
            self.pairs.remove(i);
            self.pairs.insert(i, pair);
            proof {
                let s1 = self.pairs@;
                s0.remove_ensures(i as int);
                s0.remove(i as int).insert_ensures(i as int, gpair);
                assert(s1 =~= s0.update(i as int, gpair));
                lemma_sorted_unique(s0);
                assert(keys_sorted(s1));
                assert(final(self)@ =~= old(self)@.insert(id@, location@)) by {
                    lemma_sorted_unique(s1);
                    assert(forall|k: Seq<char>| #[trigger] has_key(s1, k) <==> has_key(s0, k) || k == id@) by {
                        assert forall|k: Seq<char>| has_key(s1, k) implies has_key(s0, k) || k == id@ by {
                            let w = key_at(s1, k);
                            if w != i {
                                assert(s0[w].0@ == k);
                            }
                        }
                        assert forall|k: Seq<char>| has_key(s0, k) || k == id@ implies has_key(s1, k) by {
                            if k == id@ {
                                assert(s1[i as int].0@ == k);
                            } else {
                                let w = key_at(s0, k);
                                assert(w != i);
                                assert(s1[w].0@ == k);
                            }
                        }
                    }
                    assert forall|k: Seq<char>| #[trigger] has_key(s1, k) implies
                        pairs_map(s1)[k] == old(self)@.insert(id@, location@)[k] by {
                        let w = key_at(s1, k);
                        if w == i {
                            assert(k == id@);
                        } else {
                            assert(s0[w].0@ == k && s0[w].1@ == s1[w].1@);
                            assert(key_at(s0, k) == w);
                        }
                    }
                }
            }
        } else {
            self.pairs.insert(i, pair);
            proof {
                let s1 = self.pairs@;
                s0.insert_ensures(i as int, gpair);
                assert(s1 =~= s0.insert(i as int, gpair));
                assert(keys_sorted(s1)) by {
                    assert forall|p: int, q: int| 0 <= p < q < s1.len()
                        implies lex_lt(#[trigger] s1[p].0@, #[trigger] s1[q].0@) by {
                        let pp = if p < i { p } else { p - 1 };
                        let qq = if q <= i { q } else { q - 1 };
                        if p == i {
                            assert(s1[q] == s0[q - 1]);
                        } else if q == i {
                            assert(s1[p] == s0[p]);
                        } else {
                            assert(s1[p] == s0[pp] && s1[q] == s0[qq]);
                        }
                    }
                }
                assert(final(self)@ =~= old(self)@.insert(id@, location@)) by {
                    lemma_sorted_unique(s1);
                    lemma_sorted_unique(s0);
                    assert(forall|k: Seq<char>| #[trigger] has_key(s1, k) <==> has_key(s0, k) || k == id@) by {
                        assert forall|k: Seq<char>| has_key(s1, k) implies has_key(s0, k) || k == id@ by {
                            let w = key_at(s1, k);
                            if w < i {
                                assert(s0[w].0@ == k);
                            } else if w > i {
                                assert(s0[w - 1].0@ == k);
                            }
                        }
                        assert forall|k: Seq<char>| has_key(s0, k) || k == id@ implies has_key(s1, k) by {
                            if k == id@ {
                                assert(s1[i as int].0@ == k);
                            } else {
                                let w = key_at(s0, k);
                                if w < i {
                                    assert(s1[w].0@ == k);
                                } else {
                                    assert(s1[w + 1].0@ == k);
                                }
                            }
                        }
                    }
                    assert forall|k: Seq<char>| #[trigger] has_key(s1, k) implies
                        pairs_map(s1)[k] == old(self)@.insert(id@, location@)[k] by {
                        let w = key_at(s1, k);
                        if w == i {
                            assert(k == id@);
                        } else if w < i {
                            assert(s0[w].0@ == k && s0[w].1@ == s1[w].1@);
                            assert(key_at(s0, k) == w);
                        } else {
                            assert(s0[w - 1].0@ == k && s0[w - 1].1@ == s1[w].1@);
                            assert(key_at(s0, k) == w - 1);
                        }
                    }
                }
            }
        }
    }

    /// Adds an entry for a new id, as the cache `add` command does: an empty
    /// (after trimming) id is rejected, and an id that is already bound is
    /// rejected without touching the index.
    pub fn cache_add(&mut self, id: &str, location: &str) -> (r: Result<(), SphereError>)
        requires
            old(self).wf(),
        ensures
            final(self).wf(),
            r is Ok <==> (trim_spec(id@).len() > 0 && !old(self)@.contains_key(id@)),
            r is Ok ==> final(self)@ == old(self)@.insert(id@, location@),
            r is Err ==> final(self)@ == old(self)@ && final(self).entries() == old(self).entries(),
            trim_spec(id@).len() == 0 ==> r matches Err(SphereError::EmptyId),
            trim_spec(id@).len() > 0 && old(self)@.contains_key(id@)
                ==> (r matches Err(SphereError::DuplicateId { id: e }) && e@ == id@),
    {
        let t = trim_str(id);
        if t.as_str().unicode_len() == 0 {
            return Err(SphereError::EmptyId);
        }
        if self.contains(id) {
            return Err(SphereError::DuplicateId { id: String::from_str(id) });
        }
        self.set(id, location);
        Ok(())
    }

    /// Removes the entry for `id`, as the cache `remove` command does: an id
    /// that is not bound is rejected without touching the index.  The
    /// location the id was bound to is returned; the file it names is never
    /// deleted.
    pub fn cache_remove(&mut self, id: &str) -> (r: Result<String, SphereError>)
        requires
            old(self).wf(),
        ensures
            final(self).wf(),
            r is Ok <==> old(self)@.contains_key(id@),
            r matches Ok(loc) ==> final(self)@ == old(self)@.remove(id@)
                && loc@ == old(self)@[id@],
            r is Err ==> final(self)@ == old(self)@ && final(self).entries() == old(self).entries()
                && (r matches Err(SphereError::IdNotFound { id: e }) && e@ == id@),
    {
        let ghost s0 = self.pairs@;
        let (i, found) = self.search(id);
        proof {
            self.lemma_entries_bindings();
        }
        if !found {
            return Err(SphereError::IdNotFound { id: String::from_str(id) });
        }
        let pair = self.pairs.remove(i);
        proof {
            let s1 = self.pairs@;
            s0.remove_ensures(i as int);
            assert(s1 =~= s0.remove(i as int));
            lemma_sorted_unique(s0);
            assert(keys_sorted(s1)) by {
                assert forall|p: int, q: int| 0 <= p < q < s1.len()
                    implies lex_lt(#[trigger] s1[p].0@, #[trigger] s1[q].0@) by {
                    let pp = if p < i { p } else { p + 1 };
                    let qq = if q < i { q } else { q + 1 };
                    assert(s1[p] == s0[pp] && s1[q] == s0[qq]);
                }
            }
            assert(key_at(s0, id@) == i as int);
            assert(final(self)@ =~= old(self)@.remove(id@)) by {
                lemma_sorted_unique(s1);
                assert(forall|k: Seq<char>| #[trigger] has_key(s1, k) <==> has_key(s0, k) && k != id@) by {
                    assert forall|k: Seq<char>| has_key(s1, k) implies has_key(s0, k) && k != id@ by {
                        let w = key_at(s1, k);
                        if w < i {
                            assert(s0[w].0@ == k);
                        } else {
                            assert(s0[w + 1].0@ == k);
                        }
                    }
                    assert forall|k: Seq<char>| has_key(s0, k) && k != id@ implies has_key(s1, k) by {
                        let w = key_at(s0, k);
                        assert(w != i);
                        if w < i {
                            assert(s1[w].0@ == k);
                        } else {
                            assert(s1[w - 1].0@ == k);
                        }
                    }
                }
                assert forall|k: Seq<char>| #[trigger] has_key(s1, k) implies
                    pairs_map(s1)[k] == old(self)@.remove(id@)[k] by {
                    let w = key_at(s1, k);
                    if w < i {
                        assert(s0[w].0@ == k && s0[w].1@ == s1[w].1@);
                        assert(key_at(s0, k) == w);
                    } else {
                        assert(s0[w + 1].0@ == k && s0[w + 1].1@ == s1[w].1@);
                        assert(key_at(s0, k) == w + 1);
                    }
                }
            }
        }
        Ok(pair.1)
    }
}

} // verus!

use crate::jsontext::{index_text_spec, json_of_pairs, map_of_pairs, parse_index_pairs, pairs_to_json};
use crate::text::pair_views;

verus! {

impl CacheIndex {
    /// Loads the index from the index file's content: an absent file or one
    /// holding only whitespace is the empty index; anything else must be one
    /// JSON object of strings, or the load fails with the index-parse error
    /// naming the file path.  A later binding of an id replaces an earlier
    /// one, as a JSON object with a repeated key reads.
    pub fn load(content: Option<&String>, path: &str) -> (r: Result<CacheIndex, SphereError>)
        ensures
            match content {
                None => r matches Ok(x) && x.wf() && x@ == Map::<Seq<char>, Seq<char>>::empty(),
                Some(text) => match index_text_spec(text@) {
                    Some(ps) => r matches Ok(x) && x.wf() && x@ == map_of_pairs(ps),
                    None => r matches Err(SphereError::IndexParse { path: p }) && p@ == path@,
                },
            },
    {
        let text = match content {
            None => {
                return Ok(CacheIndex::new());
            },
            Some(t) => t,
        };
        let pairs = match parse_index_pairs(text.as_str()) {
            None => {
                return Err(SphereError::IndexParse { path: String::from_str(path) });
            },
            Some(ps) => ps,
        };
        let ghost psv = pair_views(pairs@);
        let mut x = CacheIndex::new();
        let mut i: usize = 0;
        proof {
            assert(psv.take(0) =~= Seq::<(Seq<char>, Seq<char>)>::empty());
        }
        while i < pairs.len()
            invariant
                i <= pairs@.len(),
                psv == pair_views(pairs@),
                psv.len() == pairs@.len(),
                x.wf(),
                x@ == map_of_pairs(psv.take(i as int)),
            decreases pairs@.len() - i,
        {
            x.set(pairs[i].0.as_str(), pairs[i].1.as_str());
            proof {
                assert(psv.take(i as int + 1).drop_last() =~= psv.take(i as int));
                assert(psv.take(i as int + 1).last() == psv[i as int]);
            }
            i = i + 1;
        }
        proof {
            assert(psv.take(i as int) =~= psv);
        }
        Ok(x)
    }

    /// The canonical serialized form of the index: pretty JSON, one entry
    /// per line, keys in their stored (sorted) order.
    pub fn to_json(&self) -> (r: String)
        ensures
            r@ == json_of_pairs(pair_views(self.entries())),
    {
        pairs_to_json(&self.pairs)
    }
}

/// The cache directory below a home directory.
pub fn cache_dir_path(home: &str) -> (r: String)
    ensures
        r@ == home@ + "/.sphere/cache"@,
{
    let mut r = String::from_str(home);
    r.append("/.sphere/cache");
    r
}

/// The index file inside the cache directory.
pub fn index_file_path(cache_dir: &str) -> (r: String)
    ensures
        r@ == cache_dir@ + "/index.json"@,
{
    let mut r = String::from_str(cache_dir);
    r.append("/index.json");
    r
}


/// The last-wins fold of a pair sequence with pairwise distinct keys
/// denotes the same mapping as the sequence itself.
pub proof fn lemma_map_of_pairs_unique(s: Seq<(String, String)>)
    requires
        forall|i: int, j: int|
            0 <= i < s.len() && 0 <= j < s.len() && i != j
                ==> (#[trigger] s[i].0@) != (#[trigger] s[j].0@),
    ensures
        map_of_pairs(pair_views(s)) == pairs_map(s),
    decreases s.len(),
{
    if s.len() == 0 {
        assert(pair_views(s).len() == 0);
        assert(map_of_pairs(pair_views(s)) == Map::<Seq<char>, Seq<char>>::empty());
        assert(pairs_map(s) =~= Map::<Seq<char>, Seq<char>>::empty());
    } else {
        let s0 = s.drop_last();
        let k = s.last().0@;
        let v = s.last().1@;
        lemma_map_of_pairs_unique(s0);
        assert(pair_views(s).drop_last() =~= pair_views(s0));
        assert(pair_views(s).last() == (k, v));
        assert(map_of_pairs(pair_views(s)) == pairs_map(s0).insert(k, v));
        assert(pairs_map(s) =~= pairs_map(s0).insert(k, v)) by {
            assert(forall|kk: Seq<char>| #[trigger] has_key(s, kk) <==> has_key(s0, kk) || kk
                == k) by {
                assert forall|kk: Seq<char>| has_key(s, kk) implies has_key(s0, kk) || kk == k by {
                    let w = key_at(s, kk);
                    if w < s.len() - 1 {
                        assert(s0[w].0@ == kk);
                    }
                }
                assert forall|kk: Seq<char>| has_key(s0, kk) || kk == k implies has_key(s, kk) by {
                    if kk == k {
                        assert(s[s.len() - 1].0@ == kk);
                    } else {
                        let w = key_at(s0, kk);
                        assert(s[w].0@ == kk);
                    }
                }
            }
            assert forall|kk: Seq<char>| #[trigger] has_key(s, kk) implies pairs_map(s)[kk]
                == pairs_map(s0).insert(k, v)[kk] by {
                let w = key_at(s, kk);
                if kk == k {
                    assert(w == s.len() - 1);
                } else {
                    assert(w < s.len() - 1);
                    assert(s0[w].0@ == kk && s0[w].1@ == s[w].1@);
                    assert(key_at(s0, kk) == w);
                }
            }
        }
    }
}

/// Law: saving the cache index and loading what was written restores the
/// same mapping.  The canonical JSON text of a well-formed index parses
/// back to exactly its entries, and those entries denote the index's own
/// mapping, so a load of the saved text rebuilds an index with an equal
/// view.
pub proof fn lemma_index_save_load(x: CacheIndex)
    requires
        x.wf(),
    ensures
        index_text_spec(json_of_pairs(pair_views(x.entries()))) == Some(
            pair_views(x.entries()),
        ),
        map_of_pairs(pair_views(x.entries())) == x@,
{
    crate::jsontext::lemma_index_round_trip(pair_views(x.entries()));
    lemma_sorted_unique(x.entries());
    lemma_map_of_pairs_unique(x.entries());
}


/// Dropping a sorted sequence's first entry removes exactly its key from
/// the denoted mapping, and keeps the rest sorted.
proof fn lemma_pairs_map_drop_first(s: Seq<(String, String)>)
    requires
        keys_sorted(s),
        s.len() > 0,
    ensures
        keys_sorted(s.drop_first()),
        pairs_map(s.drop_first()) == pairs_map(s).remove(s[0].0@),
{
    lemma_sorted_unique(s);
    let k0 = s[0].0@;
    let s1 = s.drop_first();
    assert(keys_sorted(s1)) by {
        assert forall|p: int, q: int| 0 <= p < q < s1.len()
            implies lex_lt(#[trigger] s1[p].0@, #[trigger] s1[q].0@) by {
            assert(s1[p] == s[p + 1] && s1[q] == s[q + 1]);
        }
    }
    lemma_sorted_unique(s1);
    assert(pairs_map(s1) =~= pairs_map(s).remove(k0)) by {
        assert(forall|k: Seq<char>| #[trigger] has_key(s1, k) <==> has_key(s, k) && k != k0) by {
            assert forall|k: Seq<char>| has_key(s1, k) implies has_key(s, k) && k != k0 by {
                let w = key_at(s1, k);
                assert(s[w + 1].0@ == k);
            }
            assert forall|k: Seq<char>| has_key(s, k) && k != k0 implies has_key(s1, k) by {
                let w = key_at(s, k);
                assert(w != 0);
                assert(s1[w - 1].0@ == k);
            }
        }
        assert forall|k: Seq<char>| #[trigger] has_key(s1, k) implies pairs_map(s1)[k]
            == pairs_map(s).remove(k0)[k] by {
            let w = key_at(s1, k);
            assert(s[w + 1].0@ == k && s[w + 1].1@ == s1[w].1@);
            assert(key_at(s, k) == w + 1);
        }
    }
}

/// Two sorted pair sequences denoting the same mapping hold the same keys
/// and values in the same order.
proof fn lemma_canonical_representation(a: Seq<(String, String)>, b: Seq<(String, String)>)
    requires
        keys_sorted(a),
        keys_sorted(b),
        pairs_map(a) == pairs_map(b),
    ensures
        pair_views(a) == pair_views(b),
    decreases a.len(),
{
    lemma_sorted_unique(a);
    lemma_sorted_unique(b);
    if a.len() == 0 && b.len() == 0 {
        assert(pair_views(a) =~= pair_views(b));
    } else if a.len() == 0 {
        assert(has_key(b, b[0].0@));
        assert(pairs_map(b).contains_key(b[0].0@));
        assert(has_key(a, b[0].0@));
        assert(false);
    } else if b.len() == 0 {
        assert(has_key(a, a[0].0@));
        assert(pairs_map(a).contains_key(a[0].0@));
        assert(has_key(b, a[0].0@));
        assert(false);
    } else {
        let ka = a[0].0@;
        let kb = b[0].0@;
        assert(has_key(a, ka) && has_key(b, kb));
        assert(pairs_map(a).contains_key(ka) && pairs_map(b).contains_key(kb));
        assert(has_key(b, ka) && has_key(a, kb));
        if ka != kb {
            let ja = key_at(b, ka);
            let jb = key_at(a, kb);
            assert(b[ja].0@ == ka && a[jb].0@ == kb);
            assert(ja != 0 && jb != 0);
            assert(lex_lt(kb, ka));
            assert(lex_lt(ka, kb));
            lemma_lex_trans(ka, kb, ka);
            lemma_lex_irrefl(ka);
        }
        assert(key_at(a, ka) == 0);
        assert(key_at(b, ka) == 0);
        assert(a[0].1@ == pairs_map(a)[ka]);
        assert(b[0].1@ == pairs_map(b)[ka]);
        lemma_pairs_map_drop_first(a);
        lemma_pairs_map_drop_first(b);
        lemma_canonical_representation(a.drop_first(), b.drop_first());
        assert(pair_views(a.drop_first()).len() == a.len() - 1);
        assert(pair_views(b.drop_first()).len() == b.len() - 1);
        assert(a.len() == b.len());
        assert(pair_views(a) =~= pair_views(b)) by {
            assert(pair_views(a)[0] == pair_views(b)[0]);
            assert forall|i: int| 0 < i < pair_views(a).len()
                implies pair_views(a)[i] == pair_views(b)[i] by {
                assert(a.drop_first()[i - 1] == a[i]);
                assert(b.drop_first()[i - 1] == b[i]);
                assert(pair_views(a.drop_first())[i - 1] == pair_views(a)[i]);
                assert(pair_views(b.drop_first())[i - 1] == pair_views(b)[i]);
            }
        }
    }
}

/// Law: the serialized form of a well-formed index is canonical: any two
/// well-formed indexes denoting the same mapping serialize to the very
/// same text.
pub proof fn lemma_canonical_serialization(x: CacheIndex, y: CacheIndex)
    requires
        x.wf(),
        y.wf(),
        x@ == y@,
    ensures
        json_of_pairs(pair_views(x.entries())) == json_of_pairs(pair_views(y.entries())),
{
    lemma_canonical_representation(x.entries(), y.entries());
}

} // verus!
