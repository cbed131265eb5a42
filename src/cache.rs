//! The identifier cache: content hash to catalog id, kept across scans.
use vstd::prelude::*;
use vstd::utf8::*;
use crate::json::{json_document, parse_json, Json};
use crate::text::{same_text, utf8_text};
use vstd::string::StrSliceExecFns;

verus! {

/// The id that stands for "not resolved".
pub const UNRESOLVED_ID: &'static str = "00000";

/// The map that `entries` describe, later entries overriding earlier ones.
pub open spec fn map_of(entries: Seq<(String, String)>) -> Map<Seq<char>, Seq<char>>
    decreases entries.len(),
{
    if entries.len() == 0 {
        Map::empty()
    } else {
        map_of(entries.drop_last()).insert(entries.last().0@, entries.last().1@)
    }
}

/// What the cache holds after recording that `hash` resolved to `id`: an
/// unresolved id is never kept.
pub open spec fn recorded(m: Map<Seq<char>, Seq<char>>, hash: Seq<char>, id: Seq<char>) -> Map<Seq<char>, Seq<char>> {
    if id == UNRESOLVED_ID@ {
        m
    } else {
        m.insert(hash, id)
    }
}

/// The cache after a run of resolutions, recorded in order.
pub open spec fn recorded_all(m: Map<Seq<char>, Seq<char>>, rs: Seq<(Seq<char>, Seq<char>)>) -> Map<Seq<char>, Seq<char>>
    decreases rs.len(),
{
    if rs.len() == 0 {
        m
    } else {
        recorded(recorded_all(m, rs.drop_last()), rs.last().0, rs.last().1)
    }
}

/// The map a cache document holds: an object whose values are all strings.
/// Any other document gives the empty map.
pub open spec fn document_map(doc: Json) -> Map<Seq<char>, Seq<char>> {
    match doc {
        Json::Object(es) => if all_string_values(es@) {
            string_map_of(es@)
        } else {
            Map::empty()
        },
        _ => Map::empty(),
    }
}

/// The map a cache file holds; bytes that are not UTF-8 JSON give the empty
/// map.
pub open spec fn cache_file_map(bytes: Seq<u8>) -> Map<Seq<char>, Seq<char>> {
    if valid_utf8(bytes) {
        match json_document(decode_utf8(bytes)) {
            Some(doc) => document_map(doc),
            None => Map::empty(),
        }
    } else {
        Map::empty()
    }
}

pub open spec fn all_string_values(es: Seq<(String, Json)>) -> bool {
    forall|i: int| 0 <= i < es.len() ==> (#[trigger] es[i]).1 is Str
}

pub open spec fn string_map_of(es: Seq<(String, Json)>) -> Map<Seq<char>, Seq<char>>
    decreases es.len(),
{
    if es.len() == 0 {
        Map::empty()
    } else {
        match es.last().1 {
            Json::Str(v) => string_map_of(es.drop_last()).insert(es.last().0@, v@),
            _ => string_map_of(es.drop_last()),
        }
    }
}

/// Relies on serde_json::to_string of a `BTreeMap<String, String>`: the text
/// is a JSON object whose members are the map's pairs, each value a string,
/// and serde_json reads it back as such (the map keeps the last value of a
/// repeated key, as `map_of` does). Serializing a map with string keys and
/// string values does not fail.
#[verifier::external_body]
fn string_map_json(entries: &Vec<(String, String)>) -> (r: Option<String>)
    ensures
        r is Some,
        r matches Some(text) ==> (json_document(text@) matches Some(doc) && document_map(doc) == map_of(entries@)),
{
    serde_json::to_string(&entries.iter().cloned().collect::<std::collections::BTreeMap<String, String>>()).ok()
}

/// The cache, as a list of entries with distinct hashes.
pub struct IdCache {
    entries: Vec<(String, String)>,
}

impl View for IdCache {
    type V = Map<Seq<char>, Seq<char>>;

    closed spec fn view(&self) -> Map<Seq<char>, Seq<char>> {
        map_of(self.entries@)
    }
}

pub open spec fn distinct_keys(entries: Seq<(String, String)>) -> bool {
    forall|i: int, j: int| 0 <= i < j < entries.len() ==> (#[trigger] entries[i]).0@ != (#[trigger] entries[j]).0@
}

proof fn lemma_map_of_distinct(entries: Seq<(String, String)>)
    requires
        distinct_keys(entries),
    ensures
        forall|i: int| 0 <= i < entries.len() ==> map_of(entries).contains_key(#[trigger] entries[i].0@)
            && map_of(entries)[entries[i].0@] == entries[i].1@,
        forall|k: Seq<char>| map_of(entries).contains_key(k) ==> exists|i: int| 0 <= i < entries.len() && (#[trigger] entries[i]).0@ == k,
    decreases entries.len(),
{
    if entries.len() > 0 {
        let p = entries.drop_last();
        assert(distinct_keys(p));
        lemma_map_of_distinct(p);
        assert forall|k: Seq<char>| map_of(entries).contains_key(k) implies exists|i: int| 0 <= i < entries.len() && (#[trigger] entries[i]).0@ == k by {
            if k != entries.last().0@ {
                assert(map_of(p).contains_key(k));
                let i = choose|i: int| 0 <= i < p.len() && (#[trigger] p[i]).0@ == k;
                assert(entries[i] == p[i]);
                assert(entries[i].0@ == k);
            } else {
                assert(entries[entries.len() - 1].0@ == k);
            }
        }
        assert forall|i: int| 0 <= i < entries.len() implies map_of(entries).contains_key(#[trigger] entries[i].0@)
            && map_of(entries)[entries[i].0@] == entries[i].1@ by {
            if i < entries.len() - 1 {
                assert(p[i] == entries[i]);
            }
        }
    }
}

impl IdCache {
    pub closed spec fn wf(&self) -> bool {
        distinct_keys(self.entries@)
    }

    /// An empty cache.
    pub fn new() -> (r: IdCache)
        ensures
            r.wf(),
            r@ == Map::<Seq<char>, Seq<char>>::empty(),
    {
        IdCache { entries: Vec::new() }
    }

    fn position(&self, hash: &str) -> (r: Option<usize>)
        requires
            self.wf(),
        ensures
            r matches Some(i) ==> i < self.entries@.len() && self.entries@[i as int].0@ == hash@,
            r is None ==> !self@.contains_key(hash@),
    {
        proof { lemma_map_of_distinct(self.entries@); }
        let mut i: usize = 0;
        while i < self.entries.len()
            invariant
                0 <= i <= self.entries@.len(),
                forall|k: int| 0 <= k < i ==> (#[trigger] self.entries@[k]).0@ != hash@,
            decreases self.entries@.len() - i,
        {
            if same_text(self.entries[i].0.as_str(), hash) {
                return Some(i);
            }
            i = i + 1;
        }
        None
    }

    /// The id cached for `hash`, if any.
    pub fn lookup(&self, hash: &str) -> (r: Option<String>)
        requires
            self.wf(),
        ensures
            r is Some <==> self@.contains_key(hash@),
            r matches Some(id) ==> id@ == self@[hash@],
    {
        proof { lemma_map_of_distinct(self.entries@); }
        match self.position(hash) {
            Some(i) => Some(self.entries[i].1.clone()),
            None => None,
        }
    }

    /// Sets the id of `hash`, whatever it was.
    fn insert(&mut self, hash: String, id: String)
        requires
            old(self).wf(),
        ensures
            final(self).wf(),
            final(self)@ == old(self)@.insert(hash@, id@),
    {
        proof { lemma_map_of_distinct(self.entries@); }
        match self.position(hash.as_str()) {
            Some(i) => {
                let ghost before = self.entries@;
                let ghost key = hash@;
                self.entries.set(i, (hash, id));
                proof {
                    let after = self.entries@;
                    assert(distinct_keys(after)) by {
                        assert forall|a: int, b: int| 0 <= a < b < after.len() implies (#[trigger] after[a]).0@ != (#[trigger] after[b]).0@ by {
                            if a != i && b != i {
                                assert(after[a] == before[a] && after[b] == before[b]);
                            } else if a == i {
                                assert(after[b] == before[b]);
                            } else {
                                assert(after[a] == before[a]);
                            }
                        }
                    }
                    lemma_map_of_distinct(after);
                    assert(map_of(after) =~= map_of(before).insert(key, id@)) by {
                        assert forall|k: Seq<char>| #[trigger] map_of(after).contains_key(k) <==> map_of(before).insert(key, id@).contains_key(k) by {
                            if map_of(after).contains_key(k) {
                                let j = choose|j: int| 0 <= j < after.len() && (#[trigger] after[j]).0@ == k;
                                if j != i {
                                    assert(before[j] == after[j]);
                                    assert(map_of(before).contains_key(before[j].0@));
                                }
                            }
                            if map_of(before).contains_key(k) {
                                let j = choose|j: int| 0 <= j < before.len() && (#[trigger] before[j]).0@ == k;
                                if j != i {
                                    assert(before[j] == after[j]);
                                    assert(map_of(after).contains_key(after[j].0@));
                                } else {
                                    assert(map_of(after).contains_key(after[i as int].0@));
                                }
                            }
                            if k == key {
                                assert(map_of(after).contains_key(after[i as int].0@));
                            }
                        }
                        assert forall|k: Seq<char>| #[trigger] map_of(after).contains_key(k) implies map_of(after)[k] == map_of(before).insert(key, id@)[k] by {
                            let j = choose|j: int| 0 <= j < after.len() && (#[trigger] after[j]).0@ == k;
                            if j != i {
                                assert(before[j] == after[j]);
                            }
                        }
                    }
                }
            },
            None => {
                self.entries.push((hash, id));
                proof {
                    let after = self.entries@;
                    assert(after.drop_last() =~= old(self).entries@);
                    assert(distinct_keys(after)) by {
                        assert forall|a: int, b: int| 0 <= a < b < after.len() implies (#[trigger] after[a]).0@ != (#[trigger] after[b]).0@ by {
                            if b == after.len() - 1 {
                                assert(after[a] == old(self).entries@[a]);
                            } else {
                                assert(after[a] == old(self).entries@[a] && after[b] == old(self).entries@[b]);
                            }
                        }
                    }
                }
            },
        }
    }

    /// Records that `hash` resolved to `id`. An unresolved id is not kept, so
    /// that a later scan tries again; any other id is cached.
    pub fn record(&mut self, hash: String, id: String)
        requires
            old(self).wf(),
        ensures
            final(self).wf(),
            final(self)@ == recorded(old(self)@, hash@, id@),
    {
        if !same_text(id.as_str(), UNRESOLVED_ID) {
            self.insert(hash, id);
        }
    }

    /// The cache that a cache file holds: a JSON object of strings to
    /// strings; any other content gives the empty cache.
    pub fn from_file_bytes(bytes: &[u8]) -> (r: IdCache)
        ensures
            r.wf(),
            r@ == cache_file_map(bytes@),
    {
        let text = match utf8_text(bytes) {
            Some(t) => t,
            None => return IdCache::new(),
        };
        match parse_json(text) {
            Some(doc) => IdCache::from_json(&doc),
            None => IdCache::new(),
        }
    }

    /// The cache that the JSON document `doc` holds: an object whose values
    /// are all strings gives its pairs; any other document the empty cache.
    pub fn from_json(doc: &Json) -> (r: IdCache)
        ensures
            r.wf(),
            r@ == document_map(*doc),
    {
        let mut cache = IdCache::new();
        match doc {
            Json::Object(es) => {
                let mut i: usize = 0;
                while i < es.len()
                    invariant
                        0 <= i <= es@.len(),
                        cache.wf(),
                        all_string_values(es@.subrange(0, i as int)),
                        cache@ == string_map_of(es@.subrange(0, i as int)),
                        *doc == Json::Object(*es),
                    decreases es@.len() - i,
                {
                    assert(es@.subrange(0, i + 1).drop_last() =~= es@.subrange(0, i as int));
                    match &es[i].1 {
                        Json::Str(v) => {
                            cache.insert(es[i].0.clone(), v.clone());
                        },
                        _ => {
                            assert(!(es@[i as int].1 is Str));
                            assert(!all_string_values(es@));
                            return IdCache::new();
                        },
                    }
                    i = i + 1;
                }
                assert(es@.subrange(0, i as int) =~= es@);
                cache
            },
            _ => cache,
        }
    }

    /// The bytes of the cache file that holds this cache: reading them back
    /// with `from_file_bytes` gives the same cache.
    pub fn to_file_bytes(&self) -> (r: Vec<u8>)
        requires
            self.wf(),
        ensures
            cache_file_map(r@) == self@,
    {
        let entries = self.entries();
        match string_map_json(&entries) {
            Some(text) => {
                let bytes = text.as_str().as_bytes_vec();
                proof {
                    encode_utf8_valid_utf8(text@);
                    encode_utf8_decode_utf8(text@);
                }
                bytes
            },
            None => {
                proof { assert(false); }
                Vec::new()
            },
        }
    }

    /// The cached pairs, each hash once, for writing the cache file.
    pub fn entries(&self) -> (r: Vec<(String, String)>)
        requires
            self.wf(),
        ensures
            distinct_keys(r@),
            map_of(r@) == self@,
    {
        let mut r: Vec<(String, String)> = Vec::new();
        let mut i: usize = 0;
        while i < self.entries.len()
            invariant
                0 <= i <= self.entries@.len(),
                r@ == self.entries@.subrange(0, i as int),
            decreases self.entries@.len() - i,
        {
            let (h, v) = &self.entries[i];
            r.push((h.clone(), v.clone()));
            assert(r@ =~= self.entries@.subrange(0, i + 1));
            i = i + 1;
        }
        assert(self.entries@.subrange(0, i as int) =~= self.entries@);
        r
    }
}

/// Once a hash resolved to a real id, it is cached for good: after any run of
/// resolutions, every hash that some resolution gave a real id, and every hash
/// that was cached before, is a cache hit. A later scan therefore makes no
/// network exchange for it.
pub proof fn lemma_resolved_hashes_hit(m: Map<Seq<char>, Seq<char>>, rs: Seq<(Seq<char>, Seq<char>)>)
    ensures
        forall|k: Seq<char>| m.contains_key(k) ==> #[trigger] recorded_all(m, rs).contains_key(k),
        forall|i: int| 0 <= i < rs.len() && rs[i].1 != UNRESOLVED_ID@ ==> recorded_all(m, rs).contains_key(#[trigger] rs[i].0),
    decreases rs.len(),
{
    if rs.len() > 0 {
        lemma_resolved_hashes_hit(m, rs.drop_last());
        assert forall|k: Seq<char>| m.contains_key(k) implies #[trigger] recorded_all(m, rs).contains_key(k) by {
            assert(recorded_all(m, rs.drop_last()).contains_key(k));
        }
        assert forall|i: int| 0 <= i < rs.len() && rs[i].1 != UNRESOLVED_ID@ implies recorded_all(m, rs).contains_key(#[trigger] rs[i].0) by {
            if i < rs.len() - 1 {
                assert(rs.drop_last()[i] == rs[i]);
            }
        }
    }
}

/// Across scans: when the cache file written after a run of resolutions is
/// read back by the next scan, that scan finds every hash that was cached
/// before or got a real id, and so makes no network exchange for it.
pub proof fn lemma_reloaded_cache_hits(
    m: Map<Seq<char>, Seq<char>>,
    rs: Seq<(Seq<char>, Seq<char>)>,
    file: Seq<u8>,
)
    requires
        cache_file_map(file) == recorded_all(m, rs),
    ensures
        forall|k: Seq<char>| m.contains_key(k) ==> #[trigger] cache_file_map(file).contains_key(k),
        forall|i: int| 0 <= i < rs.len() && rs[i].1 != UNRESOLVED_ID@ ==> cache_file_map(file).contains_key(#[trigger] rs[i].0),
{
    lemma_resolved_hashes_hit(m, rs);
}

/// An unresolved id is never cached: a hash that was not cached, and that no
/// resolution gave a real id, is still a miss afterwards, so the next scan
/// resolves it again.
pub proof fn lemma_unresolved_hashes_miss(m: Map<Seq<char>, Seq<char>>, rs: Seq<(Seq<char>, Seq<char>)>, hash: Seq<char>)
    requires
        !m.contains_key(hash),
        forall|i: int| 0 <= i < rs.len() && (#[trigger] rs[i]).0 == hash ==> rs[i].1 == UNRESOLVED_ID@,
    ensures
        !recorded_all(m, rs).contains_key(hash),
    decreases rs.len(),
{
    if rs.len() > 0 {
        let p = rs.drop_last();
        assert forall|i: int| 0 <= i < p.len() && (#[trigger] p[i]).0 == hash implies p[i].1 == UNRESOLVED_ID@ by {
            assert(p[i] == rs[i]);
        }
        lemma_unresolved_hashes_miss(m, p, hash);
        assert(rs[rs.len() - 1] == rs.last());
    }
}

} // verus!
