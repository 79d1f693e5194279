//! The watermark store: which watermark was last applied for each source.
//!
//! The store is a finite map from canonical descriptor text to watermark
//! text. It is read from and written to a JSON document, one member per
//! source.

use crate::error::SyncError;
use std::collections::BTreeMap;
use vstd::prelude::*;
use vstd::string::*;

verus! {

/// The error type of `serde_json`, opaque here.
#[verifier::external_type_specification]
#[verifier::external_body]
pub struct ExJsonError(serde_json::Error);

/// What `serde_json::from_str` makes of `text` when asked for a map from
/// strings to strings: `None` where it reports an error, else the members of
/// the map in ascending order of their keys.
pub uninterp spec fn document_entries(text: Seq<char>) -> Option<Seq<(Seq<char>, Seq<char>)>>;

/// The text that `serde_json::to_string_pretty` writes for a map from strings
/// to strings.
pub uninterp spec fn document_text(entries: Map<Seq<char>, Seq<char>>) -> Seq<char>;

/// Calls `serde_json::from_str` for a `BTreeMap<String, String>` and hands out
/// the map's members in the map's own order. Nothing is claimed of which
/// texts decode, nor to what: the result is only given its name.
#[verifier::external_body]
fn decode_document(text: &str) -> (r: Result<Vec<(String, String)>, serde_json::Error>)
    ensures
        match r {
            Ok(es) => document_entries(text@) == Some(pair_views(es@)),
            Err(_) => document_entries(text@) is None,
        },
{
    let members: BTreeMap<String, String> = serde_json::from_str(text)?;
    Ok(members.into_iter().collect())
}

/// Calls `serde_json::to_string_pretty` on the entries, gathered into a
/// `BTreeMap`. Claims that it succeeds: it writes into memory, and of the two
/// causes of failure that its documentation names, a failing `Serialize` and
/// a key that is no string, neither can arise with strings for keys and
/// values. The text is given its name.
#[verifier::external_body]
fn encode_document(entries: &Vec<(String, String)>) -> (r: Result<String, serde_json::Error>)
    requires
        distinct_keys(pair_views(entries@)),
    ensures
        r is Ok,
        r matches Ok(text) ==> text@ == document_text(entries_map(pair_views(entries@))),
{
    let members: BTreeMap<&str, &str> =
        entries.iter().map(|e| (e.0.as_str(), e.1.as_str())).collect();
    serde_json::to_string_pretty(&members)
}

/// The store that a state document describes, if the document can be read as
/// one.
pub open spec fn document_store(text: Seq<char>) -> Option<Map<Seq<char>, Seq<char>>> {
    match document_entries(text) {
        Some(es) => Some(entries_map(es)),
        None => None,
    }
}

/// The store that a run starts from: that of the state document, or the empty
/// one where the document is missing or cannot be read.
pub open spec fn loaded(document: Option<Seq<char>>) -> Map<Seq<char>, Seq<char>> {
    match document {
        Some(text) => match document_store(text) {
            Some(m) => m,
            None => Map::empty(),
        },
        None => Map::empty(),
    }
}

/// The map that a list of entries describes when they are inserted in order,
/// so that of two entries with one key the later one stays.
pub open spec fn entries_map(es: Seq<(Seq<char>, Seq<char>)>) -> Map<Seq<char>, Seq<char>>
    decreases es.len(),
{
    if es.len() == 0 {
        Map::empty()
    } else {
        entries_map(es.drop_last()).insert(es.last().0, es.last().1)
    }
}

/// The views of a sequence of pairs of strings.
pub open spec fn pair_views(v: Seq<(String, String)>) -> Seq<(Seq<char>, Seq<char>)> {
    Seq::new(v.len(), |i: int| (v[i].0@, v[i].1@))
}

/// No key occurs in two entries.
pub open spec fn distinct_keys(es: Seq<(Seq<char>, Seq<char>)>) -> bool {
    forall|i: int, j: int| 0 <= i < es.len() && 0 <= j < es.len() && i != j ==> es[i].0 != es[j].0
}

/// The key `k` occurs among the entries.
pub open spec fn has_key(es: Seq<(Seq<char>, Seq<char>)>, k: Seq<char>) -> bool {
    exists|i: int| 0 <= i < es.len() && es[i].0 == k
}

/// The map of a list of entries holds exactly the keys that occur in it.
pub proof fn lemma_entries_map_domain(es: Seq<(Seq<char>, Seq<char>)>, k: Seq<char>)
    ensures
        entries_map(es).contains_key(k) <==> has_key(es, k),
        entries_map(es).dom().finite(),
    decreases es.len(),
{
    if es.len() > 0 {
        let front = es.drop_last();
        lemma_entries_map_domain(front, k);
        if has_key(front, k) {
            let i = choose|i: int| 0 <= i < front.len() && front[i].0 == k;
            assert(es[i].0 == k);
        }
        if has_key(es, k) {
            let i = choose|i: int| 0 <= i < es.len() && es[i].0 == k;
            if i < es.len() - 1 {
                assert(front[i].0 == k);
            }
        }
        if es.last().0 == k {
            assert(es[es.len() - 1].0 == k);
        }
    }
}

/// Where no key occurs twice, the map of a list of entries sends each entry's
/// key to that entry's value.
pub proof fn lemma_entries_map_value(es: Seq<(Seq<char>, Seq<char>)>, i: int)
    requires
        distinct_keys(es),
        0 <= i < es.len(),
    ensures
        entries_map(es).contains_key(es[i].0),
        entries_map(es)[es[i].0] == es[i].1,
    decreases es.len(),
{
    let front = es.drop_last();
    if i < es.len() - 1 {
        assert(distinct_keys(front)) by {
            assert forall|a: int, b: int|
                0 <= a < front.len() && 0 <= b < front.len() && a != b implies front[a].0
                != front[b].0 by {
                assert(es[a].0 != es[b].0);
            }
        }
        lemma_entries_map_value(front, i);
        assert(front[i] == es[i]);
        assert(es[i].0 != es[es.len() - 1].0);
    }
}

/// Replacing the value of an entry in place is an insertion under its key.
pub proof fn lemma_entries_map_update(
    es: Seq<(Seq<char>, Seq<char>)>,
    i: int,
    value: Seq<char>,
)
    requires
        distinct_keys(es),
        0 <= i < es.len(),
    ensures
        distinct_keys(es.update(i, (es[i].0, value))),
        entries_map(es.update(i, (es[i].0, value))) == entries_map(es).insert(es[i].0, value),
{
    let key = es[i].0;
    let after = es.update(i, (key, value));
    assert(distinct_keys(after)) by {
        assert forall|a: int, b: int|
            0 <= a < after.len() && 0 <= b < after.len() && a != b implies after[a].0
            != after[b].0 by {
            assert(after[a].0 == es[a].0 && after[b].0 == es[b].0);
        }
    }
    let left = entries_map(after);
    let right = entries_map(es).insert(key, value);
    assert forall|k: Seq<char>| left.contains_key(k) <==> right.contains_key(k) by {
        lemma_entries_map_domain(after, k);
        lemma_entries_map_domain(es, k);
        if has_key(after, k) {
            let a = choose|a: int| 0 <= a < after.len() && after[a].0 == k;
            assert(es[a].0 == k);
        }
        if has_key(es, k) {
            let a = choose|a: int| 0 <= a < es.len() && es[a].0 == k;
            assert(after[a].0 == k);
        }
        if k == key {
            assert(after[i].0 == k);
        }
    }
    assert forall|k: Seq<char>| left.contains_key(k) implies left[k] == right[k] by {
        lemma_entries_map_domain(after, k);
        let a = choose|a: int| 0 <= a < after.len() && after[a].0 == k;
        lemma_entries_map_value(after, a);
        lemma_entries_map_value(es, a);
    }
    assert(left =~= right);
}

/// Appending an entry is an insertion under its key.
pub proof fn lemma_entries_map_push(es: Seq<(Seq<char>, Seq<char>)>, e: (Seq<char>, Seq<char>))
    ensures
        entries_map(es.push(e)) == entries_map(es).insert(e.0, e.1),
{
    assert(es.push(e).drop_last() =~= es);
}

/// The mapping from canonical descriptor to last-applied watermark.
pub struct WatermarkStore {
    entries: Vec<(String, String)>,
}

impl View for WatermarkStore {
    type V = Map<Seq<char>, Seq<char>>;

    closed spec fn view(&self) -> Map<Seq<char>, Seq<char>> {
        entries_map(pair_views(self.entries@))
    }
}

impl WatermarkStore {
    #[verifier::type_invariant]
    closed spec fn keys_are_distinct(&self) -> bool {
        distinct_keys(pair_views(self.entries@))
    }

    /// A store that knows no source.
    pub fn new() -> (store: Self)
        ensures
            store@ == Map::<Seq<char>, Seq<char>>::empty(),
    {
        let store = WatermarkStore { entries: Vec::new() };
        assert(pair_views(store.entries@) =~= Seq::empty());
        store
    }

    /// The index of the entry under `key`, if there is one.
    fn position(&self, key: &str) -> (r: Option<usize>)
        ensures
            match r {
                Some(i) => i < self.entries@.len() && self.entries@[i as int].0@ == key@,
                None => !has_key(pair_views(self.entries@), key@),
            },
    {
        let wanted: String = key.to_owned();
        let n: usize = self.entries.len();
        let mut i: usize = 0;
        while i < n
            invariant
                n == self.entries@.len(),
                i <= n,
                wanted@ == key@,
                forall|j: int| 0 <= j < i ==> self.entries@[j].0@ != key@,
            decreases n - i,
        {
            if self.entries[i].0 == wanted {
                return Some(i);
            }
            i = i + 1;
        }
        proof {
            let es = pair_views(self.entries@);
            if has_key(es, key@) {
                let j = choose|j: int| 0 <= j < es.len() && es[j].0 == key@;
                assert(self.entries@[j].0@ == key@);
            }
        }
        None
    }

    /// The watermark stored for `key`, if there is one.
    pub fn get(&self, key: &str) -> (r: Option<&String>)
        ensures
            match r {
                Some(w) => self@.contains_key(key@) && self@[key@] == w@,
                None => !self@.contains_key(key@),
            },
    {
        proof {
            use_type_invariant(self);
            lemma_entries_map_domain(pair_views(self.entries@), key@);
        }
        match self.position(key) {
            Some(i) => {
                proof {
                    lemma_entries_map_value(pair_views(self.entries@), i as int);
                }
                Some(&self.entries[i].1)
            },
            None => None,
        }
    }

    /// Whether a watermark is stored for `key`.
    pub fn contains_key(&self, key: &str) -> (r: bool)
        ensures
            r == self@.contains_key(key@),
    {
        self.get(key).is_some()
    }

    /// The number of sources with a stored watermark.
    pub fn len(&self) -> (n: usize)
        ensures
            n == self@.len(),
    {
        proof {
            use_type_invariant(self);
            lemma_entries_map_len(pair_views(self.entries@));
        }
        self.entries.len()
    }

    /// Whether no watermark is stored at all.
    pub fn is_empty(&self) -> (r: bool)
        ensures
            r == (self@ == Map::<Seq<char>, Seq<char>>::empty()),
    {
        proof {
            use_type_invariant(self);
            lemma_entries_map_len(pair_views(self.entries@));
            if self.entries@.len() == 0 {
                assert(pair_views(self.entries@) =~= Seq::empty());
            }
        }
        self.entries.len() == 0
    }

    /// Stores `watermark` for `key`, in place of what was stored before.
    pub fn insert(&mut self, key: String, watermark: String)
        ensures
            final(self)@ == old(self)@.insert(key@, watermark@),
    {
        let mut taken = WatermarkStore::new();
        core::mem::swap(self, &mut taken);
        proof {
            use_type_invariant(&taken);
        }
        let found: Option<usize> = taken.position(key.as_str());
        let mut entries: Vec<(String, String)> = taken.entries;
        let ghost before = pair_views(entries@);
        match found {
            Some(i) => {
                entries.set(i, (key, watermark));
                proof {
                    lemma_entries_map_update(before, i as int, watermark@);
                    assert(pair_views(entries@) =~= before.update(
                        i as int,
                        (before[i as int].0, watermark@),
                    ));
                }
            },
            None => {
                entries.push((key, watermark));
                proof {
                    lemma_entries_map_push(before, (key@, watermark@));
                    assert(pair_views(entries@) =~= before.push((key@, watermark@)));
                    let after = before.push((key@, watermark@));
                    assert forall|a: int, b: int|
                        0 <= a < after.len() && 0 <= b < after.len() && a != b implies after[a].0
                        != after[b].0 by {
                        if a < before.len() && b < before.len() {
                            assert(before[a].0 != before[b].0);
                        } else if a < before.len() {
                            assert(before[a].0 != key@);
                        } else {
                            assert(before[b].0 != key@);
                        }
                    }
                }
            },
        }
        *self = WatermarkStore { entries };
    }

    /// Forgets every watermark, so that every source counts as changed.
    pub fn clear(&mut self)
        ensures
            final(self)@ == Map::<Seq<char>, Seq<char>>::empty(),
    {
        *self = WatermarkStore::new();
    }

    /// The store that results from inserting `entries` in order into an empty
    /// one; of two entries with one key the later one stays.
    pub fn from_entries(entries: Vec<(String, String)>) -> (store: Self)
        ensures
            store@ == entries_map(pair_views(entries@)),
    {
        let mut store = WatermarkStore::new();
        let n: usize = entries.len();
        let mut i: usize = 0;
        assert(pair_views(entries@).subrange(0, 0) =~= Seq::empty());
        while i < n
            invariant
                n == entries@.len(),
                i <= n,
                store@ == entries_map(pair_views(entries@).subrange(0, i as int)),
            decreases n - i,
        {
            let key: String = entries[i].0.clone();
            let watermark: String = entries[i].1.clone();
            store.insert(key, watermark);
            proof {
                let all = pair_views(entries@);
                assert(all.subrange(0, i as int + 1).drop_last() =~= all.subrange(0, i as int));
                assert(all.subrange(0, i as int + 1).last() == all[i as int]);
            }
            i = i + 1;
        }
        assert(pair_views(entries@).subrange(0, n as int) =~= pair_views(entries@));
        store
    }

    /// Reads a state document. `None` where the text cannot be read as a JSON
    /// object whose members are all strings.
    pub fn parse(text: &str) -> (r: Option<Self>)
        ensures
            match r {
                Some(store) => document_store(text@) == Some(store@),
                None => document_store(text@) is None,
            },
    {
        match decode_document(text) {
            Ok(entries) => Some(WatermarkStore::from_entries(entries)),
            Err(_) => None,
        }
    }

    /// The store that a run starts from, given the text of the state file, or
    /// `None` where there is no such file. A missing or unreadable document is
    /// no error: the run starts from the empty store.
    pub fn load(document: Option<&str>) -> (store: Self)
        ensures
            store@ == loaded(
                match document {
                    Some(text) => Some(text@),
                    None => None,
                },
            ),
    {
        match document {
            Some(text) => match WatermarkStore::parse(text) {
                Some(store) => store,
                None => WatermarkStore::new(),
            },
            None => WatermarkStore::new(),
        }
    }

    /// The state document for this store: pretty-printed JSON, one member per
    /// source, to be written in place of the whole state file. Every store
    /// has a document, so the result is always `Ok`; what can fail is the
    /// writing of it.
    pub fn render(&self) -> (r: Result<String, SyncError>)
        ensures
            r matches Ok(text) && text@ == document_text(self@),
    {
        let entries: Vec<(String, String)> = self.entries();
        match encode_document(&entries) {
            Ok(text) => Ok(text),
            Err(_) => Err(SyncError::Persistence),
        }
    }

    /// The stored entries, each key once.
    pub fn entries(&self) -> (out: Vec<(String, String)>)
        ensures
            entries_map(pair_views(out@)) == self@,
            distinct_keys(pair_views(out@)),
            out@.len() == self@.len(),
    {
        proof {
            use_type_invariant(self);
            lemma_entries_map_len(pair_views(self.entries@));
        }
        let n: usize = self.entries.len();
        let mut out: Vec<(String, String)> = Vec::new();
        let mut i: usize = 0;
        while i < n
            invariant
                n == self.entries@.len(),
                i <= n,
                pair_views(out@) =~= pair_views(self.entries@).subrange(0, i as int),
            decreases n - i,
        {
            let ghost done = pair_views(out@);
            let key: String = self.entries[i].0.clone();
            let watermark: String = self.entries[i].1.clone();
            out.push((key, watermark));
            proof {
                let all = pair_views(self.entries@);
                assert(pair_views(out@) =~= done.push((key@, watermark@)));
                assert(all.subrange(0, i as int + 1) =~= all.subrange(0, i as int).push(
                    all[i as int],
                ));
            }
            i = i + 1;
        }
        assert(pair_views(out@) =~= pair_views(self.entries@));
        out
    }
}

/// Where no key occurs twice, the map of a list of entries has as many keys
/// as the list has entries.
pub proof fn lemma_entries_map_len(es: Seq<(Seq<char>, Seq<char>)>)
    requires
        distinct_keys(es),
    ensures
        entries_map(es).dom().finite(),
        entries_map(es).len() == es.len(),
    decreases es.len(),
{
    if es.len() > 0 {
        let front = es.drop_last();
        assert(distinct_keys(front)) by {
            assert forall|a: int, b: int|
                0 <= a < front.len() && 0 <= b < front.len() && a != b implies front[a].0
                != front[b].0 by {
                assert(es[a].0 != es[b].0);
            }
        }
        lemma_entries_map_len(front);
        lemma_entries_map_domain(front, es.last().0);
        if has_key(front, es.last().0) {
            let i = choose|i: int| 0 <= i < front.len() && front[i].0 == es.last().0;
            assert(es[i].0 == es[es.len() - 1].0);
        }
    } else {
        lemma_entries_map_domain(es, Seq::empty());
    }
}

} // verus!
