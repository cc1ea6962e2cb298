//! The expiring key-value store: a map from string keys to string values,
//! each value optionally carrying an absolute expiry timestamp in
//! milliseconds. Expiry is lazy: an expired entry is removed by the lookup
//! that finds it expired, never by a background sweep.
use vstd::prelude::*;

verus! {

/// One stored value: the payload and, when present, the absolute time in
/// milliseconds at which it expires.
#[derive(Debug)]
pub struct StoredValue {
    pub data: String,
    pub expiry: Option<u64>,
}

/// Mathematical image of one stored value.
pub struct SpecValue {
    pub data: Seq<char>,
    pub expiry: Option<u64>,
}

/// Mathematical image of one store entry, in insertion order.
pub struct SpecEntry {
    pub key: Seq<char>,
    pub data: Seq<char>,
    pub expiry: Option<u64>,
}

/// The map described by an entry sequence: later entries win, though the
/// store keeps its keys unique so each key occurs once.
pub open spec fn map_of_entries(s: Seq<SpecEntry>) -> Map<Seq<char>, SpecValue>
    decreases s.len(),
{
    if s.len() == 0 {
        Map::empty()
    } else {
        map_of_entries(s.drop_last()).insert(
            s.last().key,
            SpecValue { data: s.last().data, expiry: s.last().expiry },
        )
    }
}

/// Whether a value with this expiry is gone at time `now_ms`: an expiry at
/// or before `now_ms` counts as expired.
pub open spec fn spec_expired(expiry: Option<u64>, now_ms: u64) -> bool {
    match expiry {
        Some(t) => t <= now_ms,
        None => false,
    }
}

/// What a lookup at time `now_ms` observes in map `m`: the data if the key
/// is present and not yet expired, absent otherwise.
pub open spec fn spec_lookup(m: Map<Seq<char>, SpecValue>, key: Seq<char>, now_ms: u64) -> Option<
    Seq<char>,
> {
    if m.contains_key(key) && !spec_expired(m[key].expiry, now_ms) {
        Some(m[key].data)
    } else {
        None
    }
}

/// Whether a lookup of `key` at `now_ms` hits an entry that has expired,
/// which is the one case in which the lookup removes the entry.
pub open spec fn spec_expired_hit(m: Map<Seq<char>, SpecValue>, key: Seq<char>, now_ms: u64) -> bool {
    m.contains_key(key) && spec_expired(m[key].expiry, now_ms)
}

/// The absolute expiry computed at insertion time from a relative
/// time-to-live: `now_ms + ttl` when a ttl is given.
pub open spec fn spec_abs_expiry(ttl_ms: Option<u64>, now_ms: u64) -> Option<u64> {
    match ttl_ms {
        Some(ms) => Some((now_ms + ms) as u64),
        None => None,
    }
}

/// The expiring key-value store.
#[derive(Debug)]
pub struct Store {
    entries: Vec<(String, StoredValue)>,
}

impl View for Store {
    type V = Map<Seq<char>, SpecValue>;

    open spec fn view(&self) -> Map<Seq<char>, SpecValue> {
        map_of_entries(self.kvs())
    }
}

impl Store {
    /// The entries in insertion order; the snapshot codec writes them in
    /// exactly this order.
    pub closed spec fn kvs(&self) -> Seq<SpecEntry> {
        self.entries@.map(
            |i: int, e: (String, StoredValue)|
                SpecEntry { key: e.0@, data: e.1.data@, expiry: e.1.expiry },
        )
    }

    /// Well-formedness: no key occurs twice.
    pub open spec fn inv(&self) -> bool {
        forall|i: int, j: int|
            0 <= i < j < self.kvs().len() ==> (#[trigger] self.kvs()[i]).key != (
            #[trigger] self.kvs()[j]).key
    }

    /// Entries that carry an expiry, in order.
    pub open spec fn expiring(&self) -> Seq<SpecEntry> {
        self.kvs().filter(|e: SpecEntry| e.expiry is Some)
    }

    pub fn new() -> (r: Store)
        ensures
            r.inv(),
            r.kvs() == Seq::<SpecEntry>::empty(),
            r@ == Map::<Seq<char>, SpecValue>::empty(),
    {
        let s = Store { entries: Vec::new() };
        assert(s.kvs() =~= Seq::<SpecEntry>::empty());
        s
    }

    /// Index of the entry holding `key`, if any.
    fn find_index(&self, key: &String) -> (r: Option<usize>)
        ensures
            match r {
                Some(i) => i < self.kvs().len() && self.kvs()[i as int].key == key@,
                None => forall|i: int|
                    0 <= i < self.kvs().len() ==> (#[trigger] self.kvs()[i]).key != key@,
            },
    {
        let mut i: usize = 0;
        while i < self.entries.len()
            invariant
                i <= self.entries.len(),
                self.kvs().len() == self.entries.len(),
                forall|j: int| 0 <= j < i ==> (#[trigger] self.kvs()[j]).key != key@,
            decreases self.entries.len() - i,
        {
            if self.entries[i].0 == *key {
                return Some(i);
            }
            i = i + 1;
        }
        None
    }

    /// Inserts `value` under `key`, overwriting any existing entry. A
    /// time-to-live of `ttl_ms` milliseconds, measured from `now_ms`,
    /// becomes the absolute expiry `now_ms + ttl_ms`.
    pub fn insert(&mut self, key: String, value: String, ttl_ms: Option<u64>, now_ms: u64)
        requires
            old(self).inv(),
            ttl_ms is Some ==> now_ms + ttl_ms.unwrap() <= u64::MAX,
        ensures
            final(self).inv(),
            final(self)@ == old(self)@.insert(
                key@,
                SpecValue { data: value@, expiry: spec_abs_expiry(ttl_ms, now_ms) },
            ),
            final(self).kvs() == spec_upsert(
                old(self).kvs(),
                SpecEntry { key: key@, data: value@, expiry: spec_abs_expiry(ttl_ms, now_ms) },
            ),
    {
        let expiry_abs: Option<u64> = match ttl_ms {
            Some(ms) => Some(now_ms + ms),
            None => None,
        };
        self.insert_absolute(key, value, expiry_abs);
    }

    /// Inserts `value` under `key` with an already-absolute expiry,
    /// overwriting any existing entry. The snapshot loader uses this, since
    /// snapshot files carry absolute timestamps.
    pub fn insert_absolute(&mut self, key: String, value: String, expiry: Option<u64>)
        requires
            old(self).inv(),
        ensures
            final(self).inv(),
            final(self)@ == old(self)@.insert(key@, SpecValue { data: value@, expiry: expiry }),
            final(self).kvs() == spec_upsert(
                old(self).kvs(),
                SpecEntry { key: key@, data: value@, expiry: expiry },
            ),
    {
        let ghost entry = SpecEntry { key: key@, data: value@, expiry: expiry };
        match self.find_index(&key) {
            Some(i) => {
                let ghost j = i as int;
                self.entries.set(i, (key, StoredValue { data: value, expiry: expiry }));
                proof {
                    assert(self.kvs() =~= old(self).kvs().update(j, entry));
                    assert(spec_upsert(old(self).kvs(), entry) == old(self).kvs().update(j, entry))
                        by {
                        lemma_upsert_is_update(old(self).kvs(), entry, j);
                    }
                    lemma_map_of_update(old(self).kvs(), j, entry);
                }
            },
            None => {
                self.entries.push((key, StoredValue { data: value, expiry: expiry }));
                proof {
                    assert(self.kvs() =~= old(self).kvs().push(entry));
                    assert(self.kvs().drop_last() =~= old(self).kvs());
                }
            },
        }
    }

    /// Looks `key` up at time `now_ms`. An entry whose expiry has passed is
    /// treated as absent and removed by this very lookup; a live entry is
    /// returned as a copy and the store is unchanged.
    pub fn get(&mut self, key: &str, now_ms: u64) -> (r: Option<String>)
        requires
            old(self).inv(),
        ensures
            final(self).inv(),
            match r {
                Some(v) => spec_lookup(old(self)@, key@, now_ms) == Some(v@),
                None => spec_lookup(old(self)@, key@, now_ms) is None,
            },
            final(self)@ == if spec_expired_hit(old(self)@, key@, now_ms) {
                old(self)@.remove(key@)
            } else {
                old(self)@
            },
            spec_expired_hit(old(self)@, key@, now_ms) ==> exists|j: int|
                0 <= j < old(self).kvs().len() && (#[trigger] old(self).kvs()[j]).key == key@
                    && final(self).kvs() == old(self).kvs().remove(j),
            !spec_expired_hit(old(self)@, key@, now_ms) ==> final(self).kvs() == old(self).kvs(),
    {
        let key_string = String::from_str(key);
        match self.find_index(&key_string) {
            Some(i) => {
                let ghost j = i as int;
                proof {
                    lemma_map_of_entries_index(self.kvs(), j);
                }
                let expired = match self.entries[i].1.expiry {
                    Some(t) => t <= now_ms,
                    None => false,
                };
                if expired {
                    self.entries.remove(i);
                    proof {
                        assert(self.kvs() =~= old(self).kvs().remove(j));
                        lemma_map_of_remove(old(self).kvs(), j);
                    }
                    None
                } else {
                    let v = &self.entries[i].1;
                    Some(clone_string(&v.data))
                }
            },
            None => {
                proof {
                    lemma_map_of_entries_absent(self.kvs(), key@);
                }
                None
            },
        }
    }

    /// Number of entries held, counting entries whose expiry has passed but
    /// which no lookup has swept yet.
    pub fn len(&self) -> (r: usize)
        ensures
            r == self.kvs().len(),
    {
        self.entries.len()
    }

    /// Number of held entries that carry an expiry.
    pub fn expire_len(&self) -> (r: usize)
        ensures
            r == self.expiring().len(),
    {
        let mut count: usize = 0;
        let mut i: usize = 0;
        proof {
            assert(self.kvs().take(0) =~= Seq::<SpecEntry>::empty());
        }
        while i < self.entries.len()
            invariant
                i <= self.entries.len(),
                self.kvs().len() == self.entries.len(),
                count == self.kvs().take(i as int).filter(|e: SpecEntry| e.expiry is Some).len(),
                count <= i,
            decreases self.entries.len() - i,
        {
            let ghost prefix = self.kvs().take(i as int);
            let ghost entry = self.kvs()[i as int];
            proof {
                assert(self.kvs().take(i + 1).drop_last() =~= prefix);
                assert(self.kvs().take(i + 1).last() == entry);
                assert(self.kvs().take(i + 1) =~= prefix.push(entry));
                reveal(Seq::filter);
                assert(prefix.push(entry).drop_last() =~= prefix);
            }
            if self.entries[i].1.expiry.is_some() {
                count = count + 1;
            }
            i = i + 1;
        }
        proof {
            assert(self.kvs().take(self.entries.len() as int) =~= self.kvs());
        }
        count
    }

    /// A point-in-time copy of every held entry, in insertion order, for
    /// the snapshot codec. Entries already expired are still included; the
    /// codec applies its own expiry check when writing.
    pub fn iter_for_rdb(&self) -> (r: Vec<(String, String, Option<u64>)>)
        ensures
            r@.len() == self.kvs().len(),
            forall|i: int|
                0 <= i < r@.len() ==> {
                    &&& (#[trigger] r@[i]).0@ == self.kvs()[i].key
                    &&& r@[i].1@ == self.kvs()[i].data
                    &&& r@[i].2 == self.kvs()[i].expiry
                },
    {
        let mut out: Vec<(String, String, Option<u64>)> = Vec::new();
        let mut i: usize = 0;
        while i < self.entries.len()
            invariant
                i <= self.entries.len(),
                self.kvs().len() == self.entries.len(),
                out@.len() == i,
                forall|k: int|
                    0 <= k < i ==> {
                        &&& (#[trigger] out@[k]).0@ == self.kvs()[k].key
                        &&& out@[k].1@ == self.kvs()[k].data
                        &&& out@[k].2 == self.kvs()[k].expiry
                    },
            decreases self.entries.len() - i,
        {
            let e = &self.entries[i];
            out.push((clone_string(&e.0), clone_string(&e.1.data), e.1.expiry));
            i = i + 1;
        }
        out
    }
}

/// Copy of a string, with its contents pinned down.
pub fn clone_string(s: &String) -> (r: String)
    ensures
        r@ == s@,
{
    s.clone()
}

/// The sequence after inserting `entry`: an existing entry under the same
/// key is overwritten in place, otherwise the entry goes to the end.
pub open spec fn spec_upsert(s: Seq<SpecEntry>, entry: SpecEntry) -> Seq<SpecEntry> {
    if exists|i: int| 0 <= i < s.len() && (#[trigger] s[i]).key == entry.key {
        s.update(choose|i: int| 0 <= i < s.len() && (#[trigger] s[i]).key == entry.key, entry)
    } else {
        s.push(entry)
    }
}

/// With unique keys, upserting a key found at `j` updates index `j`.
proof fn lemma_upsert_is_update(s: Seq<SpecEntry>, entry: SpecEntry, j: int)
    requires
        0 <= j < s.len(),
        s[j].key == entry.key,
        forall|a: int, b: int| 0 <= a < b < s.len() ==> (#[trigger] s[a]).key != (#[trigger] s[b]).key,
    ensures
        spec_upsert(s, entry) == s.update(j, entry),
{
    let i = choose|i: int| 0 <= i < s.len() && (#[trigger] s[i]).key == entry.key;
    assert(s[i].key == entry.key);
    assert(i == j);
}

/// The map of an updated sequence is the map with the updated key bound
/// anew, provided keys are unique.
proof fn lemma_map_of_update(s: Seq<SpecEntry>, j: int, entry: SpecEntry)
    requires
        0 <= j < s.len(),
        s[j].key == entry.key,
        forall|a: int, b: int| 0 <= a < b < s.len() ==> (#[trigger] s[a]).key != (#[trigger] s[b]).key,
    ensures
        map_of_entries(s.update(j, entry)) == map_of_entries(s).insert(
            entry.key,
            SpecValue { data: entry.data, expiry: entry.expiry },
        ),
    decreases s.len(),
{
    let v = SpecValue { data: entry.data, expiry: entry.expiry };
    if j == s.len() - 1 {
        assert(s.update(j, entry).drop_last() =~= s.drop_last());
        assert(s.update(j, entry).last() == entry);
        assert(map_of_entries(s.update(j, entry)) =~= map_of_entries(s).insert(entry.key, v));
    } else {
        let t = s.drop_last();
        assert(s.update(j, entry).drop_last() =~= t.update(j, entry));
        lemma_map_of_update(t, j, entry);
        assert(s.update(j, entry).last() == s.last());
        assert(s.last().key != entry.key);
        assert(map_of_entries(s.update(j, entry)) =~= map_of_entries(s).insert(entry.key, v));
    }
}

/// The map of a sequence with index `j` removed is the map without that
/// key, provided keys are unique.
proof fn lemma_map_of_remove(s: Seq<SpecEntry>, j: int)
    requires
        0 <= j < s.len(),
        forall|a: int, b: int| 0 <= a < b < s.len() ==> (#[trigger] s[a]).key != (#[trigger] s[b]).key,
    ensures
        map_of_entries(s.remove(j)) == map_of_entries(s).remove(s[j].key),
    decreases s.len(),
{
    if j == s.len() - 1 {
        assert(s.remove(j) =~= s.drop_last());
        lemma_map_of_entries_absent_general(s.drop_last(), s[j].key);
        assert(map_of_entries(s.remove(j)) =~= map_of_entries(s).remove(s[j].key));
    } else {
        let t = s.drop_last();
        assert(s.remove(j).drop_last() =~= t.remove(j));
        lemma_map_of_remove(t, j);
        assert(s.remove(j).last() == s.last());
        assert(s.last().key != s[j].key);
        assert(map_of_entries(s.remove(j)) =~= map_of_entries(s).remove(s[j].key));
    }
}

/// A key at index `j` of a unique-keyed sequence is bound in the map to
/// that entry's value.
proof fn lemma_map_of_entries_index(s: Seq<SpecEntry>, j: int)
    requires
        0 <= j < s.len(),
        forall|a: int, b: int| 0 <= a < b < s.len() ==> (#[trigger] s[a]).key != (#[trigger] s[b]).key,
    ensures
        map_of_entries(s).contains_key(s[j].key),
        map_of_entries(s)[s[j].key] == (SpecValue { data: s[j].data, expiry: s[j].expiry }),
    decreases s.len(),
{
    if j < s.len() - 1 {
        lemma_map_of_entries_index(s.drop_last(), j);
        assert(s.last().key != s[j].key);
    }
}

/// A key under which no entry stands is absent from the map.
proof fn lemma_map_of_entries_absent(s: Seq<SpecEntry>, key: Seq<char>)
    requires
        forall|i: int| 0 <= i < s.len() ==> (#[trigger] s[i]).key != key,
    ensures
        !map_of_entries(s).contains_key(key),
{
    lemma_map_of_entries_absent_general(s, key);
}

/// Helper for the absent case, by induction on the sequence.
pub proof fn lemma_map_of_entries_absent_general(s: Seq<SpecEntry>, key: Seq<char>)
    requires
        forall|i: int| 0 <= i < s.len() ==> (#[trigger] s[i]).key != key,
    ensures
        !map_of_entries(s).contains_key(key),
    decreases s.len(),
{
    if s.len() > 0 {
        lemma_map_of_entries_absent_general(s.drop_last(), key);
    }
}

/// A key inserted without expiry is returned by a lookup at any later
/// time: nothing ever expires it.
pub proof fn lemma_insert_without_expiry_always_found(
    m: Map<Seq<char>, SpecValue>,
    key: Seq<char>,
    value: Seq<char>,
    now_ms: u64,
)
    ensures
        spec_lookup(m.insert(key, SpecValue { data: value, expiry: None }), key, now_ms) == Some(
            value,
        ),
{
}

/// A key inserted at `t0_ms` with time-to-live `ttl_ms` is returned while
/// less than `ttl_ms` milliseconds have elapsed, and is absent from lookup
/// once `ttl_ms` or more have elapsed; once the expired entry has been
/// swept, the key is absent from the map itself, so any repeated lookup is
/// absent and no iteration of the store shows the key.
pub proof fn lemma_insert_with_expiry_lifetime(
    m: Map<Seq<char>, SpecValue>,
    key: Seq<char>,
    value: Seq<char>,
    t0_ms: u64,
    ttl_ms: u64,
    now_ms: u64,
)
    requires
        t0_ms + ttl_ms <= u64::MAX,
    ensures
        now_ms < t0_ms + ttl_ms ==> spec_lookup(
            m.insert(key, SpecValue { data: value, expiry: Some((t0_ms + ttl_ms) as u64) }),
            key,
            now_ms,
        ) == Some(value),
        now_ms >= t0_ms + ttl_ms ==> spec_lookup(
            m.insert(key, SpecValue { data: value, expiry: Some((t0_ms + ttl_ms) as u64) }),
            key,
            now_ms,
        ) is None,
        !m.insert(key, SpecValue { data: value, expiry: Some((t0_ms + ttl_ms) as u64) }).remove(
            key,
        ).contains_key(key),
        spec_lookup(
            m.insert(key, SpecValue { data: value, expiry: Some((t0_ms + ttl_ms) as u64) }).remove(
                key,
            ),
            key,
            now_ms,
        ) is None,
{
}

} // verus!
