//! The TTL-aware key-value store. Entries live in a vector with unique
//! keys; the model is a map from key bytes to payload and optional
//! absolute expiry tick. Time enters only as an argument, so every fact
//! about expiry is proved for every clock reading. Callers that share the
//! store across connections serialize access around it; each operation
//! here is one atomic step of that serialization.
use vstd::prelude::*;

use crate::resp::slices_eq;

verus! {

/// A stored payload with its optional absolute expiry tick.
pub struct ExpiryValue {
    /// The payload handed back by a hit.
    pub value: Vec<u8>,
    /// The tick at which the entry lapses, if it ever does. An entry is
    /// expired once the clock is at or past this tick.
    pub expires_at: Option<u64>,
}

/// The model of an [`ExpiryValue`].
#[verifier::ext_equal]
pub struct EntryModel {
    pub value: Seq<u8>,
    pub expires_at: Option<u64>,
}

impl ExpiryValue {
    /// The model of this entry.
    pub open spec fn view(self) -> EntryModel {
        EntryModel { value: self.value@, expires_at: self.expires_at }
    }
}

/// When the store is told `ttl`, the entry lapses at `now + ttl`,
/// saturating at the end of representable time.
pub open spec fn spec_expiry(now: u64, ttl: Option<u64>) -> Option<u64> {
    match ttl {
        None => None,
        Some(t) => if now + t > u64::MAX {
            Some(u64::MAX)
        } else {
            Some((now + t) as u64)
        },
    }
}

/// An entry is expired at `now` when its expiry tick is at or before now.
pub open spec fn spec_expired(e: EntryModel, now: u64) -> bool {
    e.expires_at matches Some(t) && t <= now
}

/// What `set` does to the store's contents.
pub open spec fn spec_set(
    m: Map<Seq<u8>, EntryModel>,
    key: Seq<u8>,
    value: Seq<u8>,
    ttl: Option<u64>,
    now: u64,
) -> Map<Seq<u8>, EntryModel> {
    m.insert(key, EntryModel { value, expires_at: spec_expiry(now, ttl) })
}

/// What `get` returns: the payload of a live entry, absence otherwise.
pub open spec fn spec_get_result(
    m: Map<Seq<u8>, EntryModel>,
    key: Seq<u8>,
    now: u64,
) -> Option<Seq<u8>> {
    if m.contains_key(key) && !spec_expired(m[key], now) {
        Some(m[key].value)
    } else {
        None
    }
}

/// What `get` does to the contents: an expired entry it touches is purged;
/// nothing else changes.
pub open spec fn spec_get_state(
    m: Map<Seq<u8>, EntryModel>,
    key: Seq<u8>,
    now: u64,
) -> Map<Seq<u8>, EntryModel> {
    if m.contains_key(key) && spec_expired(m[key], now) {
        m.remove(key)
    } else {
        m
    }
}

/// The map an entry list denotes: later entries shadow earlier ones,
/// though a well-formed store never holds a key twice.
pub open spec fn map_of(entries: Seq<(Vec<u8>, ExpiryValue)>) -> Map<Seq<u8>, EntryModel>
    decreases entries.len(),
{
    if entries.len() == 0 {
        Map::empty()
    } else {
        map_of(entries.drop_last()).insert(entries.last().0@, entries.last().1@)
    }
}

/// No key occurs twice.
pub open spec fn unique_keys(entries: Seq<(Vec<u8>, ExpiryValue)>) -> bool {
    forall|i: int, j: int|
        0 <= i < j < entries.len() ==> #[trigger] entries[i].0@ != #[trigger] entries[j].0@
}

proof fn lemma_map_of_index(entries: Seq<(Vec<u8>, ExpiryValue)>, i: int)
    requires
        unique_keys(entries),
        0 <= i < entries.len(),
    ensures
        map_of(entries).contains_key(entries[i].0@),
        map_of(entries)[entries[i].0@] == entries[i].1@,
    decreases entries.len(),
{
    if i < entries.len() - 1 {
        assert(entries.drop_last()[i] == entries[i]);
        lemma_map_of_index(entries.drop_last(), i);
    }
}

proof fn lemma_map_of_absent(entries: Seq<(Vec<u8>, ExpiryValue)>, key: Seq<u8>)
    requires
        forall|i: int| 0 <= i < entries.len() ==> (#[trigger] entries[i].0@) != key,
    ensures
        !map_of(entries).contains_key(key),
    decreases entries.len(),
{
    if entries.len() > 0 {
        assert forall|i: int| 0 <= i < entries.len() - 1 implies (#[trigger] entries.drop_last(
        )[i].0@) != key by {
            assert(entries.drop_last()[i] == entries[i]);
        }
        lemma_map_of_absent(entries.drop_last(), key);
    }
}

proof fn lemma_map_of_remove(entries: Seq<(Vec<u8>, ExpiryValue)>, i: int)
    requires
        unique_keys(entries),
        0 <= i < entries.len(),
    ensures
        map_of(entries.remove(i)) == map_of(entries).remove(entries[i].0@),
    decreases entries.len(),
{
    let k = entries[i].0@;
    if i == entries.len() - 1 {
        assert(entries.remove(i) =~= entries.drop_last());
        assert forall|j: int| 0 <= j < entries.drop_last().len() implies (
        #[trigger] entries.drop_last()[j].0@) != k by {
            assert(entries.drop_last()[j] == entries[j]);
        }
        lemma_map_of_absent(entries.drop_last(), k);
        assert(map_of(entries.drop_last()) =~= map_of(entries.drop_last()).insert(
            k,
            entries[i].1@,
        ).remove(k));
    } else {
        let shorter = entries.drop_last();
        assert(shorter[i] == entries[i]);
        lemma_map_of_remove(shorter, i);
        assert(entries.remove(i).drop_last() =~= shorter.remove(i));
        assert(entries.remove(i).last() == entries.last());
        assert(map_of(entries.remove(i)) == map_of(shorter.remove(i)).insert(
            entries.last().0@,
            entries.last().1@,
        ));
        assert(entries.last().0@ != k);
        assert(map_of(shorter).remove(k).insert(entries.last().0@, entries.last().1@)
            =~= map_of(shorter).insert(entries.last().0@, entries.last().1@).remove(k));
    }
}

proof fn lemma_map_of_len(entries: Seq<(Vec<u8>, ExpiryValue)>)
    requires
        unique_keys(entries),
    ensures
        map_of(entries).dom().finite(),
        map_of(entries).len() == entries.len(),
    decreases entries.len(),
{
    if entries.len() > 0 {
        lemma_map_of_len(entries.drop_last());
        assert forall|j: int| 0 <= j < entries.drop_last().len() implies (
        #[trigger] entries.drop_last()[j].0@) != entries.last().0@ by {
            assert(entries.drop_last()[j] == entries[j]);
        }
        lemma_map_of_absent(entries.drop_last(), entries.last().0@);
    } else {
        assert(map_of(entries).dom() =~= Set::<Seq<u8>>::empty());
    }
}

/// The shared key-value store: a mapping from key bytes to payload and
/// optional expiry, mutated only through `set` and `get`.
pub struct ServerState {
    entries: Vec<(Vec<u8>, ExpiryValue)>,
}

impl ServerState {
    /// The store holds each key at most once.
    pub closed spec fn wf(self) -> bool {
        unique_keys(self.entries@)
    }

    /// The mathematical contents of the store.
    pub closed spec fn contents(self) -> Map<Seq<u8>, EntryModel> {
        map_of(self.entries@)
    }

    /// An empty store.
    pub fn new() -> (r: ServerState)
        ensures
            r.wf(),
            r.contents() == Map::<Seq<u8>, EntryModel>::empty(),
    {
        ServerState { entries: Vec::new() }
    }

    /// The index holding `key`, if any.
    fn find_index(&self, key: &[u8]) -> (r: Option<usize>)
        ensures
            match r {
                Some(i) => i < self.entries@.len() && self.entries@[i as int].0@ == key@,
                None => forall|i: int|
                    0 <= i < self.entries@.len() ==> (#[trigger] self.entries@[i].0@) != key@,
            },
    {
        let n = self.entries.len();
        let mut i: usize = 0;
        while i < n
            invariant
                0 <= i <= n == self.entries@.len(),
                forall|j: int| 0 <= j < i ==> (#[trigger] self.entries@[j].0@) != key@,
            decreases n - i,
        {
            if slices_eq(self.entries[i].0.as_slice(), key) {
                return Some(i);
            }
            i = i + 1;
        }
        None
    }

    /// Removes `key` if present, leaving the contents without it.
    fn remove_key(&mut self, key: &[u8])
        requires
            old(self).wf(),
        ensures
            final(self).wf(),
            final(self).contents() == old(self).contents().remove(key@),
            forall|i: int|
                0 <= i < final(self).entries@.len() ==> (#[trigger] final(self).entries@[i].0@)
                    != key@,
    {
        match self.find_index(key) {
            None => {
                proof {
                    lemma_map_of_absent(self.entries@, key@);
                    assert(map_of(self.entries@).remove(key@) =~= map_of(self.entries@));
                }
            },
            Some(i) => {
                proof {
                    lemma_map_of_remove(self.entries@, i as int);
                }
                let ghost before = self.entries@;
                self.entries.remove(i);
                proof {
                    assert(self.entries@ =~= before.remove(i as int));
                    assert forall|a: int, b: int|
                        0 <= a < b < self.entries@.len() implies (#[trigger] self.entries@[a].0@)
                        != (#[trigger] self.entries@[b].0@) by {
                        if a < i as int {
                            assert(self.entries@[a] == before[a]);
                        } else {
                            assert(self.entries@[a] == before[a + 1]);
                        }
                        if b < i as int {
                            assert(self.entries@[b] == before[b]);
                        } else {
                            assert(self.entries@[b] == before[b + 1]);
                        }
                    }
                    assert forall|a: int|
                        0 <= a < self.entries@.len() implies (#[trigger] self.entries@[a].0@)
                        != key@ by {
                        if a < i as int {
                            assert(self.entries@[a] == before[a]);
                        } else {
                            assert(self.entries@[a] == before[a + 1]);
                        }
                    }
                }
            },
        }
    }

    /// Inserts or overwrites `key`. With a time to live, the entry lapses
    /// `ttl` ticks after `now` (saturating); without one it never does.
    /// Always succeeds.
    pub fn set(&mut self, key: Vec<u8>, value: Vec<u8>, ttl: Option<u64>, now: u64)
        requires
            old(self).wf(),
        ensures
            final(self).wf(),
            final(self).contents() == spec_set(old(self).contents(), key@, value@, ttl, now),
    {
        self.remove_key(key.as_slice());
        let expires_at = match ttl {
            None => None,
            Some(t) => match now.checked_add(t) {
                Some(at) => Some(at),
                None => Some(u64::MAX),
            },
        };
        let entry = ExpiryValue { value, expires_at };
        proof {
            assert(entry@ == EntryModel { value: entry.value@, expires_at: spec_expiry(now, ttl) });
        }
        let ghost before = self.entries@;
        self.entries.push((key, entry));
        proof {
            assert(self.entries@.drop_last() =~= before);
            assert(map_of(self.entries@) == map_of(before).insert(
                self.entries@.last().0@,
                self.entries@.last().1@,
            ));
            assert(old(self).contents().remove(key@).insert(key@, entry@) =~= old(
                self,
            ).contents().insert(key@, entry@));
            assert forall|a: int, b: int|
                0 <= a < b < self.entries@.len() implies (#[trigger] self.entries@[a].0@) != (
            #[trigger] self.entries@[b].0@) by {
                if b < self.entries@.len() - 1 {
                    assert(self.entries@[a] == before[a]);
                    assert(self.entries@[b] == before[b]);
                } else {
                    assert(self.entries@[a] == before[a]);
                    assert(before[a].0@ != key@);
                }
            }
        }
    }

    /// Looks `key` up at time `now`. A live entry answers with a copy of
    /// its payload. An expired entry is removed and answers absence, as
    /// does a key never set: expiry is lazy, so a lookup may shrink the
    /// store.
    pub fn get(&mut self, key: &[u8], now: u64) -> (r: Option<Vec<u8>>)
        requires
            old(self).wf(),
        ensures
            final(self).wf(),
            final(self).contents() == spec_get_state(old(self).contents(), key@, now),
            match r {
                Some(v) => spec_get_result(old(self).contents(), key@, now) == Some(v@),
                None => spec_get_result(old(self).contents(), key@, now) is None,
            },
    {
        match self.find_index(key) {
            None => {
                proof {
                    lemma_map_of_absent(self.entries@, key@);
                }
                None
            },
            Some(i) => {
                proof {
                    lemma_map_of_index(self.entries@, i as int);
                }
                let expired = match self.entries[i].1.expires_at {
                    Some(at) => at <= now,
                    None => false,
                };
                if expired {
                    self.remove_key(key);
                    None
                } else {
                    let payload = vstd::slice::slice_to_vec(self.entries[i].1.value.as_slice());
                    Some(payload)
                }
            },
        }
    }

    /// How many entries the store holds, expired ones included: lazy
    /// expiry means a lookup can shrink this.
    pub fn len(&self) -> (r: usize)
        requires
            self.wf(),
        ensures
            r == self.contents().len(),
    {
        proof {
            lemma_map_of_len(self.entries@);
        }
        self.entries.len()
    }

    /// Whether `key` is present at all, expired or not: the raw key set,
    /// for inspecting the effect of lazy expiry.
    pub fn contains_key(&self, key: &[u8]) -> (r: bool)
        requires
            self.wf(),
        ensures
            r == self.contents().contains_key(key@),
    {
        match self.find_index(key) {
            Some(i) => {
                proof {
                    lemma_map_of_index(self.entries@, i as int);
                }
                true
            },
            None => {
                proof {
                    lemma_map_of_absent(self.entries@, key@);
                }
                false
            },
        }
    }
}

/// After two writes to one key — in whichever order the store's mutual
/// exclusion serialized them — a lookup sees the later write's whole
/// payload or, if that entry has lapsed, nothing: never the earlier
/// payload and never a blend of the two.
pub proof fn lemma_last_set_wins(
    m: Map<Seq<u8>, EntryModel>,
    key: Seq<u8>,
    v1: Seq<u8>,
    ttl1: Option<u64>,
    now1: u64,
    v2: Seq<u8>,
    ttl2: Option<u64>,
    now2: u64,
    now: u64,
)
    ensures
        ({
            let m2 = spec_set(spec_set(m, key, v1, ttl1, now1), key, v2, ttl2, now2);
            &&& (spec_get_result(m2, key, now) == Some(v2) || spec_get_result(m2, key, now)
                is None)
            &&& (ttl2 is None ==> spec_get_result(m2, key, now) == Some(v2))
            &&& (v1 != v2 ==> spec_get_result(m2, key, now) != Some(v1))
        }),
{
}

/// An entry set with a time to live of zero is expired at every tick from
/// its write onward; one set with no time to live answers every later
/// lookup with its payload.
pub proof fn lemma_expiry(
    m: Map<Seq<u8>, EntryModel>,
    key: Seq<u8>,
    v: Seq<u8>,
    now: u64,
    later: u64,
)
    requires
        now <= later,
    ensures
        spec_get_result(spec_set(m, key, v, Some(0), now), key, later) is None,
        spec_get_result(spec_set(m, key, v, None, now), key, later) == Some(v),
{
}

/// Once a lookup has answered absence for an expired key, the entry is
/// gone: the key set of the store no longer holds it.
pub proof fn lemma_expired_get_purges(m: Map<Seq<u8>, EntryModel>, key: Seq<u8>, now: u64)
    requires
        spec_get_result(m, key, now) is None,
    ensures
        !spec_get_state(m, key, now).contains_key(key),
{
}

} // verus!
