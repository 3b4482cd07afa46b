//! The key-value store: entries that are written once and expire lazily.

use crate::bytes::same_bytes;
use vstd::prelude::*;

verus! {

/// A stored value with the time it was written and, where it has one, the
/// time it has to live. Times are in milliseconds.
#[derive(Debug, PartialEq, Eq)]
pub struct ValueProperties {
    pub value: Vec<u8>,
    pub created_at: u128,
    pub ttl_millis: Option<u128>,
}

/// The model of a stored value.
pub struct Entry {
    pub value: Seq<u8>,
    pub created_at: nat,
    pub ttl_millis: Option<nat>,
}

/// The milliseconds from `created_at` to `now`; zero where `now` is the
/// earlier of the two.
pub open spec fn elapsed(created_at: nat, now: nat) -> nat {
    if now >= created_at {
        (now - created_at) as nat
    } else {
        0
    }
}

impl Entry {
    /// Whether the entry counts as absent at the time `now`: it has a time
    /// to live, and at least that much time has passed since it was
    /// written.
    pub open spec fn expired_at(self, now: nat) -> bool {
        match self.ttl_millis {
            Some(ttl) => elapsed(self.created_at, now) >= ttl,
            None => false,
        }
    }
}

impl View for ValueProperties {
    type V = Entry;

    open spec fn view(&self) -> Entry {
        Entry {
            value: self.value@,
            created_at: self.created_at as nat,
            ttl_millis: match self.ttl_millis {
                Some(ttl) => Some(ttl as nat),
                None => None,
            },
        }
    }
}

/// The entry of a value written at `created_at` that lives for
/// `ttl_millis`, or for ever where that is `None`.
pub open spec fn entry_of(value: Seq<u8>, created_at: u128, ttl_millis: Option<u128>) -> Entry {
    Entry {
        value,
        created_at: created_at as nat,
        ttl_millis: match ttl_millis {
            Some(ttl) => Some(ttl as nat),
            None => None,
        },
    }
}

impl ValueProperties {
    /// A value written at `created_at` that lives for `ttl_millis`, or for
    /// ever where that is `None`.
    pub fn new(value: Vec<u8>, created_at: u128, ttl_millis: Option<u128>) -> (r: Self)
        ensures
            r.value == value,
            r.created_at == created_at,
            r.ttl_millis == ttl_millis,
            r@ == entry_of(value@, created_at, ttl_millis),
    {
        ValueProperties { value, created_at, ttl_millis }
    }

    /// Whether the value counts as absent at the time `now`.
    pub fn is_expired(&self, now: u128) -> (r: bool)
        ensures
            r == self@.expired_at(now as nat),
    {
        match self.ttl_millis {
            Some(ttl) => {
                let passed: u128 = if now >= self.created_at {
                    now - self.created_at
                } else {
                    0
                };
                passed >= ttl
            },
            None => false,
        }
    }
}

/// What a store holds after an attempt to write `entry` under `key`: the
/// entry is added where the key has none, and nothing changes where it has
/// one, expired or not.
pub open spec fn insert_if_absent(
    db: Map<Seq<u8>, Entry>,
    key: Seq<u8>,
    entry: Entry,
) -> Map<Seq<u8>, Entry> {
    if db.contains_key(key) {
        db
    } else {
        db.insert(key, entry)
    }
}

/// What a read of `key` at the time `now` gives: the bytes of its entry,
/// or `None` where the key has no entry or the entry has expired.
pub open spec fn lookup(db: Map<Seq<u8>, Entry>, key: Seq<u8>, now: nat) -> Option<Seq<u8>> {
    if db.contains_key(key) && !db[key].expired_at(now) {
        Some(db[key].value)
    } else {
        None
    }
}

/// A key with its stored value.
struct Slot {
    key: Vec<u8>,
    props: ValueProperties,
}

/// A map from keys to stored values. No key is held twice.
pub struct Store {
    slots: Vec<Slot>,
}

impl Store {
    /// Whether index `i` holds `key`.
    spec fn holds(self, i: int, key: Seq<u8>) -> bool {
        0 <= i < self.slots@.len() && self.slots@[i].key@ == key
    }

    /// Whether the store is as every operation leaves it: no key is held
    /// twice.
    pub closed spec fn well_formed(&self) -> bool {
        forall|i: int, j: int|
            0 <= i < j < self.slots@.len() ==> self.slots@[i].key@ != self.slots@[j].key@
    }

    /// The model of the store: the entry of each key that it holds.
    pub closed spec fn view(&self) -> Map<Seq<u8>, Entry> {
        Map::new(
            |key: Seq<u8>| exists|i: int| self.holds(i, key),
            |key: Seq<u8>| self.slots@[choose|i: int| self.holds(i, key)].props@,
        )
    }

    /// An empty store.
    pub fn new() -> (store: Store)
        ensures
            store.well_formed(),
            store@ == Map::<Seq<u8>, Entry>::empty(),
    {
        let store = Store { slots: Vec::new() };
        assert(store@ =~= Map::<Seq<u8>, Entry>::empty());
        store
    }

    /// The index that holds `key`, if one does.
    fn position(&self, key: &[u8]) -> (r: Option<usize>)
        ensures
            match r {
                Some(i) => self.holds(i as int, key@),
                None => forall|i: int| !self.holds(i, key@),
            },
    {
        let mut i: usize = 0;
        while i < self.slots.len()
            invariant
                i <= self.slots@.len(),
                forall|j: int| 0 <= j < i ==> !self.holds(j, key@),
            decreases self.slots@.len() - i,
        {
            if same_bytes(self.slots[i].key.as_slice(), key) {
                return Some(i);
            }
            i = i + 1;
        }
        None
    }

    /// The stored value of `key`, expired or not; `None` where the key has
    /// none. The store is left as it is.
    pub fn get(&self, key: &[u8]) -> (r: Option<&ValueProperties>)
        requires
            self.well_formed(),
        ensures
            match r {
                Some(props) => self@.contains_key(key@) && props@ == self@[key@],
                None => !self@.contains_key(key@),
            },
    {
        match self.position(key) {
            Some(i) => {
                proof {
                    let chosen = choose|j: int| self.holds(j, key@);
                    assert(self.holds(chosen, key@));
                    assert(chosen == i);
                }
                Some(&self.slots[i].props)
            },
            None => None,
        }
    }

    /// Writes `value` under `key`, as of the time `now`, where the key has
    /// no entry. Where it has one, expired or not, nothing changes.
    pub fn set_if_absent(&mut self, key: Vec<u8>, value: Vec<u8>, now: u128, ttl: Option<u128>)
        requires
            old(self).well_formed(),
        ensures
            final(self).well_formed(),
            final(self)@ == insert_if_absent(old(self)@, key@, entry_of(value@, now, ttl)),
    {
        match self.position(key.as_slice()) {
            Some(i) => {},
            None => {
                let ghost before = *self;
                let props = ValueProperties::new(value, now, ttl);
                self.slots.push(Slot { key, props });
                proof {
                    let after = *self;
                    let n = before.slots@.len() as int;
                    assert(after.slots@ =~= before.slots@.push(after.slots@[n]));
                    assert forall|i: int, j: int| 0 <= i < j < after.slots@.len() implies after.slots@[i].key@
                        != after.slots@[j].key@ by {
                        if j == n {
                            assert(!before.holds(i, key@));
                        } else {
                            assert(after.slots@[i] == before.slots@[i]);
                            assert(after.slots@[j] == before.slots@[j]);
                        }
                    }
                    assert(after.well_formed());
                    assert forall|k: Seq<u8>| #[trigger]
                        after@.contains_key(k) <==> before@.insert(key@, props@).contains_key(
                            k,
                        ) by {
                        if after@.contains_key(k) {
                            let i = choose|i: int| after.holds(i, k);
                            if i < n {
                                assert(before.holds(i, k));
                            }
                        }
                        if before@.contains_key(k) {
                            let i = choose|i: int| before.holds(i, k);
                            assert(after.holds(i, k));
                        }
                        if k == key@ {
                            assert(after.holds(n, k));
                        }
                    }
                    assert forall|k: Seq<u8>| #[trigger] after@.contains_key(k) implies after@[k]
                        == before@.insert(key@, props@)[k] by {
                        let i = choose|i: int| after.holds(i, k);
                        assert(after.holds(i, k));
                        if k == key@ {
                            assert(after.holds(n, k));
                            assert(i == n);
                        } else {
                            assert(before.holds(i, k));
                            let j = choose|j: int| before.holds(j, k);
                            assert(before.holds(j, k));
                            assert(after.holds(j, k));
                            assert(i == j);
                        }
                    }
                    assert(after@ =~= before@.insert(key@, props@));
                }
            },
        }
    }
}

} // verus!
