//! A time-bounded key/value cache of session entries.
//!
//! Times are milliseconds since the cache was made. Every operation but a
//! lookup of a missing key counts towards a periodic sweep that drops the
//! expired entries; a lookup that finds an expired entry sweeps at once.

use std::time::Instant;
use vstd::pervasive::cloned;
use vstd::prelude::*;

verus! {

/// Operations between two sweeps of expired entries.
pub const MAX_OPS_BEFORE_PRUNE: u8 = 16;

#[verifier::external_type_specification]
#[verifier::external_body]
pub struct ExInstant(Instant);

/// Relies on `Instant::now`.
#[verifier::external_body]
fn clock_origin() -> (r: Instant) {
    Instant::now()
}

/// Relies on `Instant::elapsed`, read in whole milliseconds.
#[verifier::external_body]
fn millis_since(origin: &Instant) -> (r: u64) {
    origin.elapsed().as_millis() as u64
}

pub struct TtlEntry<T> {
    pub key: String,
    pub value: T,
    pub created: u64,
}

pub struct TtlCache<T> {
    expiry: u64,
    entries: Vec<TtlEntry<T>>,
    elapsed_ops: u8,
    origin: Instant,
}

/// `a - b`, or zero where `b` is later.
pub open spec fn since(now: u64, then: u64) -> nat {
    if now >= then {
        (now - then) as nat
    } else {
        0
    }
}

/// An entry survives a sweep at `now` while it is younger than `expiry`.
pub open spec fn fresh<T>(e: (Seq<char>, T, u64), now: u64, expiry: u64) -> bool {
    since(now, e.2) < expiry
}

pub open spec fn pruned<T>(s: Seq<(Seq<char>, T, u64)>, now: u64, expiry: u64) -> Seq<
    (Seq<char>, T, u64),
> {
    s.filter(|e: (Seq<char>, T, u64)| fresh(e, now, expiry))
}

pub open spec fn keys_unique<T>(s: Seq<(Seq<char>, T, u64)>) -> bool {
    forall|i: int, j: int| 0 <= i < s.len() && 0 <= j < s.len() && i != j ==> s[i].0 != s[j].0
}

pub open spec fn has_key<T>(s: Seq<(Seq<char>, T, u64)>, key: Seq<char>) -> bool {
    exists|i: int| 0 <= i < s.len() && s[i].0 == key
}

/// The position of `key`, where it is present.
pub open spec fn key_index<T>(s: Seq<(Seq<char>, T, u64)>, key: Seq<char>) -> int {
    choose|i: int| 0 <= i < s.len() && s[i].0 == key
}

/// The entries after `key` is bound to `value`, made at `now`.
pub open spec fn upserted<T>(s: Seq<(Seq<char>, T, u64)>, key: Seq<char>, value: T, now: u64) -> Seq<
    (Seq<char>, T, u64),
> {
    if has_key(s, key) {
        s.update(key_index(s, key), (key, value, now))
    } else {
        s.push((key, value, now))
    }
}

/// The entries without `key`.
pub open spec fn without<T>(s: Seq<(Seq<char>, T, u64)>, key: Seq<char>) -> Seq<
    (Seq<char>, T, u64),
> {
    if has_key(s, key) {
        s.remove(key_index(s, key))
    } else {
        s
    }
}

/// Entries and operation count after one more operation at `now`: a sweep
/// happens when forced or when the count reaches its bound.
pub open spec fn settled<T>(
    s: Seq<(Seq<char>, T, u64)>,
    ops: u8,
    force: bool,
    now: u64,
    expiry: u64,
) -> (Seq<(Seq<char>, T, u64)>, u8) {
    if force || ops + 1 >= MAX_OPS_BEFORE_PRUNE {
        (pruned(s, now, expiry), 0)
    } else {
        (s, (ops + 1) as u8)
    }
}

/// What a lookup of `key` at `now` gives, from entries `s` and operation
/// count `ops` to `result`, entries `s2` and count `ops2`: a missing key
/// gives `None` and changes nothing; an entry older than `expiry` gives
/// `None` and forces a sweep; a live entry gives a clone of its value and
/// when it was made, and counts one operation.
pub open spec fn lookup_outcome<T: Clone>(
    s: Seq<(Seq<char>, T, u64)>,
    ops: u8,
    expiry: u64,
    key: Seq<char>,
    now: u64,
    result: Option<(T, u64)>,
    s2: Seq<(Seq<char>, T, u64)>,
    ops2: u8,
) -> bool {
    if !has_key(s, key) {
        result is None && s2 == s && ops2 == ops
    } else {
        let e = s[key_index(s, key)];
        let expired = since(now, e.2) > expiry;
        &&& (s2, ops2) == settled(s, ops, expired, now, expiry)
        &&& expired ==> result is None
        &&& !expired ==> (result matches Some((v, t)) && t == e.2 && cloned(e.1, v))
    }
}

/// The value of a lookup result, without its time.
pub open spec fn value_of<T>(result: Option<(T, u64)>) -> Option<T> {
    match result {
        Some((v, _)) => Some(v),
        None => None,
    }
}

impl<T> View for TtlCache<T> {
    type V = Seq<(Seq<char>, T, u64)>;

    closed spec fn view(&self) -> Seq<(Seq<char>, T, u64)> {
        self.entries@.map_values(|e: TtlEntry<T>| (e.key@, e.value, e.created))
    }
}

proof fn lemma_pruned_keeps_unique<T>(s: Seq<(Seq<char>, T, u64)>, now: u64, expiry: u64)
    requires
        keys_unique(s),
    ensures
        keys_unique(pruned(s, now, expiry)),
        forall|k: Seq<char>| #[trigger] has_key(pruned(s, now, expiry), k) ==> has_key(s, k),
    decreases s.len(),
{
    reveal_with_fuel(Seq::filter, 1);
    if s.len() > 0 {
        let init = s.drop_last();
        let x = s.last();
        assert(keys_unique(init));
        lemma_pruned_keeps_unique(init, now, expiry);
        let p = pruned(init, now, expiry);
        if fresh(x, now, expiry) {
            let q = p.push(x);
            assert(pruned(s, now, expiry) == q);
            assert(!has_key(init, x.0)) by {
                if has_key(init, x.0) {
                    let m = choose|m: int| 0 <= m < init.len() && init[m].0 == x.0;
                    assert(init[m] == s[m]);
                    assert(s[m].0 == s[s.len() - 1].0);
                }
            }
            assert forall|i: int, j: int|
                0 <= i < q.len() && 0 <= j < q.len() && i != j implies q[i].0 != q[j].0 by {
                if i == p.len() && q[j].0 == x.0 {
                    assert(p[j].0 == x.0);
                    assert(has_key(p, x.0));
                }
                if j == p.len() && q[i].0 == x.0 {
                    assert(p[i].0 == x.0);
                    assert(has_key(p, x.0));
                }
            }
            assert forall|k: Seq<char>| has_key(q, k) implies has_key(s, k) by {
                let i = choose|i: int| 0 <= i < q.len() && q[i].0 == k;
                if i == p.len() {
                    assert(s[s.len() - 1].0 == k);
                } else {
                    assert(p[i].0 == k);
                    assert(has_key(p, k));
                    let j = choose|j: int| 0 <= j < init.len() && init[j].0 == k;
                    assert(init[j] == s[j]);
                    assert(s[j].0 == k);
                }
            }
        } else {
            assert(pruned(s, now, expiry) == p);
            assert forall|k: Seq<char>| has_key(p, k) implies has_key(s, k) by {
                assert(has_key(init, k));
                let j = choose|j: int| 0 <= j < init.len() && init[j].0 == k;
                assert(init[j] == s[j]);
                assert(s[j].0 == k);
            }
        }
    } else {
        assert(pruned(s, now, expiry) =~= s);
    }
}

impl<T: Clone> TtlCache<T> {
    /// The cache's invariant: one entry per key, and the operation count
    /// below the sweep bound.
    pub closed spec fn wf(&self) -> bool {
        &&& keys_unique(self@)
        &&& self.elapsed_ops < MAX_OPS_BEFORE_PRUNE
    }

    pub closed spec fn expiry_spec(&self) -> u64 {
        self.expiry
    }

    pub closed spec fn ops_spec(&self) -> u8 {
        self.elapsed_ops
    }

    /// An empty cache whose entries live for `expiry` milliseconds.
    pub fn new(expiry: u64) -> (r: Self)
        ensures
            r.wf(),
            r@ == Seq::<(Seq<char>, T, u64)>::empty(),
            r.expiry_spec() == expiry,
            r.ops_spec() == 0,
    {
        let r = TtlCache { expiry, entries: Vec::new(), elapsed_ops: 0, origin: clock_origin() };
        assert(r@ =~= Seq::<(Seq<char>, T, u64)>::empty());
        r
    }

    /// How long entries live, in milliseconds.
    pub fn get_expiry(&self) -> (r: u64)
        ensures
            r == self.expiry_spec(),
    {
        self.expiry
    }

    /// The current time, in milliseconds since the cache was made.
    pub fn now(&self) -> u64 {
        millis_since(&self.origin)
    }

    fn position(&self, key: &String) -> (r: Option<usize>)
        requires
            self.wf(),
        ensures
            match r {
                Some(i) => has_key(self@, key@) && i == key_index(self@, key@) && i
                    < self@.len(),
                None => !has_key(self@, key@),
            },
    {
        let mut i: usize = 0;
        while i < self.entries.len()
            invariant
                i <= self.entries@.len(),
                self.wf(),
                forall|j: int| 0 <= j < i ==> self@[j].0 != key@,
            decreases self.entries.len() - i,
        {
            if self.entries[i].key == *key {
                proof {
                    assert(self@[i as int].0 == key@);
                    let k = key_index(self@, key@);
                    assert(self@[k].0 == key@);
                }
                return Some(i);
            }
            i = i + 1;
        }
        None
    }

    /// Counts one operation at `now`, and sweeps out expired entries when
    /// forced or when the count reaches its bound.
    fn prune_old_entries(&mut self, force: bool, now: u64)
        requires
            old(self).wf(),
        ensures
            final(self).wf(),
            (final(self)@, final(self).ops_spec()) == settled(
                old(self)@,
                old(self).ops_spec(),
                force,
                now,
                old(self).expiry,
            ),
            final(self).expiry == old(self).expiry,
    {
        if force || self.elapsed_ops + 1 >= MAX_OPS_BEFORE_PRUNE {
            let ghost orig = self@;
            let mut rest: Vec<TtlEntry<T>> = Vec::new();
            std::mem::swap(&mut rest, &mut self.entries);
            assert(rest@.map_values(|e: TtlEntry<T>| (e.key@, e.value, e.created)) == orig);
            let mut kept: Vec<TtlEntry<T>> = Vec::new();
            let ghost mut k: int = 0;
            let ghost expiry = self.expiry;
            proof {
                reveal_with_fuel(Seq::filter, 1);
                assert(orig.take(0) =~= Seq::<(Seq<char>, T, u64)>::empty());
                assert(pruned(orig.take(0), now, expiry) =~= Seq::<(Seq<char>, T, u64)>::empty());
                assert(kept@.map_values(|e: TtlEntry<T>| (e.key@, e.value, e.created)) =~= Seq::<(Seq<char>, T, u64)>::empty());
            }
            while rest.len() > 0
                invariant
                    0 <= k <= orig.len(),
                    rest@.map_values(|e: TtlEntry<T>| (e.key@, e.value, e.created)) == orig.skip(k),
                    kept@.map_values(|e: TtlEntry<T>| (e.key@, e.value, e.created)) == pruned(
                        orig.take(k),
                        now,
                        expiry,
                    ),
                    self.expiry == expiry,
                decreases rest.len(),
            {
                let ghost before = rest@;
                assert(before.map_values(|e: TtlEntry<T>| (e.key@, e.value, e.created)).len() == before.len());
                assert(k < orig.len());
                let e = rest.remove(0);
                let ghost ev = (e.key@, e.value, e.created);
                proof {
                    assert(before.map_values(|e: TtlEntry<T>| (e.key@, e.value, e.created))[0] == ev);
                    assert(orig.skip(k)[0] == orig[k]);
                    let bm = before.map_values(|e: TtlEntry<T>| (e.key@, e.value, e.created));
                    let rm = rest@.map_values(|e: TtlEntry<T>| (e.key@, e.value, e.created));
                    assert(rest@ == before.remove(0));
                    assert forall|j: int| 0 <= j < rm.len() implies rm[j] == orig.skip(k + 1)[j] by {
                        assert(rest@[j] == before[j + 1]);
                        assert(rm[j] == bm[j + 1]);
                        assert(bm[j + 1] == orig.skip(k)[j + 1]);
                    }
                    assert(rm =~= orig.skip(k + 1));
                    assert(orig.take(k + 1).drop_last() =~= orig.take(k));
                    assert(orig.take(k + 1).last() == ev);
                    reveal_with_fuel(Seq::filter, 1);
                }
                let age: u64 = if now >= e.created { now - e.created } else { 0 };
                if age < self.expiry {
                    let ghost kb = kept@;
                    kept.push(e);
                    assert(kept@.map_values(|e: TtlEntry<T>| (e.key@, e.value, e.created)) =~= kb.map_values(|e: TtlEntry<T>| (e.key@, e.value, e.created)).push(ev));
                }
                proof {
                    k = k + 1;
                }
            }
            proof {
                assert(orig.take(k) =~= orig) by {
                    assert(orig.skip(k).len() == 0);
                }
                lemma_pruned_keeps_unique(orig, now, expiry);
            }
            self.entries = kept;
            self.elapsed_ops = 0;
        } else {
            self.elapsed_ops = self.elapsed_ops + 1;
        }
    }

    /// `insert` at a given time.
    pub fn insert_at(&mut self, key: &str, value: T, now: u64)
        requires
            old(self).wf(),
        ensures
            final(self).wf(),
            final(self).expiry_spec() == old(self).expiry_spec(),
            (final(self)@, final(self).ops_spec()) == settled(
                upserted(old(self)@, key@, value, now),
                old(self).ops_spec(),
                false,
                now,
                old(self).expiry_spec(),
            ),
    {
        let owned = key.to_owned();
        let ghost s = self@;
        let entry = TtlEntry { key: owned, value, created: now };
        match self.position(&entry.key) {
            Some(i) => {
                self.entries.set(i, entry);
                proof {
                    assert(self@ =~= upserted(s, key@, value, now));
                    assert forall|a: int, b: int|
                        0 <= a < self@.len() && 0 <= b < self@.len() && a != b implies self@[a].0
                        != self@[b].0 by {
                        if a != i && b != i {
                            assert(s[a].0 != s[b].0);
                        } else if a == i {
                            assert(s[a].0 == key@);
                            assert(s[a].0 != s[b].0);
                        } else {
                            assert(s[b].0 == key@);
                            assert(s[a].0 != s[b].0);
                        }
                    }
                }
            },
            None => {
                self.entries.push(entry);
                proof {
                    assert(self@ =~= upserted(s, key@, value, now));
                    assert forall|a: int, b: int|
                        0 <= a < self@.len() && 0 <= b < self@.len() && a != b implies self@[a].0
                        != self@[b].0 by {
                        if a == s.len() {
                            assert(s[b].0 != key@);
                        } else if b == s.len() {
                            assert(s[a].0 != key@);
                        } else {
                            assert(s[a].0 != s[b].0);
                        }
                    }
                }
            },
        }
        self.prune_old_entries(false, now);
    }

    /// Binds `key` to `value`, made now.
    pub fn insert(&mut self, key: &str, value: T)
        requires
            old(self).wf(),
        ensures
            final(self).wf(),
            final(self).expiry_spec() == old(self).expiry_spec(),
            exists|now: u64|
                (final(self)@, final(self).ops_spec()) == settled(
                    upserted(old(self)@, key@, value, now),
                    old(self).ops_spec(),
                    false,
                    now,
                    old(self).expiry_spec(),
                ),
    {
        let now = self.now();
        self.insert_at(key, value, now);
    }

    /// `get_with_time` at a given time.
    pub fn get_with_time_at(&mut self, key: &str, now: u64) -> (r: Option<(T, u64)>)
        requires
            old(self).wf(),
        ensures
            final(self).wf(),
            final(self).expiry_spec() == old(self).expiry_spec(),
            lookup_outcome(
                old(self)@,
                old(self).ops_spec(),
                old(self).expiry_spec(),
                key@,
                now,
                r,
                final(self)@,
                final(self).ops_spec(),
            ),
    {
        let owned = key.to_owned();
        match self.position(&owned) {
            None => None,
            Some(i) => {
                let created = self.entries[i].created;
                let age: u64 = if now >= created { now - created } else { 0 };
                if age > self.expiry {
                    self.prune_old_entries(true, now);
                    None
                } else {
                    let value = self.entries[i].value.clone();
                    self.prune_old_entries(false, now);
                    Some((value, created))
                }
            },
        }
    }

    /// The value bound to `key` and when it was made, unless it is missing or
    /// has expired.
    pub fn get_with_time(&mut self, key: &str) -> (r: Option<(T, u64)>)
        requires
            old(self).wf(),
        ensures
            final(self).wf(),
            final(self).expiry_spec() == old(self).expiry_spec(),
            exists|now: u64|
                lookup_outcome(
                    old(self)@,
                    old(self).ops_spec(),
                    old(self).expiry_spec(),
                    key@,
                    now,
                    r,
                    final(self)@,
                    final(self).ops_spec(),
                ),
    {
        let now = self.now();
        self.get_with_time_at(key, now)
    }

    /// The value bound to `key`, unless it is missing or has expired.
    pub fn get(&mut self, key: &str) -> (r: Option<T>)
        requires
            old(self).wf(),
        ensures
            final(self).wf(),
            final(self).expiry_spec() == old(self).expiry_spec(),
            exists|now: u64, full: Option<(T, u64)>|
                lookup_outcome(
                    old(self)@,
                    old(self).ops_spec(),
                    old(self).expiry_spec(),
                    key@,
                    now,
                    full,
                    final(self)@,
                    final(self).ops_spec(),
                ) && r == value_of(full),
    {
        let now = self.now();
        let full = self.get_with_time_at(key, now);
        match full {
            Some((value, _)) => Some(value),
            None => None,
        }
    }

    /// `remove` at a given time.
    pub fn remove_at(&mut self, key: &str, now: u64)
        requires
            old(self).wf(),
        ensures
            final(self).wf(),
            final(self).expiry_spec() == old(self).expiry_spec(),
            (final(self)@, final(self).ops_spec()) == settled(
                without(old(self)@, key@),
                old(self).ops_spec(),
                false,
                now,
                old(self).expiry_spec(),
            ),
    {
        let owned = key.to_owned();
        let ghost s = self@;
        match self.position(&owned) {
            Some(i) => {
                self.entries.remove(i);
                proof {
                    assert(self@ =~= without(s, key@));
                    assert forall|a: int, b: int|
                        0 <= a < self@.len() && 0 <= b < self@.len() && a != b implies self@[a].0
                        != self@[b].0 by {
                        let a2 = if a < i { a } else { a + 1 };
                        let b2 = if b < i { b } else { b + 1 };
                        assert(s[a2].0 != s[b2].0);
                    }
                }
            },
            None => {},
        }
        self.prune_old_entries(false, now);
    }

    /// Drops the entry bound to `key`, if any.
    pub fn remove(&mut self, key: &str)
        requires
            old(self).wf(),
        ensures
            final(self).wf(),
            final(self).expiry_spec() == old(self).expiry_spec(),
            exists|now: u64|
                (final(self)@, final(self).ops_spec()) == settled(
                    without(old(self)@, key@),
                    old(self).ops_spec(),
                    false,
                    now,
                    old(self).expiry_spec(),
                ),
    {
        let now = self.now();
        self.remove_at(key, now);
    }
}

} // verus!
