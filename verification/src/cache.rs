//! A fixed-capacity key/value cache with arbitrary eviction.
//!
//! `Cache` keeps at most `capacity` entries. Inserting a fresh key into
//! a full cache first removes one arbitrary existing entry; inserting a
//! key that is already present overwrites its value in place and never
//! evicts. A cache built with capacity zero stores nothing: an insert
//! into it is an immediate eviction of the entry being inserted, so the
//! cache stays empty and the insert returns `None`.
//!
//! The abstract state of a cache is a `Map<Seq<char>, T>` from key
//! characters to values, reached through the `View` of the type.

use vstd::prelude::*;

verus! {

/// The map stored by a sequence of key/value entries: later entries
/// win, though the cache keeps keys unique so no key occurs twice.
spec fn map_of<T>(s: Seq<(String, T)>) -> Map<Seq<char>, T>
    decreases s.len(),
{
    if s.len() == 0 {
        Map::empty()
    } else {
        map_of(s.drop_last()).insert(s.last().0@, s.last().1)
    }
}

/// No two entries of the sequence share a key.
spec fn unique_keys<T>(s: Seq<(String, T)>) -> bool {
    forall|i: int, j: int| 0 <= i < j < s.len() ==> s[i].0@ != s[j].0@
}

/// A key is in the stored map exactly when some entry holds it.
proof fn lemma_map_of_contains<T>(s: Seq<(String, T)>)
    ensures
        map_of(s).dom().finite(),
        forall|k: Seq<char>|
            map_of(s).contains_key(k) <==> (exists|i: int| 0 <= i < s.len() && s[i].0@ == k),
    decreases s.len(),
{
    if s.len() > 0 {
        lemma_map_of_contains(s.drop_last());
        assert forall|k: Seq<char>|
            map_of(s).contains_key(k) <==> (exists|i: int| 0 <= i < s.len() && s[i].0@ == k) by {
            if k == s.last().0@ {
                assert(s[s.len() - 1].0@ == k);
            } else {
                if exists|i: int| 0 <= i < s.len() && s[i].0@ == k {
                    let i = choose|i: int| 0 <= i < s.len() && s[i].0@ == k;
                    assert(s.drop_last()[i].0@ == k);
                }
                if exists|i: int| 0 <= i < s.drop_last().len() && s.drop_last()[i].0@ == k {
                    let i = choose|i: int| 0 <= i < s.drop_last().len() && s.drop_last()[i].0@ == k;
                    assert(s[i].0@ == k);
                }
            }
        };
    }
}

/// With unique keys, each entry's key maps to that entry's value.
proof fn lemma_map_of_index<T>(s: Seq<(String, T)>, i: int)
    requires
        unique_keys(s),
        0 <= i < s.len(),
    ensures
        map_of(s).contains_key(s[i].0@),
        map_of(s)[s[i].0@] == s[i].1,
    decreases s.len(),
{
    if i < s.len() - 1 {
        assert(unique_keys(s.drop_last()));
        lemma_map_of_index(s.drop_last(), i);
        assert(s.drop_last()[i] == s[i]);
        assert(s[i].0@ != s[s.len() - 1].0@);
    }
}

/// With unique keys, the stored map has exactly one key per entry.
proof fn lemma_map_of_len<T>(s: Seq<(String, T)>)
    requires
        unique_keys(s),
    ensures
        map_of(s).dom().finite(),
        map_of(s).dom().len() == s.len(),
    decreases s.len(),
{
    if s.len() == 0 {
        assert(map_of(s).dom() =~= Set::<Seq<char>>::empty());
    } else {
        assert(unique_keys(s.drop_last()));
        lemma_map_of_len(s.drop_last());
        lemma_map_of_contains(s.drop_last());
        let last_key = s.last().0@;
        assert(!map_of(s.drop_last()).contains_key(last_key)) by {
            if map_of(s.drop_last()).contains_key(last_key) {
                let i = choose|i: int|
                    0 <= i < s.drop_last().len() && s.drop_last()[i].0@ == last_key;
                assert(s[i].0@ == s[s.len() - 1].0@);
            }
        };
        assert(map_of(s).dom() =~= map_of(s.drop_last()).dom().insert(last_key));
    }
}

/// Relies on str's `PartialEq`: two string slices are equal exactly
/// when their character sequences are equal.
#[verifier::external_body]
fn str_eq(a: &str, b: &str) -> (r: bool)
    ensures
        r == (a@ == b@),
{
    a == b
}

/// A simple fixed-capacity cache.
pub struct Cache<T> {
    entries: Vec<(String, T)>,
    capacity: usize,
}

impl<T> View for Cache<T> {
    type V = Map<Seq<char>, T>;

    closed spec fn view(&self) -> Map<Seq<char>, T> {
        map_of(self.entries@)
    }
}

impl<T: Clone> Cache<T> {
    /// The cache's keys are unique and its entry count is within the
    /// capacity fixed at construction.
    pub closed spec fn wf(&self) -> bool {
        &&& unique_keys(self.entries@)
        &&& self.entries@.len() <= self.capacity
    }

    /// The maximum entry count, fixed at construction.
    pub closed spec fn cap(&self) -> usize {
        self.capacity
    }

    /// Law: a well-formed cache never stores more entries than its
    /// capacity allows.
    pub proof fn lemma_count_bounded(&self)
        requires
            self.wf(),
        ensures
            self@.len() <= self.cap(),
    {
        lemma_map_of_len(self.entries@);
    }

    /// Law: once a cache has been cleared, every key whatsoever reads
    /// back as absent and the entry count is zero.
    pub proof fn lemma_cleared_reads_empty(&self, k: Seq<char>)
        requires
            self@ == Map::<Seq<char>, T>::empty(),
        ensures
            !self@.contains_key(k),
            self@.len() == 0,
    {
        assert(self@.dom() =~= Set::<Seq<char>>::empty());
    }

    /// Creates a new cache with the given capacity.
    pub fn new(capacity: usize) -> (c: Cache<T>)
        ensures
            c.wf(),
            c.cap() == capacity,
            c@ == Map::<Seq<char>, T>::empty(),
            c@.len() == 0,
    {
        let c = Cache { entries: Vec::new(), capacity };
        proof {
            assert(c@.dom() =~= Set::<Seq<char>>::empty());
        }
        c
    }

    /// The position of the entry holding `key`, if one does.
    fn position_of(&self, key: &str) -> (r: Option<usize>)
        ensures
            match r {
                Some(i) => i < self.entries@.len() && self.entries@[i as int].0@ == key@,
                None => forall|i: int| 0 <= i < self.entries@.len() ==> self.entries@[i].0@ != key@,
            },
    {
        let n = self.entries.len();
        let mut i: usize = 0;
        while i < n
            invariant
                i <= n,
                n == self.entries@.len(),
                forall|j: int| 0 <= j < i ==> self.entries@[j].0@ != key@,
            decreases n - i,
        {
            if str_eq(self.entries[i].0.as_str(), key) {
                return Some(i);
            }
            i += 1;
        }
        None
    }

    /// Inserts a value under `key` and returns the value previously
    /// stored under it, if any. A fresh key inserted into a full cache
    /// evicts one arbitrary existing entry first; with capacity zero
    /// the fresh entry itself is evicted at once and nothing changes.
    pub fn insert(&mut self, key: String, value: T) -> (prev: Option<T>)
        requires
            old(self).wf(),
        ensures
            final(self).wf(),
            final(self).cap() == old(self).cap(),
            final(self)@.len() <= old(self).cap(),
            old(self)@.contains_key(key@) ==> {
                &&& final(self)@ == old(self)@.insert(key@, value)
                &&& final(self)@.dom() == old(self)@.dom()
                &&& final(self)@.len() == old(self)@.len()
                &&& prev == Some(old(self)@[key@])
            },
            !old(self)@.contains_key(key@) ==> prev is None,
            (!old(self)@.contains_key(key@) && old(self)@.len() < old(self).cap()) ==> {
                &&& final(self)@ == old(self)@.insert(key@, value)
                &&& final(self)@.len() == old(self)@.len() + 1
            },
            (!old(self)@.contains_key(key@) && old(self)@.len() >= old(self).cap()
                && old(self).cap() > 0) ==> (exists|victim: Seq<char>|
                {
                    &&& #[trigger] old(self)@.contains_key(victim)
                    &&& victim != key@
                    &&& final(self)@ == old(self)@.remove(victim).insert(key@, value)
                    &&& final(self)@.len() == old(self)@.len()
                }),
            (!old(self)@.contains_key(key@) && old(self).cap() == 0) ==> final(self)@ == old(
                self,
            )@,
            old(self).cap() > 0 ==> final(self)@.contains_key(key@) && final(self)@[key@]
                == value,
    {
        proof {
            lemma_map_of_contains(self.entries@);
            lemma_map_of_len(self.entries@);
        }
        let pos = self.position_of(key.as_str());
        match pos {
            Some(i) => {
                let ghost s = self.entries@;
                let ghost gi = i as int;
                proof {
                    lemma_map_of_index(s, gi);
                }
                let (_, old_val) = self.entries.remove(i);
                self.entries.push((key, value));
                proof {
                    lemma_overwrite(s, gi, self.entries@.last());
                    lemma_map_of_len(self.entries@);
                    assert(self@.dom() =~= old(self)@.dom());
                }
                Some(old_val)
            },
            None => {
                if self.capacity == 0 {
                    proof {
                        lemma_map_of_len(self.entries@);
                    }
                    return None;
                }
                let ghost s = self.entries@;
                if self.entries.len() >= self.capacity {
                    let _evicted = self.entries.pop();
                    proof {
                        lemma_evict_last(s);
                        lemma_map_of_index(s, s.len() - 1);
                    }
                }
                let ghost s2 = self.entries@;
                self.entries.push((key, value));
                proof {
                    lemma_push_fresh(s2, self.entries@.last());
                    lemma_map_of_len(self.entries@);
                }
                None
            },
        }
    }

    /// Read-only lookup of the value stored under `key`, if any.
    pub fn get(&self, key: &str) -> (r: Option<&T>)
        requires
            self.wf(),
        ensures
            match r {
                Some(v) => self@.contains_key(key@) && *v == self@[key@],
                None => !self@.contains_key(key@),
            },
    {
        let pos = self.position_of(key);
        proof {
            lemma_map_of_contains(self.entries@);
        }
        match pos {
            Some(i) => {
                proof {
                    lemma_map_of_index(self.entries@, i as int);
                }
                Some(&self.entries[i].1)
            },
            None => None,
        }
    }

    /// Removes all entries; the capacity is retained.
    pub fn clear(&mut self)
        requires
            old(self).wf(),
        ensures
            final(self).wf(),
            final(self).cap() == old(self).cap(),
            final(self)@ == Map::<Seq<char>, T>::empty(),
            final(self)@.len() == 0,
    {
        self.entries.clear();
        proof {
            assert(self@.dom() =~= Set::<Seq<char>>::empty());
        }
    }

    /// The number of entries currently stored.
    pub fn len(&self) -> (n: usize)
        requires
            self.wf(),
        ensures
            n == self@.len(),
    {
        proof {
            lemma_map_of_len(self.entries@);
        }
        self.entries.len()
    }
}

/// Replacing the one entry that holds a key overwrites that key in the
/// stored map and touches nothing else.
proof fn lemma_overwrite<T>(s: Seq<(String, T)>, i: int, p: (String, T))
    requires
        unique_keys(s),
        0 <= i < s.len(),
        s[i].0@ == p.0@,
    ensures
        unique_keys(s.remove(i).push(p)),
        s.remove(i).push(p).len() == s.len(),
        map_of(s.remove(i).push(p)) == map_of(s).insert(p.0@, p.1),
{
    let t = s.remove(i).push(p);
    assert(t.len() == s.len());
    assert forall|j: int| 0 <= j < t.len() - 1 implies t[j] == (if j < i {
        s[j]
    } else {
        s[j + 1]
    }) by {
        assert(s.remove(i)[j] == if j < i {
            s[j]
        } else {
            s[j + 1]
        });
    };
    assert(t[t.len() - 1] == p);
    assert forall|a: int, b: int| 0 <= a < b < t.len() implies t[a].0@ != t[b].0@ by {
        let a2: int = if a < i {
            a
        } else {
            a + 1
        };
        if b == t.len() - 1 {
            assert(t[a] == s[a2]);
            assert(s[a2].0@ != s[i].0@);
        } else {
            let b2: int = if b < i {
                b
            } else {
                b + 1
            };
            assert(t[a] == s[a2] && t[b] == s[b2]);
        }
    };
    lemma_map_of_contains(s);
    lemma_map_of_contains(t);
    let m1 = map_of(t);
    let m2 = map_of(s).insert(p.0@, p.1);
    assert forall|k: Seq<char>| m1.contains_key(k) <==> m2.contains_key(k) by {
        if m1.contains_key(k) {
            let j = choose|j: int| 0 <= j < t.len() && t[j].0@ == k;
            if j < t.len() - 1 {
                let j2: int = if j < i {
                    j
                } else {
                    j + 1
                };
                assert(s[j2].0@ == k);
            }
        }
        if m2.contains_key(k) {
            if k == p.0@ {
                assert(t[t.len() - 1].0@ == k);
            } else {
                let j = choose|j: int| 0 <= j < s.len() && s[j].0@ == k;
                if j < i {
                    assert(t[j].0@ == k);
                } else {
                    assert(t[j - 1].0@ == k);
                }
            }
        }
    };
    assert forall|k: Seq<char>| m1.contains_key(k) implies m1[k] == m2[k] by {
        if k == p.0@ {
            lemma_map_of_index(t, t.len() - 1);
        } else {
            let j = choose|j: int| 0 <= j < t.len() && t[j].0@ == k;
            assert(j < t.len() - 1);
            lemma_map_of_index(t, j);
            let j2: int = if j < i {
                j
            } else {
                j + 1
            };
            assert(t[j] == s[j2]);
            lemma_map_of_index(s, j2);
        }
    };
    assert(m1 =~= m2);
}

/// Dropping the last entry removes exactly its key from the stored map.
proof fn lemma_evict_last<T>(s: Seq<(String, T)>)
    requires
        unique_keys(s),
        s.len() > 0,
    ensures
        unique_keys(s.drop_last()),
        map_of(s.drop_last()) == map_of(s).remove(s.last().0@),
{
    lemma_map_of_contains(s.drop_last());
    let last_key = s.last().0@;
    assert(!map_of(s.drop_last()).contains_key(last_key)) by {
        if map_of(s.drop_last()).contains_key(last_key) {
            let i = choose|i: int| 0 <= i < s.drop_last().len() && s.drop_last()[i].0@ == last_key;
            assert(s[i].0@ == s[s.len() - 1].0@);
        }
    };
    assert(map_of(s.drop_last()) =~= map_of(s).remove(last_key));
}

/// Appending an entry with a fresh key adds exactly that key to the
/// stored map.
proof fn lemma_push_fresh<T>(s: Seq<(String, T)>, p: (String, T))
    requires
        unique_keys(s),
        forall|i: int| 0 <= i < s.len() ==> s[i].0@ != p.0@,
    ensures
        unique_keys(s.push(p)),
        map_of(s.push(p)) == map_of(s).insert(p.0@, p.1),
        !map_of(s).contains_key(p.0@),
    decreases s.len(),
{
    lemma_map_of_contains(s);
    let t = s.push(p);
    assert(t.drop_last() =~= s);
    assert(t.last() == p);
    assert forall|a: int, b: int| 0 <= a < b < t.len() implies t[a].0@ != t[b].0@ by {
        if b < t.len() - 1 {
            assert(s[a].0@ != s[b].0@);
        } else {
            assert(s[a].0@ != p.0@);
        }
    };
}

} // verus!
