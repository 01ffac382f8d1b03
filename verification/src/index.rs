//! Owned association maps the joiner drains as lessons claim entries.
//!
//! Two shapes are needed: one keyed by the `u64` surrogate key (homework and
//! absence indices) and one keyed by the stable uid string (exam index).
//! Both keep their entries in insertion order, keys unique, and hand an entry
//! out at most once: a successful `remove` takes the entry out of the map.

use vstd::prelude::*;

verus! {

// --- sequences of (u64, value) pairs ---------------------------------------

/// The value stored under `k`, or `None`.
pub open spec fn assoc_get<V>(s: Seq<(u64, V)>, k: u64) -> Option<V>
    decreases s.len(),
{
    if s.len() == 0 {
        None
    } else if s[0].0 == k {
        Some(s[0].1)
    } else {
        assoc_get(s.drop_first(), k)
    }
}

pub open spec fn assoc_contains<V>(s: Seq<(u64, V)>, k: u64) -> bool {
    assoc_get(s, k) is Some
}

/// The sequence with the first entry keyed `k` taken out.
pub open spec fn assoc_remove<V>(s: Seq<(u64, V)>, k: u64) -> Seq<(u64, V)>
    decreases s.len(),
{
    if s.len() == 0 {
        s
    } else if s[0].0 == k {
        s.drop_first()
    } else {
        seq![s[0]] + assoc_remove(s.drop_first(), k)
    }
}

/// Last-write-wins insertion: an existing entry keyed `k` is overwritten in
/// place, else the new entry goes to the back.
pub open spec fn assoc_insert<V>(s: Seq<(u64, V)>, k: u64, v: V) -> Seq<(u64, V)>
    decreases s.len(),
{
    if s.len() == 0 {
        seq![(k, v)]
    } else if s[0].0 == k {
        seq![(k, v)] + s.drop_first()
    } else {
        seq![s[0]] + assoc_insert(s.drop_first(), k, v)
    }
}

/// No two entries share a key.
pub open spec fn assoc_unique<V>(s: Seq<(u64, V)>) -> bool {
    forall|i: int, j: int| 0 <= i < j < s.len() ==> s[i].0 != s[j].0
}

proof fn lemma_assoc_found<V>(s: Seq<(u64, V)>, k: u64, i: int)
    requires
        0 <= i < s.len(),
        s[i].0 == k,
        forall|j: int| 0 <= j < i ==> s[j].0 != k,
    ensures
        assoc_get(s, k) == Some(s[i].1),
        assoc_remove(s, k) =~= s.remove(i),
    decreases i,
{
    if i == 0 {
        assert(assoc_remove(s, k) == s.drop_first());
        assert(s.drop_first() =~= s.remove(0));
    } else {
        lemma_assoc_found(s.drop_first(), k, i - 1);
        assert(assoc_remove(s, k) == seq![s[0]] + assoc_remove(s.drop_first(), k));
        assert(seq![s[0]] + s.drop_first().remove(i - 1) =~= s.remove(i));
    }
}

proof fn lemma_assoc_absent<V>(s: Seq<(u64, V)>, k: u64)
    requires
        forall|j: int| 0 <= j < s.len() ==> s[j].0 != k,
    ensures
        assoc_get(s, k) is None,
        assoc_remove(s, k) =~= s,
    decreases s.len(),
{
    if s.len() > 0 {
        lemma_assoc_absent(s.drop_first(), k);
        assert(seq![s[0]] + s.drop_first() =~= s);
    }
}

proof fn lemma_assoc_set<V>(s: Seq<(u64, V)>, k: u64, v: V, i: int)
    requires
        0 <= i < s.len(),
        s[i].0 == k,
        forall|j: int| 0 <= j < i ==> s[j].0 != k,
    ensures
        assoc_insert(s, k, v) =~= s.update(i, (k, v)),
    decreases i,
{
    if i == 0 {
        assert(seq![(k, v)] + s.drop_first() =~= s.update(0, (k, v)));
    } else {
        lemma_assoc_set(s.drop_first(), k, v, i - 1);
        assert(seq![s[0]] + s.drop_first().update(i - 1, (k, v)) =~= s.update(i, (k, v)));
    }
}

proof fn lemma_assoc_push<V>(s: Seq<(u64, V)>, k: u64, v: V)
    requires
        forall|j: int| 0 <= j < s.len() ==> s[j].0 != k,
    ensures
        assoc_insert(s, k, v) =~= s.push((k, v)),
    decreases s.len(),
{
    if s.len() == 0 {
        assert(seq![(k, v)] =~= s.push((k, v)));
    } else {
        lemma_assoc_push(s.drop_first(), k, v);
        assert(seq![s[0]] + s.drop_first().push((k, v)) =~= s.push((k, v)));
    }
}

/// The map after inserting the first `n` of the given entries in order.
pub open spec fn assoc_insert_all<V>(
    s: Seq<(u64, V)>,
    es: Seq<(u64, V)>,
    n: int,
) -> Seq<(u64, V)>
    decreases n,
{
    if n <= 0 {
        s
    } else {
        assoc_insert(assoc_insert_all(s, es, n - 1), es[n - 1].0, es[n - 1].1)
    }
}

/// Insertion grows the map by one entry exactly when the key was absent.
pub proof fn lemma_assoc_insert_len<V>(s: Seq<(u64, V)>, k: u64, v: V)
    ensures
        assoc_contains(s, k) ==> assoc_insert(s, k, v).len() == s.len(),
        !assoc_contains(s, k) ==> assoc_insert(s, k, v).len() == s.len() + 1,
    decreases s.len(),
{
    if s.len() > 0 && s[0].0 != k {
        lemma_assoc_insert_len(s.drop_first(), k, v);
    }
}

/// Removing an entry keeps the remaining keys unique, and shortens the map
/// by one exactly when the key was present.
pub proof fn lemma_assoc_remove_props<V>(s: Seq<(u64, V)>, k: u64)
    requires
        assoc_unique(s),
    ensures
        assoc_unique(assoc_remove(s, k)),
        assoc_contains(s, k) ==> assoc_remove(s, k).len() == s.len() - 1,
        !assoc_contains(s, k) ==> assoc_remove(s, k) =~= s,
    decreases s.len(),
{
    if s.len() > 0 {
        if s[0].0 == k {
            assert(assoc_unique(s.drop_first()));
        } else {
            assert(assoc_unique(s.drop_first()));
            lemma_assoc_remove_props(s.drop_first(), k);
            let r = seq![s[0]] + assoc_remove(s.drop_first(), k);
            assert forall|i: int, j: int| 0 <= i < j < r.len() implies r[i].0 != r[j].0 by {
                if i > 0 {
                    lemma_assoc_remove_mem(s.drop_first(), k, i - 1);
                    lemma_assoc_remove_mem(s.drop_first(), k, j - 1);
                } else {
                    lemma_assoc_remove_mem(s.drop_first(), k, j - 1);
                }
            }
        }
    }
}

/// With unique keys, a removed key is gone for good: nothing is left to
/// claim under it.
pub proof fn lemma_assoc_remove_gone<V>(s: Seq<(u64, V)>, k: u64)
    requires
        assoc_unique(s),
    ensures
        !assoc_contains(assoc_remove(s, k), k),
    decreases s.len(),
{
    if s.len() > 0 {
        if s[0].0 == k {
            assert forall|j: int| 0 <= j < s.drop_first().len() implies s.drop_first()[j].0
                != k by {
                assert(s[j + 1].0 != s[0].0);
            }
            lemma_assoc_absent(s.drop_first(), k);
        } else {
            assert(assoc_unique(s.drop_first()));
            lemma_assoc_remove_gone(s.drop_first(), k);
            let r = seq![s[0]] + assoc_remove(s.drop_first(), k);
            assert(r.drop_first() =~= assoc_remove(s.drop_first(), k));
        }
    }
}

/// Removal never makes a key appear: a key absent before is absent after,
/// and the value under any other key is unchanged.
pub proof fn lemma_assoc_remove_other<V>(s: Seq<(u64, V)>, k: u64, k2: u64)
    requires
        k2 != k,
    ensures
        assoc_get(assoc_remove(s, k), k2) == assoc_get(s, k2),
    decreases s.len(),
{
    if s.len() > 0 {
        if s[0].0 == k {
        } else {
            lemma_assoc_remove_other(s.drop_first(), k, k2);
            let r = seq![s[0]] + assoc_remove(s.drop_first(), k);
            assert(r.drop_first() =~= assoc_remove(s.drop_first(), k));
        }
    }
}

/// Every entry of a map after removal was an entry of the map before.
proof fn lemma_assoc_remove_mem<V>(s: Seq<(u64, V)>, k: u64, i: int)
    requires
        0 <= i < assoc_remove(s, k).len(),
    ensures
        exists|j: int|
            0 <= j < s.len() && s[j] == assoc_remove(s, k)[i] && (i <= j),
    decreases s.len(),
{
    if s.len() > 0 {
        if s[0].0 == k {
        } else {
            if i > 0 {
                lemma_assoc_remove_mem(s.drop_first(), k, i - 1);
                let j = choose|j: int|
                    0 <= j < s.drop_first().len() && s.drop_first()[j] == assoc_remove(
                        s.drop_first(),
                        k,
                    )[i - 1] && (i - 1 <= j);
                assert(s[j + 1] == assoc_remove(s, k)[i]);
            }
        }
    }
}

// --- sequences of (String, value) pairs ------------------------------------

/// The value stored under the key whose characters are `k`, or `None`.
pub open spec fn uassoc_get<V>(s: Seq<(String, V)>, k: Seq<char>) -> Option<V>
    decreases s.len(),
{
    if s.len() == 0 {
        None
    } else if s[0].0@ == k {
        Some(s[0].1)
    } else {
        uassoc_get(s.drop_first(), k)
    }
}

pub open spec fn uassoc_contains<V>(s: Seq<(String, V)>, k: Seq<char>) -> bool {
    uassoc_get(s, k) is Some
}

/// The sequence with the first entry keyed `k` taken out.
pub open spec fn uassoc_remove<V>(s: Seq<(String, V)>, k: Seq<char>) -> Seq<(String, V)>
    decreases s.len(),
{
    if s.len() == 0 {
        s
    } else if s[0].0@ == k {
        s.drop_first()
    } else {
        seq![s[0]] + uassoc_remove(s.drop_first(), k)
    }
}

/// Last-write-wins insertion, as in `assoc_insert`.
pub open spec fn uassoc_insert<V>(s: Seq<(String, V)>, k: String, v: V) -> Seq<(String, V)>
    decreases s.len(),
{
    if s.len() == 0 {
        seq![(k, v)]
    } else if s[0].0@ == k@ {
        seq![(k, v)] + s.drop_first()
    } else {
        seq![s[0]] + uassoc_insert(s.drop_first(), k, v)
    }
}

/// No two entries share a key, compared by characters.
pub open spec fn uassoc_unique<V>(s: Seq<(String, V)>) -> bool {
    forall|i: int, j: int| 0 <= i < j < s.len() ==> s[i].0@ != s[j].0@
}

proof fn lemma_uassoc_found<V>(s: Seq<(String, V)>, k: Seq<char>, i: int)
    requires
        0 <= i < s.len(),
        s[i].0@ == k,
        forall|j: int| 0 <= j < i ==> s[j].0@ != k,
    ensures
        uassoc_get(s, k) == Some(s[i].1),
        uassoc_remove(s, k) =~= s.remove(i),
    decreases i,
{
    if i == 0 {
        assert(s.drop_first() =~= s.remove(0));
    } else {
        lemma_uassoc_found(s.drop_first(), k, i - 1);
        assert(seq![s[0]] + s.drop_first().remove(i - 1) =~= s.remove(i));
    }
}

proof fn lemma_uassoc_absent<V>(s: Seq<(String, V)>, k: Seq<char>)
    requires
        forall|j: int| 0 <= j < s.len() ==> s[j].0@ != k,
    ensures
        uassoc_get(s, k) is None,
        uassoc_remove(s, k) =~= s,
    decreases s.len(),
{
    if s.len() > 0 {
        lemma_uassoc_absent(s.drop_first(), k);
        assert(seq![s[0]] + s.drop_first() =~= s);
    }
}

proof fn lemma_uassoc_set<V>(s: Seq<(String, V)>, k: String, v: V, i: int)
    requires
        0 <= i < s.len(),
        s[i].0@ == k@,
        forall|j: int| 0 <= j < i ==> s[j].0@ != k@,
    ensures
        uassoc_insert(s, k, v) =~= s.update(i, (k, v)),
    decreases i,
{
    if i == 0 {
        assert(seq![(k, v)] + s.drop_first() =~= s.update(0, (k, v)));
    } else {
        lemma_uassoc_set(s.drop_first(), k, v, i - 1);
        assert(seq![s[0]] + s.drop_first().update(i - 1, (k, v)) =~= s.update(i, (k, v)));
    }
}

proof fn lemma_uassoc_push<V>(s: Seq<(String, V)>, k: String, v: V)
    requires
        forall|j: int| 0 <= j < s.len() ==> s[j].0@ != k@,
    ensures
        uassoc_insert(s, k, v) =~= s.push((k, v)),
    decreases s.len(),
{
    if s.len() == 0 {
        assert(seq![(k, v)] =~= s.push((k, v)));
    } else {
        lemma_uassoc_push(s.drop_first(), k, v);
        assert(seq![s[0]] + s.drop_first().push((k, v)) =~= s.push((k, v)));
    }
}

/// The map after inserting the first `n` of the given entries in order.
pub open spec fn uassoc_insert_all<V>(
    s: Seq<(String, V)>,
    es: Seq<(String, V)>,
    n: int,
) -> Seq<(String, V)>
    decreases n,
{
    if n <= 0 {
        s
    } else {
        uassoc_insert(uassoc_insert_all(s, es, n - 1), es[n - 1].0, es[n - 1].1)
    }
}

/// Insertion grows the map by one entry exactly when the key was absent.
pub proof fn lemma_uassoc_insert_len<V>(s: Seq<(String, V)>, k: String, v: V)
    ensures
        uassoc_contains(s, k@) ==> uassoc_insert(s, k, v).len() == s.len(),
        !uassoc_contains(s, k@) ==> uassoc_insert(s, k, v).len() == s.len() + 1,
    decreases s.len(),
{
    if s.len() > 0 && s[0].0@ != k@ {
        lemma_uassoc_insert_len(s.drop_first(), k, v);
    }
}

/// Removing an entry keeps the remaining keys unique, and shortens the map
/// by one exactly when the key was present.
pub proof fn lemma_uassoc_remove_props<V>(s: Seq<(String, V)>, k: Seq<char>)
    requires
        uassoc_unique(s),
    ensures
        uassoc_unique(uassoc_remove(s, k)),
        uassoc_contains(s, k) ==> uassoc_remove(s, k).len() == s.len() - 1,
        !uassoc_contains(s, k) ==> uassoc_remove(s, k) =~= s,
    decreases s.len(),
{
    if s.len() > 0 {
        if s[0].0@ == k {
            assert(uassoc_unique(s.drop_first()));
        } else {
            assert(uassoc_unique(s.drop_first()));
            lemma_uassoc_remove_props(s.drop_first(), k);
            let r = seq![s[0]] + uassoc_remove(s.drop_first(), k);
            assert forall|i: int, j: int| 0 <= i < j < r.len() implies r[i].0@ != r[j].0@ by {
                if i > 0 {
                    lemma_uassoc_remove_mem(s.drop_first(), k, i - 1);
                    lemma_uassoc_remove_mem(s.drop_first(), k, j - 1);
                } else {
                    lemma_uassoc_remove_mem(s.drop_first(), k, j - 1);
                }
            }
        }
    }
}

/// With unique keys, a removed key is gone for good: nothing is left to
/// claim under it.
pub proof fn lemma_uassoc_remove_gone<V>(s: Seq<(String, V)>, k: Seq<char>)
    requires
        uassoc_unique(s),
    ensures
        !uassoc_contains(uassoc_remove(s, k), k),
    decreases s.len(),
{
    if s.len() > 0 {
        if s[0].0@ == k {
            assert forall|j: int| 0 <= j < s.drop_first().len() implies s.drop_first()[j].0@
                != k by {
                assert(s[j + 1].0@ != s[0].0@);
            }
            lemma_uassoc_absent(s.drop_first(), k);
        } else {
            assert(uassoc_unique(s.drop_first()));
            lemma_uassoc_remove_gone(s.drop_first(), k);
            let r = seq![s[0]] + uassoc_remove(s.drop_first(), k);
            assert(r.drop_first() =~= uassoc_remove(s.drop_first(), k));
        }
    }
}

/// Removal never makes a key appear: a key absent before is absent after,
/// and the value under any other key is unchanged.
pub proof fn lemma_uassoc_remove_other<V>(s: Seq<(String, V)>, k: Seq<char>, k2: Seq<char>)
    requires
        k2 != k,
    ensures
        uassoc_get(uassoc_remove(s, k), k2) == uassoc_get(s, k2),
    decreases s.len(),
{
    if s.len() > 0 {
        if s[0].0@ == k {
        } else {
            lemma_uassoc_remove_other(s.drop_first(), k, k2);
            let r = seq![s[0]] + uassoc_remove(s.drop_first(), k);
            assert(r.drop_first() =~= uassoc_remove(s.drop_first(), k));
        }
    }
}

/// Every entry of a map after removal was an entry of the map before.
proof fn lemma_uassoc_remove_mem<V>(s: Seq<(String, V)>, k: Seq<char>, i: int)
    requires
        0 <= i < uassoc_remove(s, k).len(),
    ensures
        exists|j: int|
            0 <= j < s.len() && s[j] == uassoc_remove(s, k)[i] && (i <= j),
    decreases s.len(),
{
    if s.len() > 0 {
        if s[0].0@ == k {
        } else {
            if i > 0 {
                lemma_uassoc_remove_mem(s.drop_first(), k, i - 1);
                let j = choose|j: int|
                    0 <= j < s.drop_first().len() && s.drop_first()[j] == uassoc_remove(
                        s.drop_first(),
                        k,
                    )[i - 1] && (i - 1 <= j);
                assert(s[j + 1] == uassoc_remove(s, k)[i]);
            }
        }
    }
}

/// An owned map keyed by a stable uid string, drained as entries are
/// claimed.
pub struct UidIndex<V> {
    entries: Vec<(String, V)>,
}

impl<V> View for UidIndex<V> {
    type V = Seq<(String, V)>;

    closed spec fn view(&self) -> Seq<(String, V)> {
        self.entries@
    }
}

impl<V> UidIndex<V> {
    /// The map never holds two entries under one key.
    pub open spec fn wf(self) -> bool {
        uassoc_unique(self@)
    }

    pub fn new() -> (r: UidIndex<V>)
        ensures
            r@ =~= Seq::<(String, V)>::empty(),
            r.wf(),
    {
        UidIndex { entries: Vec::new() }
    }

    pub fn len(&self) -> (n: usize)
        ensures
            n == self@.len(),
    {
        self.entries.len()
    }

    /// Last-write-wins insertion, as hash-map insertion behaves: a colliding
    /// key silently overwrites the stored value.
    pub fn insert(&mut self, k: String, v: V)
        requires
            old(self).wf(),
            old(self)@.len() < usize::MAX,
        ensures
            final(self)@ =~= uassoc_insert(old(self)@, k, v),
            final(self).wf(),
    {
        let n = self.entries.len();
        let mut i: usize = 0;
        while i < n
            invariant
                n == self.entries@.len(),
                i <= n,
                uassoc_unique(old(self)@),
                self.entries@ == old(self)@,
                forall|j: int| 0 <= j < i ==> self.entries@[j].0@ != k@,
            decreases n - i,
        {
            if self.entries[i].0 == k {
                proof {
                    lemma_uassoc_set(old(self)@, k, v, i as int);
                }
                self.entries.set(i, (k, v));
                proof {
                    let s = old(self)@;
                    let t = s.update(i as int, (k, v));
                    assert forall|a: int, b: int| 0 <= a < b < t.len() implies t[a].0@
                        != t[b].0@ by {
                        assert(s[a].0@ != s[b].0@);
                        assert(t[a].0@ == s[a].0@);
                        assert(t[b].0@ == s[b].0@);
                    }
                }
                return ;
            }
            i += 1;
        }
        proof {
            lemma_uassoc_push(old(self)@, k, v);
        }
        self.entries.push((k, v));
    }

    /// Takes the entry stored under `k` out of the map, so that no later
    /// lookup can claim it again.
    pub fn remove(&mut self, k: &String) -> (r: Option<V>)
        requires
            old(self).wf(),
        ensures
            r == uassoc_get(old(self)@, k@),
            final(self)@ =~= uassoc_remove(old(self)@, k@),
            final(self).wf(),
    {
        let n = self.entries.len();
        let mut i: usize = 0;
        while i < n
            invariant
                n == self.entries@.len(),
                i <= n,
                uassoc_unique(old(self)@),
                self.entries@ == old(self)@,
                forall|j: int| 0 <= j < i ==> self.entries@[j].0@ != k@,
            decreases n - i,
        {
            if self.entries[i].0 == *k {
                proof {
                    lemma_uassoc_found(old(self)@, k@, i as int);
                    assert(uassoc_contains(old(self)@, k@));
                    lemma_uassoc_remove_props(old(self)@, k@);
                }
                let e = self.entries.remove(i);
                return Some(e.1);
            }
            i += 1;
        }
        proof {
            lemma_uassoc_absent(old(self)@, k@);
        }
        None
    }

    /// Inserts each given entry in order, newest winning on a key collision.
    #[verifier::loop_isolation(false)]
    pub fn insert_all(&mut self, entries: Vec<(String, V)>)
        requires
            old(self).wf(),
            old(self)@.len() + entries@.len() < usize::MAX,
        ensures
            final(self).wf(),
            final(self)@ =~= uassoc_insert_all(old(self)@, entries@, entries@.len() as int),
    {
        let ghost es0 = entries@;
        let mut entries = entries;
        let n = entries.len();
        let mut i: usize = 0;
        while i < n
            invariant
                i <= n,
                entries@ == es0.subrange(i as int, n as int),
                self.wf(),
                self@.len() <= old(self)@.len() + i,
                self@ =~= uassoc_insert_all(old(self)@, es0, i as int),
            decreases n - i,
        {
            let e = entries.remove(0);
            let ghost before = self@;
            self.insert(e.0, e.1);
            proof {
                lemma_uassoc_insert_len(before, es0[i as int].0, es0[i as int].1);
            }
            i += 1;
            proof {
                assert(entries@ =~= es0.subrange(i as int, n as int));
            }
        }
    }

    /// The remaining entries, in insertion order.
    pub fn entries(&self) -> (r: &Vec<(String, V)>)
        ensures
            r@ == self@,
    {
        &self.entries
    }
}

/// An owned map keyed by the `u64` surrogate key, drained as entries are
/// claimed.
pub struct KeyIndex<V> {
    entries: Vec<(u64, V)>,
}

impl<V> View for KeyIndex<V> {
    type V = Seq<(u64, V)>;

    closed spec fn view(&self) -> Seq<(u64, V)> {
        self.entries@
    }
}

impl<V> KeyIndex<V> {
    /// The map never holds two entries under one key.
    pub open spec fn wf(self) -> bool {
        assoc_unique(self@)
    }

    pub fn new() -> (r: KeyIndex<V>)
        ensures
            r@ =~= Seq::<(u64, V)>::empty(),
            r.wf(),
    {
        KeyIndex { entries: Vec::new() }
    }

    pub fn len(&self) -> (n: usize)
        ensures
            n == self@.len(),
    {
        self.entries.len()
    }

    /// Last-write-wins insertion, as hash-map insertion behaves: a colliding
    /// key silently overwrites the stored value.
    pub fn insert(&mut self, k: u64, v: V)
        requires
            old(self).wf(),
            old(self)@.len() < usize::MAX,
        ensures
            final(self)@ =~= assoc_insert(old(self)@, k, v),
            final(self).wf(),
    {
        let n = self.entries.len();
        let mut i: usize = 0;
        while i < n
            invariant
                n == self.entries@.len(),
                i <= n,
                assoc_unique(old(self)@),
                self.entries@ == old(self)@,
                forall|j: int| 0 <= j < i ==> self.entries@[j].0 != k,
            decreases n - i,
        {
            if self.entries[i].0 == k {
                proof {
                    lemma_assoc_set(old(self)@, k, v, i as int);
                }
                self.entries.set(i, (k, v));
                proof {
                    let s = old(self)@;
                    let t = s.update(i as int, (k, v));
                    assert forall|a: int, b: int| 0 <= a < b < t.len() implies t[a].0
                        != t[b].0 by {
                        assert(s[a].0 != s[b].0);
                        assert(t[a].0 == s[a].0);
                        assert(t[b].0 == s[b].0);
                    }
                }
                return ;
            }
            i += 1;
        }
        proof {
            lemma_assoc_push(old(self)@, k, v);
        }
        self.entries.push((k, v));
    }

    /// Takes the entry stored under `k` out of the map, so that no later
    /// lookup can claim it again.
    pub fn remove(&mut self, k: u64) -> (r: Option<V>)
        requires
            old(self).wf(),
        ensures
            r == assoc_get(old(self)@, k),
            final(self)@ =~= assoc_remove(old(self)@, k),
            final(self).wf(),
    {
        let n = self.entries.len();
        let mut i: usize = 0;
        while i < n
            invariant
                n == self.entries@.len(),
                i <= n,
                assoc_unique(old(self)@),
                self.entries@ == old(self)@,
                forall|j: int| 0 <= j < i ==> self.entries@[j].0 != k,
            decreases n - i,
        {
            if self.entries[i].0 == k {
                proof {
                    lemma_assoc_found(old(self)@, k, i as int);
                    assert(assoc_contains(old(self)@, k));
                    lemma_assoc_remove_props(old(self)@, k);
                }
                let e = self.entries.remove(i);
                return Some(e.1);
            }
            i += 1;
        }
        proof {
            lemma_assoc_absent(old(self)@, k);
        }
        None
    }

    /// Inserts each given entry in order, newest winning on a key collision.
    #[verifier::loop_isolation(false)]
    pub fn insert_all(&mut self, entries: Vec<(u64, V)>)
        requires
            old(self).wf(),
            old(self)@.len() + entries@.len() < usize::MAX,
        ensures
            final(self).wf(),
            final(self)@ =~= assoc_insert_all(old(self)@, entries@, entries@.len() as int),
    {
        let ghost es0 = entries@;
        let mut entries = entries;
        let n = entries.len();
        let mut i: usize = 0;
        while i < n
            invariant
                i <= n,
                entries@ == es0.subrange(i as int, n as int),
                self.wf(),
                self@.len() <= old(self)@.len() + i,
                self@ =~= assoc_insert_all(old(self)@, es0, i as int),
            decreases n - i,
        {
            let e = entries.remove(0);
            let ghost before = self@;
            self.insert(e.0, e.1);
            proof {
                lemma_assoc_insert_len(before, es0[i as int].0, es0[i as int].1);
            }
            i += 1;
            proof {
                assert(entries@ =~= es0.subrange(i as int, n as int));
            }
        }
    }

    /// The remaining entries, in insertion order.
    pub fn entries(&self) -> (r: &Vec<(u64, V)>)
        ensures
            r@ == self@,
    {
        &self.entries
    }
}

} // verus!
