//! A small map over a vector, for keys that can only be told apart.

use crate::time::Instant;
use vstd::prelude::*;

verus! {

/// A key whose equality can be tested.
pub trait Key: Copy {
    fn same(&self, other: &Self) -> (same: bool)
        ensures
            same == (*self == *other),
    ;
}

/// A value that may carry the time by which it grows old.
pub trait Stamped {
    spec fn stamp(&self) -> Option<Instant>;

    fn get_stamp(&self) -> (stamp: Option<Instant>)
        ensures
            stamp == self.stamp(),
    ;
}

/// Entries with distinct keys, in no particular order.
pub struct Table<K, V> {
    pub entries: Vec<(K, V)>,
}

/// Where `k` stands among the keys.
pub open spec fn position<K, V>(s: Seq<(K, V)>, k: K) -> int {
    choose|i: int| 0 <= i < s.len() && s[i].0 == k
}

/// `k` is one of the keys.
pub open spec fn has_key<K, V>(s: Seq<(K, V)>, k: K) -> bool {
    exists|i: int| 0 <= i < s.len() && (#[trigger] s[i]).0 == k
}

/// The map that a list of entries stands for.
pub open spec fn as_map<K, V>(s: Seq<(K, V)>) -> Map<K, V> {
    Map::new(|k: K| has_key(s, k), |k: K| s[position(s, k)].1)
}

/// No two entries have the same key.
pub open spec fn distinct<K, V>(s: Seq<(K, V)>) -> bool {
    forall|i: int, j: int|
        0 <= i < j < s.len() ==> (#[trigger] s[i]).0 != (#[trigger] s[j]).0
}

/// How many of the entries satisfy `p`.
pub open spec fn count_where<K, V>(s: Seq<(K, V)>, p: spec_fn(V) -> bool) -> nat
    decreases s.len(),
{
    if s.len() == 0 {
        0
    } else {
        count_where(s.drop_last(), p) + if p(s.last().1) {
            1nat
        } else {
            0
        }
    }
}

/// The keys whose values satisfy `p`.
pub open spec fn keys_where<K, V>(m: Map<K, V>, p: spec_fn(V) -> bool) -> Set<K> {
    m.dom().filter(|k: K| p(m[k]))
}

/// `list` holds each element of `set` once, and nothing else.
pub open spec fn enumerates<K>(list: Seq<K>, set: Set<K>) -> bool {
    list.no_duplicates() && list.to_set() == set
}

impl<K, V> View for Table<K, V> {
    type V = Map<K, V>;

    open spec fn view(&self) -> Map<K, V> {
        as_map(self.entries@)
    }
}

pub proof fn lemma_at<K, V>(s: Seq<(K, V)>, i: int)
    requires
        distinct(s),
        0 <= i < s.len(),
    ensures
        position(s, s[i].0) == i,
        as_map(s).contains_key(s[i].0),
        as_map(s)[s[i].0] == s[i].1,
{
    let k = s[i].0;
    assert(has_key(s, k));
    let p = position(s, k);
    assert(0 <= p < s.len() && s[p].0 == k);
}

proof fn lemma_push<K, V>(s: Seq<(K, V)>, k: K, v: V)
    requires
        distinct(s),
        !has_key(s, k),
    ensures
        distinct(s.push((k, v))),
        as_map(s.push((k, v))) == as_map(s).insert(k, v),
{
    let t = s.push((k, v));
    assert forall|x: K| has_key(t, x) == (has_key(s, x) || x == k) by {
        if has_key(s, x) {
            let i = position(s, x);
            assert(t[i].0 == x);
        }
        if x == k {
            assert(t[s.len() as int].0 == k);
        }
    }
    assert forall|x: K| has_key(t, x) implies as_map(t)[x] == as_map(s).insert(k, v)[x] by {
        if x == k {
            lemma_at(t, s.len() as int);
        } else {
            let i = position(s, x);
            assert(has_key(s, x));
            assert(t[i].0 == x);
            lemma_at(t, i);
        }
    }
    assert(as_map(t) =~= as_map(s).insert(k, v));
}

proof fn lemma_update<K, V>(s: Seq<(K, V)>, i: int, v: V)
    requires
        distinct(s),
        0 <= i < s.len(),
    ensures
        distinct(s.update(i, (s[i].0, v))),
        as_map(s.update(i, (s[i].0, v))) == as_map(s).insert(s[i].0, v),
{
    let t = s.update(i, (s[i].0, v));
    assert forall|x: K| has_key(t, x) == has_key(s, x) by {
        if has_key(s, x) {
            assert(t[position(s, x)].0 == x);
        }
        if has_key(t, x) {
            assert(s[position(t, x)].0 == x);
        }
    }
    lemma_at(s, i);
    assert forall|x: K| has_key(t, x) implies as_map(t)[x] == as_map(s).insert(s[i].0, v)[x] by {
        let j = position(t, x);
        lemma_at(t, j);
        lemma_at(s, j);
    }
    assert(as_map(t) =~= as_map(s).insert(s[i].0, v));
}

proof fn lemma_swap_remove<K, V>(s: Seq<(K, V)>, i: int)
    requires
        distinct(s),
        0 <= i < s.len(),
    ensures
        distinct(s.update(i, s.last()).drop_last()),
        as_map(s.update(i, s.last()).drop_last()) == as_map(s).remove(s[i].0),
{
    let t = s.update(i, s.last()).drop_last();
    let k = s[i].0;
    let last = s.len() - 1;
    assert(distinct(t));
    assert forall|x: K| has_key(t, x) == (has_key(s, x) && x != k) by {
        if has_key(s, x) && x != k {
            let j = position(s, x);
            if j == last {
                assert(t[i].0 == x);
            } else {
                assert(t[j].0 == x);
            }
        }
        if has_key(t, x) {
            let j = position(t, x);
            if j == i {
                assert(s[last].0 == x);
            } else {
                assert(s[j].0 == x);
            }
        }
    }
    assert forall|x: K| has_key(t, x) implies as_map(t)[x] == as_map(s).remove(k)[x] by {
        let j = position(t, x);
        lemma_at(t, j);
        lemma_at(
            s,
            if j == i {
                last
            } else {
                j
            },
        );
    }
    assert(as_map(t) =~= as_map(s).remove(k));
}

proof fn lemma_drop_last<K, V>(s: Seq<(K, V)>)
    requires
        distinct(s),
        s.len() > 0,
    ensures
        distinct(s.drop_last()),
        as_map(s) == as_map(s.drop_last()).insert(s.last().0, s.last().1),
        !as_map(s.drop_last()).contains_key(s.last().0),
{
    let front = s.drop_last();
    let k = s.last().0;
    if has_key(front, k) {
        let i = position(front, k);
        assert(s[i].0 == k && s[s.len() - 1].0 == k);
    }
    lemma_push(front, k, s.last().1);
    assert(front.push((k, s.last().1)) =~= s);
}

/// The entries that satisfy `p` are as many as the keys whose values do.
pub proof fn lemma_count<K, V>(s: Seq<(K, V)>, p: spec_fn(V) -> bool)
    requires
        distinct(s),
    ensures
        as_map(s).dom().finite(),
        as_map(s).dom().len() == s.len(),
        keys_where(as_map(s), p).finite(),
        keys_where(as_map(s), p).len() == count_where(s, p),
    decreases s.len(),
{
    if s.len() == 0 {
        assert(as_map(s).dom() =~= Set::empty());
        assert(keys_where(as_map(s), p) =~= Set::empty());
    } else {
        let front = s.drop_last();
        let (k, v) = s.last();
        lemma_drop_last(s);
        lemma_count(front, p);
        assert(as_map(s).dom() =~= as_map(front).dom().insert(k));
        if p(v) {
            assert(keys_where(as_map(s), p) =~= keys_where(as_map(front), p).insert(k));
        } else {
            assert(keys_where(as_map(s), p) =~= keys_where(as_map(front), p));
        }
    }
}

/// `after` is `before` without `n` entries, all of them stamped and none younger than an
/// entry that stays.
pub open spec fn oldest_removed<K, V: Stamped>(
    before: Map<K, V>,
    after: Map<K, V>,
    n: nat,
) -> bool {
    &&& forall|k: K| #[trigger]
        after.contains_key(k) ==> before.contains_key(k) && before[k] == after[k]
    &&& forall|k: K| #[trigger]
        before.contains_key(k) && !after.contains_key(k) ==> before[k].stamp() is Some
    &&& forall|r: K, k: K|
        #![trigger before.contains_key(r), after.contains_key(k)]
        before.contains_key(r) && !after.contains_key(r) && after.contains_key(k)
            && after[k].stamp() is Some ==> before[r].stamp()->0.nanos
            <= after[k].stamp()->0.nanos
    &&& before.dom().finite()
    &&& before.dom().difference(after.dom()).len() == n
}

proof fn lemma_oldest_removed_step<K, V: Stamped>(
    before: Map<K, V>,
    mid: Map<K, V>,
    n: nat,
    e: K,
)
    requires
        oldest_removed(before, mid, n),
        mid.contains_key(e),
        mid[e].stamp() is Some,
        forall|k: K| #[trigger]
            mid.contains_key(k) && mid[k].stamp() is Some ==> mid[e].stamp()->0.nanos
                <= mid[k].stamp()->0.nanos,
    ensures
        oldest_removed(before, mid.remove(e), n + 1),
{
    let after = mid.remove(e);
    assert(before.dom().difference(after.dom()) =~= before.dom().difference(mid.dom()).insert(e));
    assert(before.contains_key(e) && before[e] == mid[e]);
    assert forall|k: K| #[trigger]
        before.contains_key(k) && !after.contains_key(k) implies before[k].stamp() is Some by {
        assert(k == e || !mid.contains_key(k));
    }
    assert forall|r: K, k: K|
        #![trigger before.contains_key(r), after.contains_key(k)]
        before.contains_key(r) && !after.contains_key(r) && after.contains_key(k)
            && after[k].stamp() is Some implies before[r].stamp()->0.nanos
        <= after[k].stamp()->0.nanos by {
        assert(mid.contains_key(k));
    }
}

impl<K: Key, V> Table<K, V> {
    /// The keys are distinct.
    pub open spec fn wf(self) -> bool {
        distinct(self.entries@)
    }

    pub fn new() -> (table: Self)
        ensures
            table.wf(),
            table@ == Map::<K, V>::empty(),
    {
        let table = Table { entries: Vec::new() };
        assert(table@ =~= Map::<K, V>::empty());
        table
    }

    pub fn len(&self) -> (n: usize)
        requires
            self.wf(),
        ensures
            n == self@.dom().len(),
            n == self.entries@.len(),
            self@.dom().finite(),
    {
        proof {
            lemma_count(self.entries@, |v: V| true);
        }
        self.entries.len()
    }

    /// Where `k` stands, if it is a key.
    pub fn find(&self, k: &K) -> (found: Option<usize>)
        requires
            self.wf(),
        ensures
            match found {
                Some(i) => {
                    &&& i < self.entries@.len()
                    &&& self.entries@[i as int].0 == *k
                    &&& self@.contains_key(*k)
                    &&& self@[*k] == self.entries@[i as int].1
                },
                None => !self@.contains_key(*k),
            },
    {
        let mut i: usize = 0;
        while i < self.entries.len()
            invariant
                self.wf(),
                i <= self.entries@.len(),
                forall|j: int| 0 <= j < i ==> (#[trigger] self.entries@[j]).0 != *k,
            decreases self.entries.len() - i,
        {
            if self.entries[i].0.same(k) {
                proof {
                    lemma_at(self.entries@, i as int);
                }
                return Some(i);
            }
            i += 1;
        }
        None
    }

    pub fn contains(&self, k: &K) -> (found: bool)
        requires
            self.wf(),
        ensures
            found == self@.contains_key(*k),
    {
        self.find(k).is_some()
    }

    pub fn get(&self, k: &K) -> (found: Option<&V>)
        requires
            self.wf(),
        ensures
            match found {
                Some(v) => self@.contains_key(*k) && *v == self@[*k],
                None => !self@.contains_key(*k),
            },
    {
        match self.find(k) {
            Some(i) => Some(&self.entries[i].1),
            None => None,
        }
    }

    pub fn get_mut(&mut self, k: &K) -> (found: Option<&mut V>)
        requires
            old(self).wf(),
        ensures
            final(self).wf(),
            match found {
                Some(v) => {
                    &&& old(self)@.contains_key(*k)
                    &&& *v == old(self)@[*k]
                    &&& final(self)@ == old(self)@.insert(*k, *final(v))
                },
                None => !old(self)@.contains_key(*k) && final(self)@ == old(self)@,
            },
    {
        match self.find(k) {
            Some(i) => {
                let ghost before = self.entries@;
                proof {
                    assert forall|v: V| #![trigger before.update(i as int, (before[i as int].0, v))]
                        distinct(before.update(i as int, (before[i as int].0, v))) && as_map(
                            before.update(i as int, (before[i as int].0, v)),
                        ) == as_map(before).insert(before[i as int].0, v) by {
                        lemma_update(before, i as int, v);
                    }
                }
                let entry: &mut (K, V) = &mut self.entries[i];
                Some(&mut entry.1)
            },
            None => None,
        }
    }

    pub fn insert(&mut self, k: K, v: V)
        requires
            old(self).wf(),
        ensures
            final(self).wf(),
            final(self)@ == old(self)@.insert(k, v),
    {
        let ghost before = self.entries@;
        match self.find(&k) {
            Some(i) => {
                self.entries[i] = (k, v);
                proof {
                    lemma_update(before, i as int, v);
                }
            },
            None => {
                self.entries.push((k, v));
                proof {
                    lemma_push(before, k, v);
                }
            },
        }
    }

    pub fn remove(&mut self, k: &K) -> (removed: Option<V>)
        requires
            old(self).wf(),
        ensures
            final(self).wf(),
            final(self)@ == old(self)@.remove(*k),
            removed == if old(self)@.contains_key(*k) {
                Some(old(self)@[*k])
            } else {
                None
            },
    {
        let ghost before = self.entries@;
        match self.find(k) {
            Some(i) => {
                let entry: (K, V) = self.entries.swap_remove(i);
                proof {
                    lemma_swap_remove(before, i as int);
                }
                Some(entry.1)
            },
            None => {
                assert(self@.remove(*k) =~= self@);
                None
            },
        }
    }

    /// Removes every key of the list.
    pub fn remove_all(&mut self, keys: &Vec<K>)
        requires
            old(self).wf(),
        ensures
            final(self).wf(),
            final(self)@ == old(self)@.remove_keys(keys@.to_set()),
    {
        let mut i: usize = 0;
        assert(self@ =~= old(self)@.remove_keys(keys@.take(0).to_set()));
        while i < keys.len()
            invariant
                self.wf(),
                i <= keys@.len(),
                self@ == old(self)@.remove_keys(keys@.take(i as int).to_set()),
            decreases keys.len() - i,
        {
            let ghost before = self@;
            self.remove(&keys[i]);
            proof {
                let now = keys@.take(i + 1);
                let was = keys@.take(i as int);
                assert forall|k: K| now.to_set().contains(k) <==> was.to_set().contains(k) || k
                    == keys@[i as int] by {
                    if was.to_set().contains(k) {
                        let j = choose|j: int| 0 <= j < was.len() && was[j] == k;
                        assert(now[j] == k);
                    }
                    if k == keys@[i as int] {
                        assert(now[i as int] == k);
                    }
                }
                assert(self@ =~= old(self)@.remove_keys(now.to_set()));
            }
            i += 1;
        }
        assert(keys@.take(i as int) =~= keys@);
    }
}

impl<K: Key, V: Stamped> Table<K, V> {
    /// Where an entry with the least stamp stands; `None` where no entry is stamped.
    fn oldest(&self) -> (found: Option<usize>)
        requires
            self.wf(),
        ensures
            match found {
                Some(i) => {
                    &&& i < self.entries@.len()
                    &&& self.entries@[i as int].1.stamp() is Some
                    &&& forall|j: int|
                        0 <= j < self.entries@.len() && (#[trigger] self.entries@[j]).1.stamp() is Some
                            ==> self.entries@[i as int].1.stamp()->0.nanos
                            <= self.entries@[j].1.stamp()->0.nanos
                },
                None => forall|j: int|
                    0 <= j < self.entries@.len() ==> (#[trigger] self.entries@[j]).1.stamp() is None,
            },
    {
        let mut best: Option<(usize, Instant)> = None;
        let mut i: usize = 0;
        while i < self.entries.len()
            invariant
                i <= self.entries@.len(),
                match best {
                    Some((b, t)) => {
                        &&& b < i
                        &&& self.entries@[b as int].1.stamp() == Some(t)
                        &&& forall|j: int|
                            0 <= j < i && (#[trigger] self.entries@[j]).1.stamp() is Some ==> t.nanos
                                <= self.entries@[j].1.stamp()->0.nanos
                    },
                    None => forall|j: int|
                        0 <= j < i ==> (#[trigger] self.entries@[j]).1.stamp() is None,
                },
            decreases self.entries.len() - i,
        {
            if let Some(t) = self.entries[i].1.get_stamp() {
                best = match best {
                    Some((b, best_t)) => if t.nanos < best_t.nanos {
                        Some((i, t))
                    } else {
                        Some((b, best_t))
                    },
                    None => Some((i, t)),
                };
            }
            i += 1;
        }
        match best {
            Some((b, _)) => Some(b),
            None => None,
        }
    }

    /// Removes up to `n` stamped entries, the oldest first. Returns the removed keys.
    pub fn remove_oldest(&mut self, n: usize) -> (removed: Vec<K>)
        requires
            old(self).wf(),
        ensures
            final(self).wf(),
            oldest_removed(old(self)@, final(self)@, removed@.len()),
            removed@.to_set() == old(self)@.dom().difference(final(self)@.dom()),
            removed@.len() <= n,
            removed@.len() < n ==> forall|k: K| #[trigger]
                final(self)@.contains_key(k) ==> final(self)@[k].stamp() is None,
    {
        let mut removed: Vec<K> = Vec::new();
        proof {
            lemma_count(self.entries@, |v: V| true);
            assert(self@.dom().difference(self@.dom()) =~= Set::empty());
            assert(removed@.to_set() =~= Set::empty());
        }
        while removed.len() < n
            invariant
                self.wf(),
                removed@.len() <= n,
                oldest_removed(old(self)@, self@, removed@.len()),
                removed@.to_set() == old(self)@.dom().difference(self@.dom()),
            decreases n - removed.len(),
        {
            match self.oldest() {
                Some(i) => {
                    let key: K = self.entries[i].0;
                    let ghost before = self@;
                    let ghost list = removed@;
                    proof {
                        lemma_at(self.entries@, i as int);
                        assert forall|k: K| #[trigger]
                            before.contains_key(k) && before[k].stamp() is Some implies before[key].stamp()->0.nanos
                            <= before[k].stamp()->0.nanos by {
                            let j = position(self.entries@, k);
                            lemma_at(self.entries@, j);
                        }
                        lemma_oldest_removed_step(old(self)@, before, list.len(), key);
                    }
                    self.remove(&key);
                    removed.push(key);
                    proof {
                        assert forall|k: K| removed@.to_set().contains(k) <==> list.to_set().contains(
                            k,
                        ) || k == key by {
                            if list.to_set().contains(k) {
                                let j = choose|j: int| 0 <= j < list.len() && list[j] == k;
                                assert(removed@[j] == k);
                            }
                            if k == key {
                                assert(removed@[list.len() as int] == k);
                            }
                        }
                        assert(before.contains_key(key));
                        assert(old(self)@.contains_key(key));
                        assert(self@ == before.remove(key));
                        assert forall|k: K| removed@.to_set().contains(k) <==> old(
                            self,
                        )@.dom().difference(self@.dom()).contains(k) by {
                            assert(list.to_set().contains(k) <==> old(self)@.dom().difference(
                                before.dom(),
                            ).contains(k));
                        }
                        assert(removed@.to_set() =~= old(self)@.dom().difference(self@.dom()));
                    }
                },
                None => {
                    proof {
                        assert forall|k: K| #[trigger] self@.contains_key(k) implies self@[k].stamp() is None by {
                            let j = position(self.entries@, k);
                            lemma_at(self.entries@, j);
                        }
                    }
                    return removed;
                },
            }
        }
        removed
    }

    /// Keeps the stamped entries that are younger than `age` nanoseconds.
    pub fn retain_younger(&mut self, now: Instant, age: u64)
        requires
            old(self).wf(),
        ensures
            final(self).wf(),
            final(self)@ == old(self)@.restrict(
                keys_where(
                    old(self)@,
                    |v: V| v.stamp() is Some && now.spec_since(v.stamp()->0) < age,
                ),
            ),
    {
        let ghost young = |v: V| v.stamp() is Some && now.spec_since(v.stamp()->0) < age;
        let mut stale: Vec<K> = Vec::new();
        let mut i: usize = 0;
        while i < self.entries.len()
            invariant
                self.wf(),
                self@ == old(self)@,
                i <= self.entries@.len(),
                young == (|v: V| v.stamp() is Some && now.spec_since(v.stamp()->0) < age),
                forall|j: int|
                    0 <= j < i && !young((#[trigger] self.entries@[j]).1) ==> stale@.contains(
                        self.entries@[j].0,
                    ),
                forall|j: int|
                    0 <= j < stale@.len() ==> self@.contains_key(#[trigger] stale@[j]) && !young(
                        self@[stale@[j]],
                    ),
            decreases self.entries.len() - i,
        {
            let fresh: bool = match self.entries[i].1.get_stamp() {
                Some(t) => now.since(t) < age,
                None => false,
            };
            if !fresh {
                proof {
                    lemma_at(self.entries@, i as int);
                }
                let ghost was = stale@;
                stale.push(self.entries[i].0);
                proof {
                    assert(stale@[was.len() as int] == self.entries@[i as int].0);
                    assert forall|j: int|
                        0 <= j <= i && !young((#[trigger] self.entries@[j]).1) implies stale@.contains(
                        self.entries@[j].0,
                    ) by {
                        if j < i {
                            let p = choose|p: int| 0 <= p < was.len() && was[p] == self.entries@[j].0;
                            assert(stale@[p] == self.entries@[j].0);
                        }
                    }
                }
            }
            i += 1;
        }
        proof {
            assert forall|k: K| self@.contains_key(k) implies (stale@.to_set().contains(k) <==> !young(
                self@[k],
            )) by {
                let j = position(self.entries@, k);
                lemma_at(self.entries@, j);
                if stale@.to_set().contains(k) {
                    let p = choose|p: int| 0 <= p < stale@.len() && stale@[p] == k;
                    assert(!young(self@[stale@[p]]));
                }
            }
        }
        self.remove_all(&stale);
        assert(self@ =~= old(self)@.restrict(keys_where(old(self)@, young)));
    }
}

} // verus!
