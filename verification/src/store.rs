//! A keyed store: the contract's buckets hold values under text keys
//! (owner addresses, node identities, delegator addresses).  The store keeps
//! its entries in a vector with no key occurring twice; its model is the
//! sequence of `(key text, value)` pairs, read as a finite map through
//! `lookup`, and written through `put` and `delete`.
use vstd::prelude::*;

verus! {

/// Whether some entry of `s` is stored under `k`.
pub open spec fn has_key<V>(s: Seq<(Seq<char>, V)>, k: Seq<char>) -> bool {
    exists|i: int| 0 <= i < s.len() && #[trigger] s[i].0 == k
}

/// The position of the entry stored under `k` (meaningful when `has_key`).
pub open spec fn key_pos<V>(s: Seq<(Seq<char>, V)>, k: Seq<char>) -> int {
    choose|i: int| 0 <= i < s.len() && #[trigger] s[i].0 == k
}

/// No key occurs twice.
pub open spec fn unique_keys<V>(s: Seq<(Seq<char>, V)>) -> bool {
    forall|i: int, j: int|
        0 <= i < s.len() && 0 <= j < s.len() && i != j ==> #[trigger] s[i].0 != #[trigger] s[j].0
}

/// The value stored under `k`, if any.
pub open spec fn lookup<V>(s: Seq<(Seq<char>, V)>, k: Seq<char>) -> Option<V> {
    if has_key(s, k) {
        Some(s[key_pos(s, k)].1)
    } else {
        None
    }
}

/// `s` with `v` stored under `k`: an existing entry is overwritten in place,
/// a new key is appended.
pub open spec fn put<V>(s: Seq<(Seq<char>, V)>, k: Seq<char>, v: V) -> Seq<(Seq<char>, V)> {
    if has_key(s, k) {
        s.update(key_pos(s, k), (k, v))
    } else {
        s.push((k, v))
    }
}

/// `s` without the entry stored under `k`.
pub open spec fn delete<V>(s: Seq<(Seq<char>, V)>, k: Seq<char>) -> Seq<(Seq<char>, V)> {
    if has_key(s, k) {
        s.remove(key_pos(s, k))
    } else {
        s
    }
}

/// The sum of `f` over the values of `s`.
pub open spec fn sum_of<V>(s: Seq<(Seq<char>, V)>, f: spec_fn(V) -> int) -> int
    decreases s.len(),
{
    if s.len() == 0 {
        0
    } else {
        sum_of(s.drop_last(), f) + f(s.last().1)
    }
}

/// In a store without repeated keys, the entry at `i` is the one found under its key.
pub proof fn lemma_key_pos<V>(s: Seq<(Seq<char>, V)>, i: int)
    requires
        unique_keys(s),
        0 <= i < s.len(),
    ensures
        has_key(s, s[i].0),
        key_pos(s, s[i].0) == i,
        lookup(s, s[i].0) == Some(s[i].1),
{
    let k = s[i].0;
    assert(s[i].0 == k);
    let j = key_pos(s, k);
    assert(0 <= j < s.len() && s[j].0 == k);
}

/// Writing under `k` keeps keys unique, and afterwards `k` reads `v` while
/// every other key reads what it read before.
pub proof fn lemma_put<V>(s: Seq<(Seq<char>, V)>, k: Seq<char>, v: V)
    requires
        unique_keys(s),
    ensures
        unique_keys(put(s, k, v)),
        lookup(put(s, k, v), k) == Some(v),
        forall|k2: Seq<char>| k2 != k ==> #[trigger] lookup(put(s, k, v), k2) == lookup(s, k2),
        has_key(s, k) ==> put(s, k, v).len() == s.len(),
        !has_key(s, k) ==> put(s, k, v).len() == s.len() + 1,
{
    let t = put(s, k, v);
    if has_key(s, k) {
        let p = key_pos(s, k);
        assert(0 <= p < s.len() && s[p].0 == k);
        assert forall|i: int, j: int|
            0 <= i < t.len() && 0 <= j < t.len() && i != j implies #[trigger] t[i].0
            != #[trigger] t[j].0 by {
            if i != p && j != p {
                assert(t[i] == s[i] && t[j] == s[j]);
            } else if i == p {
                assert(t[j] == s[j]);
            } else {
                assert(t[i] == s[i]);
            }
        }
        lemma_key_pos(t, p);
        assert forall|k2: Seq<char>| k2 != k implies #[trigger] lookup(t, k2) == lookup(s, k2) by {
            if has_key(s, k2) {
                let q = key_pos(s, k2);
                assert(0 <= q < s.len() && s[q].0 == k2);
                assert(q != p);
                assert(t[q] == s[q]);
                lemma_key_pos(t, q);
            } else {
                if has_key(t, k2) {
                    let q = key_pos(t, k2);
                    assert(0 <= q < t.len() && t[q].0 == k2);
                    assert(q != p);
                    assert(t[q] == s[q]);
                    assert(s[q].0 == k2);
                }
            }
        }
    } else {
        assert forall|i: int, j: int|
            0 <= i < t.len() && 0 <= j < t.len() && i != j implies #[trigger] t[i].0
            != #[trigger] t[j].0 by {
            if i < s.len() && j < s.len() {
                assert(t[i] == s[i] && t[j] == s[j]);
            } else if i == s.len() {
                assert(t[j] == s[j]);
                assert(!(s[j].0 == k));
            } else {
                assert(t[i] == s[i]);
                assert(!(s[i].0 == k));
            }
        }
        lemma_key_pos(t, s.len() as int);
        assert forall|k2: Seq<char>| k2 != k implies #[trigger] lookup(t, k2) == lookup(s, k2) by {
            if has_key(s, k2) {
                let q = key_pos(s, k2);
                assert(0 <= q < s.len() && s[q].0 == k2);
                assert(t[q] == s[q]);
                lemma_key_pos(t, q);
            } else {
                if has_key(t, k2) {
                    let q = key_pos(t, k2);
                    assert(0 <= q < t.len() && t[q].0 == k2);
                    assert(q != s.len());
                    assert(t[q] == s[q]);
                    assert(s[q].0 == k2);
                }
            }
        }
    }
}

/// Deleting `k` keeps keys unique, and afterwards `k` reads nothing while
/// every other key reads what it read before.
pub proof fn lemma_delete<V>(s: Seq<(Seq<char>, V)>, k: Seq<char>)
    requires
        unique_keys(s),
    ensures
        unique_keys(delete(s, k)),
        lookup(delete(s, k), k) is None,
        forall|k2: Seq<char>| k2 != k ==> #[trigger] lookup(delete(s, k), k2) == lookup(s, k2),
        has_key(s, k) ==> delete(s, k).len() == s.len() - 1,
{
    let t = delete(s, k);
    if has_key(s, k) {
        let p = key_pos(s, k);
        assert(0 <= p < s.len() && s[p].0 == k);
        assert forall|i: int| 0 <= i < t.len() implies #[trigger] t[i] == (if i < p {
            s[i]
        } else {
            s[i + 1]
        }) by {}
        assert forall|i: int, j: int|
            0 <= i < t.len() && 0 <= j < t.len() && i != j implies #[trigger] t[i].0
            != #[trigger] t[j].0 by {
            let si = if i < p {
                i
            } else {
                i + 1
            };
            let sj = if j < p {
                j
            } else {
                j + 1
            };
            assert(t[i] == s[si] && t[j] == s[sj]);
        }
        if has_key(t, k) {
            let q = key_pos(t, k);
            assert(0 <= q < t.len() && t[q].0 == k);
            let sq = if q < p {
                q
            } else {
                q + 1
            };
            assert(t[q] == s[sq]);
        }
        assert forall|k2: Seq<char>| k2 != k implies #[trigger] lookup(t, k2) == lookup(s, k2) by {
            if has_key(s, k2) {
                let q = key_pos(s, k2);
                assert(0 <= q < s.len() && s[q].0 == k2);
                assert(q != p);
                let tq = if q < p {
                    q
                } else {
                    q - 1
                };
                assert(t[tq] == s[q]);
                lemma_key_pos(t, tq);
            } else {
                if has_key(t, k2) {
                    let q = key_pos(t, k2);
                    assert(0 <= q < t.len() && t[q].0 == k2);
                    let sq = if q < p {
                        q
                    } else {
                        q + 1
                    };
                    assert(t[q] == s[sq]);
                    assert(s[sq].0 == k2);
                }
            }
        }
    }
}

/// Appending an entry adds its weight to the sum.
pub proof fn lemma_sum_push<V>(s: Seq<(Seq<char>, V)>, e: (Seq<char>, V), f: spec_fn(V) -> int)
    ensures
        sum_of(s.push(e), f) == sum_of(s, f) + f(e.1),
{
    assert(s.push(e).drop_last() =~= s);
}

/// Replacing the entry at `i` changes the sum by the difference of the weights.
pub proof fn lemma_sum_update<V>(
    s: Seq<(Seq<char>, V)>,
    i: int,
    e: (Seq<char>, V),
    f: spec_fn(V) -> int,
)
    requires
        0 <= i < s.len(),
    ensures
        sum_of(s.update(i, e), f) == sum_of(s, f) - f(s[i].1) + f(e.1),
    decreases s.len(),
{
    let t = s.update(i, e);
    if i == s.len() - 1 {
        assert(t.drop_last() =~= s.drop_last());
    } else {
        lemma_sum_update(s.drop_last(), i, e, f);
        assert(t.drop_last() =~= s.drop_last().update(i, e));
    }
}

/// Removing the entry at `i` takes its weight off the sum.
pub proof fn lemma_sum_remove<V>(s: Seq<(Seq<char>, V)>, i: int, f: spec_fn(V) -> int)
    requires
        0 <= i < s.len(),
    ensures
        sum_of(s.remove(i), f) == sum_of(s, f) - f(s[i].1),
    decreases s.len(),
{
    let t = s.remove(i);
    if i == s.len() - 1 {
        assert(t =~= s.drop_last());
    } else {
        lemma_sum_remove(s.drop_last(), i, f);
        assert(t.drop_last() =~= s.drop_last().remove(i));
        assert(t.last() == s.last());
    }
}

/// The sum over the first `i + 1` entries extends the sum over the first `i`.
pub proof fn lemma_sum_take<V>(s: Seq<(Seq<char>, V)>, i: int, f: spec_fn(V) -> int)
    requires
        0 <= i < s.len(),
    ensures
        sum_of(s.take(i + 1), f) == sum_of(s.take(i), f) + f(s[i].1),
{
    assert(s.take(i + 1).drop_last() =~= s.take(i));
}

/// Writing under `k` changes the sum by the new weight minus the weight of
/// the value it replaces.
pub proof fn lemma_sum_put<V>(s: Seq<(Seq<char>, V)>, k: Seq<char>, v: V, f: spec_fn(V) -> int)
    requires
        unique_keys(s),
    ensures
        sum_of(put(s, k, v), f) == sum_of(s, f) - (if has_key(s, k) {
            f(lookup(s, k)->0)
        } else {
            0
        }) + f(v),
{
    if has_key(s, k) {
        let p = key_pos(s, k);
        assert(0 <= p < s.len() && s[p].0 == k);
        lemma_sum_update(s, p, (k, v), f);
    } else {
        lemma_sum_push(s, (k, v), f);
    }
}

/// Deleting `k` takes the weight of its value off the sum.
pub proof fn lemma_sum_delete<V>(s: Seq<(Seq<char>, V)>, k: Seq<char>, f: spec_fn(V) -> int)
    requires
        unique_keys(s),
    ensures
        sum_of(delete(s, k), f) == sum_of(s, f) - (if has_key(s, k) {
            f(lookup(s, k)->0)
        } else {
            0
        }),
{
    if has_key(s, k) {
        let p = key_pos(s, k);
        assert(0 <= p < s.len() && s[p].0 == k);
        lemma_sum_remove(s, p, f);
    }
}

/// A sum of weights that are never negative is not negative.
pub proof fn lemma_sum_nonneg<V>(s: Seq<(Seq<char>, V)>, f: spec_fn(V) -> int)
    requires
        forall|x: V| #[trigger] f(x) >= 0,
    ensures
        sum_of(s, f) >= 0,
    decreases s.len(),
{
    if s.len() > 0 {
        lemma_sum_nonneg(s.drop_last(), f);
        assert(f(s.last().1) >= 0);
    }
}

/// With weights that are never negative, a prefix sums to at most the whole.
pub proof fn lemma_sum_take_le<V>(s: Seq<(Seq<char>, V)>, i: int, f: spec_fn(V) -> int)
    requires
        0 <= i <= s.len(),
        forall|x: V| #[trigger] f(x) >= 0,
    ensures
        sum_of(s.take(i), f) <= sum_of(s, f),
    decreases s.len() - i,
{
    if i == s.len() {
        assert(s.take(i) =~= s);
    } else {
        lemma_sum_take(s, i, f);
        assert(f(s[i].1) >= 0);
        lemma_sum_take_le(s, i + 1, f);
    }
}

/// Changing only the values keeps the keys: the same keys are present, and
/// they stay unique.
pub proof fn lemma_same_keys<V, W>(s: Seq<(Seq<char>, V)>, t: Seq<(Seq<char>, W)>)
    requires
        s.len() == t.len(),
        forall|i: int| 0 <= i < s.len() ==> #[trigger] s[i].0 == t[i].0,
    ensures
        forall|k: Seq<char>| #[trigger] has_key(t, k) == has_key(s, k),
        unique_keys(s) ==> unique_keys(t),
{
    assert forall|k: Seq<char>| #[trigger] has_key(t, k) == has_key(s, k) by {
        if has_key(s, k) {
            let p = key_pos(s, k);
            assert(0 <= p < s.len() && s[p].0 == k);
            assert(t[p].0 == k);
        }
        if has_key(t, k) {
            let p = key_pos(t, k);
            assert(0 <= p < t.len() && t[p].0 == k);
            assert(s[p].0 == k);
        }
    }
    if unique_keys(s) {
        assert forall|i: int, j: int|
            0 <= i < t.len() && 0 <= j < t.len() && i != j implies #[trigger] t[i].0
            != #[trigger] t[j].0 by {
            assert(s[i].0 == t[i].0 && s[j].0 == t[j].0);
        }
    }
}

/// The entries stored under `k` in a store of stores (none if `k` is absent).
pub open spec fn bucket<V>(s: Seq<(Seq<char>, Seq<(Seq<char>, V)>)>, k: Seq<char>) -> Seq<
    (Seq<char>, V),
> {
    match lookup(s, k) {
        Some(b) => b,
        None => Seq::empty(),
    }
}

/// `s` with `x` stored under `k2` in the bucket `k`.
pub open spec fn put_in_bucket<V>(
    s: Seq<(Seq<char>, Seq<(Seq<char>, V)>)>,
    k: Seq<char>,
    k2: Seq<char>,
    x: V,
) -> Seq<(Seq<char>, Seq<(Seq<char>, V)>)> {
    put(s, k, put(bucket(s, k), k2, x))
}

/// `s` without the entry `k2` of the bucket `k`.
pub open spec fn delete_in_bucket<V>(
    s: Seq<(Seq<char>, Seq<(Seq<char>, V)>)>,
    k: Seq<char>,
    k2: Seq<char>,
) -> Seq<(Seq<char>, Seq<(Seq<char>, V)>)> {
    if has_key(s, k) {
        put(s, k, delete(bucket(s, k), k2))
    } else {
        s
    }
}

/// Storing `x` under `k2` in the bucket `k` keeps every store's keys unique,
/// and changes what the buckets hold only at (`k`, `k2`).
pub proof fn lemma_put_in_bucket<V>(
    s: Seq<(Seq<char>, Seq<(Seq<char>, V)>)>,
    k: Seq<char>,
    k2: Seq<char>,
    x: V,
)
    requires
        unique_keys(s),
        forall|kk: Seq<char>| #[trigger] unique_keys(bucket(s, kk)),
    ensures
        unique_keys(put_in_bucket(s, k, k2, x)),
        forall|kk: Seq<char>| #[trigger] unique_keys(bucket(put_in_bucket(s, k, k2, x), kk)),
        lookup(bucket(put_in_bucket(s, k, k2, x), k), k2) == Some(x),
        forall|kk: Seq<char>, kk2: Seq<char>|
            !(kk == k && kk2 == k2) ==> #[trigger] lookup(
                bucket(put_in_bucket(s, k, k2, x), kk),
                kk2,
            ) == lookup(bucket(s, kk), kk2),
        forall|kk: Seq<char>, kk2: Seq<char>|
            #[trigger] has_key(bucket(put_in_bucket(s, k, k2, x), kk), kk2) == ((kk == k && kk2
                == k2) || has_key(bucket(s, kk), kk2)),
{
    let b = bucket(s, k);
    let nb = put(b, k2, x);
    assert(unique_keys(b));
    lemma_put(b, k2, x);
    lemma_put(s, k, nb);
    let t = put_in_bucket(s, k, k2, x);
    assert(bucket(t, k) == nb);
    assert forall|kk: Seq<char>| #[trigger] unique_keys(bucket(t, kk)) by {
        if kk != k {
            assert(bucket(t, kk) == bucket(s, kk));
        }
    }
    assert forall|kk: Seq<char>, kk2: Seq<char>| !(kk == k && kk2 == k2) implies #[trigger] lookup(
        bucket(t, kk),
        kk2,
    ) == lookup(bucket(s, kk), kk2) by {
        if kk != k {
            assert(bucket(t, kk) == bucket(s, kk));
        }
    }
    assert forall|kk: Seq<char>, kk2: Seq<char>| #[trigger] has_key(bucket(t, kk), kk2) == ((kk
        == k && kk2 == k2) || has_key(bucket(s, kk), kk2)) by {
        if kk != k {
            assert(bucket(t, kk) == bucket(s, kk));
        } else if kk2 != k2 {
            assert(lookup(nb, kk2) == lookup(b, kk2));
        }
    }
}

/// Deleting the entry `k2` of the bucket `k` keeps every store's keys
/// unique, and removes from the buckets exactly (`k`, `k2`).
pub proof fn lemma_delete_in_bucket<V>(s: Seq<(Seq<char>, Seq<(Seq<char>, V)>)>, k: Seq<char>, k2: Seq<char>)
    requires
        unique_keys(s),
        forall|kk: Seq<char>| #[trigger] unique_keys(bucket(s, kk)),
    ensures
        unique_keys(delete_in_bucket(s, k, k2)),
        forall|kk: Seq<char>| #[trigger] unique_keys(bucket(delete_in_bucket(s, k, k2), kk)),
        forall|kk: Seq<char>, kk2: Seq<char>|
            #[trigger] has_key(bucket(delete_in_bucket(s, k, k2), kk), kk2) == (!(kk == k && kk2
                == k2) && has_key(bucket(s, kk), kk2)),
{
    let t = delete_in_bucket(s, k, k2);
    if has_key(s, k) {
        let b = bucket(s, k);
        let nb = delete(b, k2);
        assert(unique_keys(b));
        lemma_delete(b, k2);
        lemma_put(s, k, nb);
        assert(bucket(t, k) == nb);
        assert forall|kk: Seq<char>| #[trigger] unique_keys(bucket(t, kk)) by {
            if kk != k {
                assert(bucket(t, kk) == bucket(s, kk));
            }
        }
        assert forall|kk: Seq<char>, kk2: Seq<char>| #[trigger] has_key(bucket(t, kk), kk2) == (!(kk
            == k && kk2 == k2) && has_key(bucket(s, kk), kk2)) by {
            if kk != k {
                assert(bucket(t, kk) == bucket(s, kk));
            } else if kk2 != k2 {
                assert(lookup(nb, kk2) == lookup(b, kk2));
            }
        }
    } else {
        assert forall|kk: Seq<char>, kk2: Seq<char>| #[trigger] has_key(bucket(t, kk), kk2) == (!(kk
            == k && kk2 == k2) && has_key(bucket(s, kk), kk2)) by {
            if kk == k {
                assert(bucket(s, kk) == Seq::<(Seq<char>, V)>::empty());
            }
        }
    }
}

/// Key/value pairs under text keys, no key twice.
pub struct KeyedStore<V> {
    entries: Vec<(String, V)>,
}

impl<V: View> View for KeyedStore<V> {
    type V = Seq<(Seq<char>, V::V)>;

    /// The entries, each key and value taken by its view.
    closed spec fn view(&self) -> Seq<(Seq<char>, V::V)> {
        self.entries@.map_values(|e: (String, V)| (e.0@, e.1@))
    }
}

impl<V: View> KeyedStore<V> {
    /// The store's invariant: no key occurs twice.
    pub open spec fn wf(&self) -> bool {
        unique_keys(self@)
    }

    /// An empty store.
    pub fn new() -> (r: Self)
        ensures
            r@ == Seq::<(Seq<char>, V::V)>::empty(),
            r.wf(),
    {
        let r = KeyedStore { entries: Vec::new() };
        assert(r@ =~= Seq::<(Seq<char>, V::V)>::empty());
        r
    }

    /// The number of entries.
    pub fn len(&self) -> (n: usize)
        ensures
            n == self@.len(),
    {
        self.entries.len()
    }

    /// The key of the entry at `i`.
    pub fn key_at(&self, i: usize) -> (k: &String)
        requires
            i < self@.len(),
        ensures
            k@ == self@[i as int].0,
    {
        &self.entries[i].0
    }

    /// The value of the entry at `i`.
    pub fn value_at(&self, i: usize) -> (v: &V)
        requires
            i < self@.len(),
        ensures
            v@ == self@[i as int].1,
    {
        &self.entries[i].1
    }

    /// The position of the entry stored under `k`, if any.
    pub fn find(&self, k: &String) -> (r: Option<usize>)
        requires
            self.wf(),
        ensures
            match r {
                Some(i) => {
                    &&& i < self@.len()
                    &&& self@[i as int].0 == k@
                    &&& has_key(self@, k@)
                    &&& key_pos(self@, k@) == i
                },
                None => !has_key(self@, k@),
            },
    {
        let mut i: usize = 0;
        while i < self.entries.len()
            invariant
                i <= self.entries@.len(),
                self.wf(),
                forall|j: int| 0 <= j < i ==> #[trigger] self@[j].0 != k@,
            decreases self.entries@.len() - i,
        {
            if self.entries[i].0 == *k {
                proof {
                    lemma_key_pos(self@, i as int);
                }
                return Some(i);
            }
            i = i + 1;
        }
        proof {
            if has_key(self@, k@) {
                let p = key_pos(self@, k@);
                assert(0 <= p < self@.len() && self@[p].0 == k@);
            }
        }
        None
    }

    /// Whether some entry is stored under `k`.
    pub fn contains_key(&self, k: &String) -> (b: bool)
        requires
            self.wf(),
        ensures
            b == has_key(self@, k@),
    {
        self.find(k).is_some()
    }

    /// The value stored under `k`, if any.
    pub fn get(&self, k: &String) -> (r: Option<&V>)
        requires
            self.wf(),
        ensures
            match r {
                Some(v) => lookup(self@, k@) == Some(v@),
                None => lookup(self@, k@) is None,
            },
    {
        match self.find(k) {
            Some(i) => Some(&self.entries[i].1),
            None => None,
        }
    }

    /// Stores `v` under `k`, overwriting an existing entry in place.
    pub fn insert(&mut self, k: String, v: V)
        requires
            old(self).wf(),
        ensures
            final(self)@ == put(old(self)@, k@, v@),
            final(self).wf(),
    {
        proof {
            lemma_put(self@, k@, v@);
        }
        let ghost kv = k@;
        let ghost vv = v@;
        match self.find(&k) {
            Some(i) => {
                self.entries[i] = (k, v);
                assert(self@ =~= old(self)@.update(i as int, (kv, vv)));
            },
            None => {
                self.entries.push((k, v));
                assert(self@ =~= old(self)@.push((kv, vv)));
            },
        }
    }

    /// Takes out the value stored under `k`, if any.
    pub fn remove(&mut self, k: &String) -> (r: Option<V>)
        requires
            old(self).wf(),
        ensures
            match r {
                Some(v) => lookup(old(self)@, k@) == Some(v@),
                None => lookup(old(self)@, k@) is None,
            },
            final(self)@ == delete(old(self)@, k@),
            final(self).wf(),
    {
        proof {
            lemma_delete(self@, k@);
        }
        match self.find(k) {
            Some(i) => {
                let e = self.entries.remove(i);
                assert(self@ =~= old(self)@.remove(i as int));
                Some(e.1)
            },
            None => None,
        }
    }

    /// Takes out the entry at `i`, key and value; no other entry has its key.
    pub fn take_at(&mut self, i: usize) -> (e: (String, V))
        requires
            i < old(self)@.len(),
            old(self).wf(),
        ensures
            (e.0@, e.1@) == old(self)@[i as int],
            final(self)@ == old(self)@.remove(i as int),
            final(self).wf(),
            !has_key(final(self)@, e.0@),
    {
        let e = self.entries.remove(i);
        assert(self@ =~= old(self)@.remove(i as int));
        proof {
            lemma_key_pos(old(self)@, i as int);
            lemma_delete(old(self)@, e.0@);
        }
        e
    }

    /// Puts an entry back at `i`, under a key that no entry has.
    pub fn put_back_at(&mut self, i: usize, k: String, v: V)
        requires
            i <= old(self)@.len(),
            old(self).wf(),
            !has_key(old(self)@, k@),
        ensures
            final(self)@ == old(self)@.insert(i as int, (k@, v@)),
            final(self).wf(),
    {
        let ghost kv = k@;
        let ghost vv = v@;
        self.entries.insert(i, (k, v));
        assert(self@ =~= old(self)@.insert(i as int, (kv, vv)));
        proof {
            assert forall|a: int, b: int|
                0 <= a < self@.len() && 0 <= b < self@.len() && a != b implies #[trigger] self@[a].0
                != #[trigger] self@[b].0 by {
                if a != i && b != i {
                    let oa = if a < i { a } else { a - 1 };
                    let ob = if b < i { b } else { b - 1 };
                    assert(self@[a] == old(self)@[oa] && self@[b] == old(self)@[ob]);
                } else if a == i {
                    let ob = if b < i { b } else { b - 1 };
                    assert(self@[b] == old(self)@[ob]);
                } else {
                    let oa = if a < i { a } else { a - 1 };
                    assert(self@[a] == old(self)@[oa]);
                }
            }
        }
    }

    /// Replaces the value of the entry at `i`, keeping its key.
    pub fn set_value_at(&mut self, i: usize, v: V)
        requires
            i < old(self)@.len(),
        ensures
            final(self)@ == old(self)@.update(i as int, (old(self)@[i as int].0, v@)),
            old(self).wf() ==> final(self).wf(),
    {
        let ghost vv = v@;
        let k = self.entries.remove(i);
        self.entries.insert(i, (k.0, v));
        assert(self@ =~= old(self)@.update(i as int, (old(self)@[i as int].0, vv)));
        proof {
            if old(self).wf() {
                assert forall|a: int, b: int|
                    0 <= a < self@.len() && 0 <= b < self@.len() && a != b implies #[trigger] self@[a].0
                    != #[trigger] self@[b].0 by {
                    assert(self@[a].0 == old(self)@[a].0);
                    assert(self@[b].0 == old(self)@[b].0);
                }
            }
        }
    }
}

/// A store of stores: each key names a bucket of entries.
impl<V: View> KeyedStore<KeyedStore<V>> {
    /// The invariant of a store of stores: no key twice, in the store or in
    /// any bucket.
    pub open spec fn nested_wf(&self) -> bool {
        &&& unique_keys(self@)
        &&& forall|k: Seq<char>| #[trigger] unique_keys(bucket(self@, k))
    }

    /// The value stored under `k2` in the bucket `k`, if any.
    pub fn get_in_bucket(&self, k: &String, k2: &String) -> (r: Option<&V>)
        requires
            self.nested_wf(),
        ensures
            match r {
                Some(x) => lookup(bucket(self@, k@), k2@) == Some(x@),
                None => lookup(bucket(self@, k@), k2@) is None,
            },
    {
        match self.get(k) {
            Some(b) => {
                assert(b@ == bucket(self@, k@));
                b.get(k2)
            },
            None => None,
        }
    }

    /// Stores `x` under `k2` in the bucket `k`, creating the bucket if need be.
    pub fn insert_in_bucket(&mut self, k: String, k2: String, x: V)
        requires
            old(self).nested_wf(),
        ensures
            final(self)@ == put_in_bucket(old(self)@, k@, k2@, x@),
            final(self).nested_wf(),
    {
        proof {
            lemma_put_in_bucket(self@, k@, k2@, x@);
        }
        match self.find(&k) {
            Some(i) => {
                let (key, mut b) = self.take_at(i);
                assert(b@ == bucket(old(self)@, k@));
                b.insert(k2, x);
                self.put_back_at(i, key, b);
                assert(self@ =~= old(self)@.update(i as int, (k@, b@)));
            },
            None => {
                let mut b = KeyedStore::new();
                b.insert(k2, x);
                assert(b@ == put(bucket(old(self)@, k@), k2@, x@));
                self.insert(k, b);
            },
        }
    }

    /// Takes out the value stored under `k2` in the bucket `k`, if any; the
    /// bucket stays, empty or not.
    pub fn remove_in_bucket(&mut self, k: &String, k2: &String) -> (r: Option<V>)
        requires
            old(self).nested_wf(),
        ensures
            match r {
                Some(x) => lookup(bucket(old(self)@, k@), k2@) == Some(x@),
                None => lookup(bucket(old(self)@, k@), k2@) is None,
            },
            lookup(bucket(old(self)@, k@), k2@) is Some ==> final(self)@ == delete_in_bucket(
                old(self)@,
                k@,
                k2@,
            ),
            lookup(bucket(old(self)@, k@), k2@) is None ==> final(self)@ == old(self)@,
            final(self).nested_wf(),
    {
        proof {
            lemma_delete_in_bucket(self@, k@, k2@);
        }
        match self.find(k) {
            Some(i) => {
                assert(self@[i as int].1 == bucket(old(self)@, k@));
                if self.value_at(i).contains_key(k2) {
                    let (key, mut b) = self.take_at(i);
                    let r = b.remove(k2);
                    self.put_back_at(i, key, b);
                    assert(self@ =~= old(self)@.update(i as int, (k@, b@)));
                    r
                } else {
                    None
                }
            },
            None => None,
        }
    }
}

} // verus!
