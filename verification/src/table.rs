use vstd::prelude::*;

verus! {

/// An element of a keyed ledger table.  Each entry carries its own lookup key
/// and contributes a weight to the table's total; the engine's conservation
/// argument sums these weights.
pub trait TableEntry: Sized {
    spec fn key(self) -> u64;

    spec fn weight(self) -> int;

    /// The runtime key agrees with the specification key.
    fn key_of(&self) -> (k: u64)
        ensures
            k == self.key();
}

/// No two entries share a key.
pub open spec fn unique_keys<T: TableEntry>(s: Seq<T>) -> bool {
    forall|i: int, j: int|
        #![trigger s[i].key(), s[j].key()]
        0 <= i < j < s.len() ==> s[i].key() != s[j].key()
}

/// Some entry carries the key `k`.
pub open spec fn has_key<T: TableEntry>(s: Seq<T>, k: u64) -> bool {
    exists|i: int| 0 <= i < s.len() && #[trigger] s[i].key() == k
}

/// The index of the entry carrying `k`; meaningful only when `has_key` holds.
pub open spec fn key_index<T: TableEntry>(s: Seq<T>, k: u64) -> int {
    choose|i: int| 0 <= i < s.len() && #[trigger] s[i].key() == k
}

/// The entry carrying `k`; meaningful only when `has_key` holds.
pub open spec fn table_at<T: TableEntry>(s: Seq<T>, k: u64) -> T {
    s[key_index(s, k)]
}

/// The sum of all entry weights.
pub open spec fn table_total<T: TableEntry>(s: Seq<T>) -> int
    decreases s.len(),
{
    if s.len() == 0 {
        0
    } else {
        s[0].weight() + table_total(s.drop_first())
    }
}

/// Every entry weighs at least zero.
pub open spec fn weights_nonneg<T: TableEntry>(s: Seq<T>) -> bool {
    forall|i: int| 0 <= i < s.len() ==> #[trigger] s[i].weight() >= 0
}

/// A present key is carried by a valid index, and the entry found there
/// carries that key.
pub proof fn lemma_at_key<T: TableEntry>(s: Seq<T>, k: u64)
    requires
        has_key(s, k),
    ensures
        0 <= key_index(s, k) < s.len(),
        table_at(s, k).key() == k,
        s[key_index(s, k)] == table_at(s, k),
{
}

/// Under unique keys, lookup by an entry's own key finds exactly that entry.
pub proof fn lemma_key_at<T: TableEntry>(s: Seq<T>, i: int)
    requires
        unique_keys(s),
        0 <= i < s.len(),
    ensures
        has_key(s, s[i].key()),
        key_index(s, s[i].key()) == i,
        table_at(s, s[i].key()) == s[i],
{
    assert(has_key(s, s[i].key()));
    let j = key_index(s, s[i].key());
    if i != j {
        assert(s[i].key() != s[j].key());
    }
}

/// Replacing the entry at `i` with one carrying the same key leaves every
/// other key's presence and entry unchanged.
pub proof fn lemma_update<T: TableEntry>(s: Seq<T>, i: int, v: T)
    requires
        unique_keys(s),
        0 <= i < s.len(),
        v.key() == s[i].key(),
    ensures
        unique_keys(s.update(i, v)),
        has_key(s.update(i, v), v.key()),
        table_at(s.update(i, v), v.key()) == v,
        forall|k: u64| k != v.key() ==> #[trigger] has_key(s.update(i, v), k) == has_key(s, k),
        forall|k: u64|
            k != v.key() && has_key(s, k) ==> #[trigger] table_at(s.update(i, v), k) == table_at(
                s,
                k,
            ),
{
    let t = s.update(i, v);
    assert forall|a: int, b: int|
        #![trigger t[a].key(), t[b].key()]
        0 <= a < b < t.len() implies t[a].key() != t[b].key() by {
        assert(s[a].key() != s[b].key());
    }
    lemma_key_at(t, i);
    assert forall|k: u64| k != v.key() implies #[trigger] has_key(t, k) == has_key(s, k) by {
        if has_key(s, k) {
            let j = key_index(s, k);
            lemma_at_key(s, k);
            assert(j != i);
            assert(t[j].key() == k);
            assert(has_key(t, k));
        }
        if has_key(t, k) {
            let j = key_index(t, k);
            lemma_at_key(t, k);
            assert(j != i);
            assert(s[j].key() == k);
            assert(has_key(s, k));
        }
    }
    assert forall|k: u64| k != v.key() && has_key(s, k) implies #[trigger] table_at(t, k)
        == table_at(s, k) by {
        let j = key_index(s, k);
        lemma_at_key(s, k);
        assert(j != i);
        assert(t[j].key() == k);
        lemma_key_at(t, j);
        lemma_key_at(s, j);
    }
}

/// Appending an entry with a fresh key leaves every other key's presence and
/// entry unchanged.
pub proof fn lemma_push<T: TableEntry>(s: Seq<T>, v: T)
    requires
        unique_keys(s),
        !has_key(s, v.key()),
    ensures
        unique_keys(s.push(v)),
        has_key(s.push(v), v.key()),
        table_at(s.push(v), v.key()) == v,
        forall|k: u64| k != v.key() ==> #[trigger] has_key(s.push(v), k) == has_key(s, k),
        forall|k: u64|
            k != v.key() && has_key(s, k) ==> #[trigger] table_at(s.push(v), k) == table_at(s, k),
{
    let t = s.push(v);
    assert(t[s.len() as int] == v);
    assert forall|a: int, b: int|
        #![trigger t[a].key(), t[b].key()]
        0 <= a < b < t.len() implies t[a].key() != t[b].key() by {
        if b < s.len() {
            assert(s[a].key() != s[b].key());
        } else {
            assert(t[b] == v);
            assert(t[a] == s[a]);
            if s[a].key() == v.key() {
                assert(has_key(s, v.key()));
            }
        }
    }
    lemma_key_at(t, s.len() as int);
    assert forall|k: u64| k != v.key() implies #[trigger] has_key(t, k) == has_key(s, k) by {
        if has_key(s, k) {
            let j = key_index(s, k);
            lemma_at_key(s, k);
            assert(t[j].key() == k);
            assert(has_key(t, k));
        }
        if has_key(t, k) {
            let j = key_index(t, k);
            lemma_at_key(t, k);
            assert(j != s.len());
            assert(s[j].key() == k);
            assert(has_key(s, k));
        }
    }
    assert forall|k: u64| k != v.key() && has_key(s, k) implies #[trigger] table_at(t, k)
        == table_at(s, k) by {
        let j = key_index(s, k);
        lemma_at_key(s, k);
        assert(t[j].key() == k);
        lemma_key_at(t, j);
        lemma_key_at(s, j);
    }
}

/// Removing the entry at `i` removes exactly its key and leaves every other
/// key's presence and entry unchanged.
pub proof fn lemma_remove<T: TableEntry>(s: Seq<T>, i: int)
    requires
        unique_keys(s),
        0 <= i < s.len(),
    ensures
        unique_keys(s.remove(i)),
        !has_key(s.remove(i), s[i].key()),
        forall|k: u64| k != s[i].key() ==> #[trigger] has_key(s.remove(i), k) == has_key(s, k),
        forall|k: u64|
            k != s[i].key() && has_key(s, k) ==> #[trigger] table_at(s.remove(i), k) == table_at(
                s,
                k,
            ),
{
    let t = s.remove(i);
    assert forall|a: int, b: int|
        #![trigger t[a].key(), t[b].key()]
        0 <= a < b < t.len() implies t[a].key() != t[b].key() by {
        let a0 = if a < i { a } else { a + 1 };
        let b0 = if b < i { b } else { b + 1 };
        assert(t[a] == s[a0]);
        assert(t[b] == s[b0]);
        assert(s[a0].key() != s[b0].key());
    }
    if has_key(t, s[i].key()) {
        let j = key_index(t, s[i].key());
        lemma_at_key(t, s[i].key());
        let j0 = if j < i { j } else { j + 1 };
        assert(t[j] == s[j0]);
        assert(j0 != i);
        assert(s[j0].key() != s[i].key());
    }
    assert forall|k: u64| k != s[i].key() implies #[trigger] has_key(t, k) == has_key(s, k) by {
        if has_key(s, k) {
            let j = key_index(s, k);
            lemma_at_key(s, k);
            assert(j != i);
            let j1 = if j < i { j } else { j - 1 };
            assert(t[j1] == s[j]);
            assert(t[j1].key() == k);
            assert(has_key(t, k));
        }
        if has_key(t, k) {
            let j = key_index(t, k);
            lemma_at_key(t, k);
            let j0 = if j < i { j } else { j + 1 };
            assert(s[j0] == t[j]);
            assert(s[j0].key() == k);
            assert(has_key(s, k));
        }
    }
    assert forall|k: u64| k != s[i].key() && has_key(s, k) implies #[trigger] table_at(t, k)
        == table_at(s, k) by {
        let j = key_index(s, k);
        lemma_at_key(s, k);
        assert(j != i);
        let j1 = if j < i { j } else { j - 1 };
        assert(t[j1] == s[j]);
        assert(t[j1].key() == k);
        lemma_key_at(t, j1);
        lemma_key_at(s, j);
    }
}

/// A table of nonnegative weights has a nonnegative total.
pub proof fn lemma_total_nonneg<T: TableEntry>(s: Seq<T>)
    requires
        weights_nonneg(s),
    ensures
        table_total(s) >= 0,
    decreases s.len(),
{
    if s.len() > 0 {
        assert(weights_nonneg(s.drop_first()));
        lemma_total_nonneg(s.drop_first());
    }
}

/// Under nonnegative weights, no single entry outweighs the total.
pub proof fn lemma_weight_le_total<T: TableEntry>(s: Seq<T>, i: int)
    requires
        weights_nonneg(s),
        0 <= i < s.len(),
    ensures
        s[i].weight() <= table_total(s),
    decreases s.len(),
{
    assert(weights_nonneg(s.drop_first()));
    if i == 0 {
        lemma_total_nonneg(s.drop_first());
    } else {
        lemma_weight_le_total(s.drop_first(), i - 1);
        assert(s.drop_first()[i - 1] == s[i]);
    }
}

/// Replacing the entry at `i` shifts the total by the weight difference.
pub proof fn lemma_total_update<T: TableEntry>(s: Seq<T>, i: int, v: T)
    requires
        0 <= i < s.len(),
    ensures
        table_total(s.update(i, v)) == table_total(s) - s[i].weight() + v.weight(),
    decreases s.len(),
{
    let t = s.update(i, v);
    if i == 0 {
        assert(t.drop_first() =~= s.drop_first());
    } else {
        assert(t.drop_first() =~= s.drop_first().update(i - 1, v));
        lemma_total_update(s.drop_first(), i - 1, v);
    }
}

/// Appending an entry adds its weight to the total.
pub proof fn lemma_total_push<T: TableEntry>(s: Seq<T>, v: T)
    ensures
        table_total(s.push(v)) == table_total(s) + v.weight(),
    decreases s.len(),
{
    let t = s.push(v);
    if s.len() == 0 {
        assert(t[0] == v);
        assert(t.drop_first() =~= Seq::<T>::empty());
        assert(table_total(t.drop_first()) == 0);
    } else {
        assert(t[0] == s[0]);
        assert(t.drop_first() =~= s.drop_first().push(v));
        lemma_total_push(s.drop_first(), v);
    }
}

/// Removing the entry at `i` subtracts its weight from the total.
pub proof fn lemma_total_remove<T: TableEntry>(s: Seq<T>, i: int)
    requires
        0 <= i < s.len(),
    ensures
        table_total(s.remove(i)) == table_total(s) - s[i].weight(),
    decreases s.len(),
{
    let t = s.remove(i);
    if i == 0 {
        assert(t =~= s.drop_first());
    } else {
        assert(t.drop_first() =~= s.drop_first().remove(i - 1));
        lemma_total_remove(s.drop_first(), i - 1);
    }
}

/// Linear scan for the entry carrying `k`.
pub fn table_find<T: TableEntry>(v: &Vec<T>, k: u64) -> (r: Option<usize>)
    ensures
        match r {
            Some(i) => i < v.len() && v@[i as int].key() == k && has_key(v@, k),
            None => !has_key(v@, k),
        },
{
    let mut n: usize = 0;
    while n < v.len()
        invariant
            n <= v.len(),
            forall|j: int| 0 <= j < n ==> #[trigger] v@[j].key() != k,
        decreases v.len() - n,
    {
        if v[n].key_of() == k {
            return Some(n);
        }
        n += 1;
    }
    None
}

} // verus!
