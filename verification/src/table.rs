//! Tables keyed by text: a sequence of `(key, value)` pairs in which every key
//! occurs at most once. Inserting an existing key replaces its value and keeps
//! its position; a new key is appended.
use vstd::prelude::*;

verus! {

/// Position of the pair whose key reads `k`, or -1 when there is none.
pub open spec fn key_index<V>(t: Seq<(String, V)>, k: Seq<char>) -> int
    decreases t.len(),
{
    if t.len() == 0 {
        -1
    } else if t[0].0@ == k {
        0
    } else {
        let r = key_index(t.drop_first(), k);
        if r < 0 {
            -1
        } else {
            r + 1
        }
    }
}

/// The table `t` after inserting `v` under `k`.
pub open spec fn table_put<V>(t: Seq<(String, V)>, k: String, v: V) -> Seq<(String, V)> {
    let i = key_index(t, k@);
    if i < 0 {
        t.push((k, v))
    } else {
        t.update(i, (t[i].0, v))
    }
}

/// The table built by inserting `pairs` in order into an empty table.
pub open spec fn table_from<V>(pairs: Seq<(String, V)>) -> Seq<(String, V)>
    decreases pairs.len(),
{
    if pairs.len() == 0 {
        Seq::empty()
    } else {
        table_put(table_from(pairs.drop_last()), pairs.last().0, pairs.last().1)
    }
}

/// Whether no key occurs twice in `t`.
pub open spec fn keys_distinct<V>(t: Seq<(String, V)>) -> bool {
    forall|i: int, j: int| 0 <= i < j < t.len() ==> t[i].0@ != t[j].0@
}

/// The value stored under `k`, if any.
pub open spec fn table_get<V>(t: Seq<(String, V)>, k: Seq<char>) -> Option<V> {
    let i = key_index(t, k);
    if i < 0 {
        None
    } else {
        Some(t[i].1)
    }
}

/// `key_index` finds the first pair with key `k`, and only pairs with key `k`.
pub proof fn lemma_key_index<V>(t: Seq<(String, V)>, k: Seq<char>)
    ensures
        -1 <= key_index(t, k) < t.len(),
        key_index(t, k) >= 0 ==> t[key_index(t, k)].0@ == k,
        key_index(t, k) >= 0 ==> forall|j: int| 0 <= j < key_index(t, k) ==> t[j].0@ != k,
        key_index(t, k) < 0 ==> forall|j: int| 0 <= j < t.len() ==> t[j].0@ != k,
    decreases t.len(),
{
    if t.len() > 0 && t[0].0@ != k {
        lemma_key_index(t.drop_first(), k);
        assert forall|j: int| 0 < j < t.len() implies t[j] == t.drop_first()[j - 1] by {}
    }
}

/// Inserting keeps the keys distinct.
pub proof fn lemma_table_put_distinct<V>(t: Seq<(String, V)>, k: String, v: V)
    requires
        keys_distinct(t),
    ensures
        keys_distinct(table_put(t, k, v)),
{
    lemma_key_index(t, k@);
}

/// A table built by insertion has distinct keys.
pub proof fn lemma_table_from_distinct<V>(pairs: Seq<(String, V)>)
    ensures
        keys_distinct(table_from(pairs)),
    decreases pairs.len(),
{
    if pairs.len() > 0 {
        lemma_table_from_distinct(pairs.drop_last());
        lemma_table_put_distinct(table_from(pairs.drop_last()), pairs.last().0, pairs.last().1);
    }
}

/// Reading a key after inserting: the inserted value under the inserted key,
/// what was there before under any other key.
pub proof fn lemma_table_put_get<V>(t: Seq<(String, V)>, k: String, v: V, q: Seq<char>)
    ensures
        table_get(table_put(t, k, v), q) == if k@ == q {
            Some(v)
        } else {
            table_get(t, q)
        },
{
    let u = table_put(t, k, v);
    lemma_key_index(t, k@);
    lemma_key_index(t, q);
    lemma_key_index(u, q);
    let i = key_index(t, k@);
    let j = key_index(u, q);
    if i < 0 {
        if k@ == q {
            if j >= 0 && j < t.len() {
                assert(u[j] == t[j]);
            }
            assert(u[t.len() as int].0@ == q);
        } else {
            if j >= 0 {
                assert(u[j] == t[j]);
                let m = key_index(t, q);
                if m >= 0 && m < j {
                    assert(u[m] == t[m]);
                }
            } else {
                let m = key_index(t, q);
                if m >= 0 {
                    assert(u[m] == t[m]);
                }
            }
        }
    } else {
        if k@ == q {
            if j >= 0 && j < i {
                assert(u[j].0@ == t[j].0@);
            }
            assert(u[i].0@ == q);
        } else {
            let m = key_index(t, q);
            if j >= 0 {
                assert(u[j].0@ == t[j].0@);
                if j != i {
                    assert(u[j] == t[j]);
                }
                if m >= 0 && m < j {
                    assert(u[m].0@ == t[m].0@);
                }
            } else if m >= 0 {
                assert(u[m].0@ == t[m].0@);
            }
        }
    }
}

/// The value of the last pair with key `k`, if any.
pub open spec fn last_value<V>(pairs: Seq<(String, V)>, k: Seq<char>) -> Option<V>
    decreases pairs.len(),
{
    if pairs.len() == 0 {
        None
    } else if pairs.last().0@ == k {
        Some(pairs.last().1)
    } else {
        last_value(pairs.drop_last(), k)
    }
}

/// A table built by insertion holds, under each key, the value of the last
/// pair with that key: a later pair replaces an earlier one.
pub proof fn lemma_table_from_get<V>(pairs: Seq<(String, V)>, k: Seq<char>)
    ensures
        table_get(table_from(pairs), k) == last_value(pairs, k),
    decreases pairs.len(),
{
    if pairs.len() > 0 {
        lemma_table_from_get(pairs.drop_last(), k);
        lemma_table_put_get(table_from(pairs.drop_last()), pairs.last().0, pairs.last().1, k);
    }
}

/// Finds the position of key `k` in `t`.
pub fn find_key<V>(t: &Vec<(String, V)>, k: &String) -> (r: Option<usize>)
    ensures
        r matches Some(i) ==> i as int == key_index(t@, k@),
        r is None ==> key_index(t@, k@) < 0,
{
    proof {
        lemma_key_index(t@, k@);
    }
    let mut i: usize = 0;
    while i < t.len()
        invariant
            i <= t@.len(),
            forall|j: int| 0 <= j < i ==> t@[j].0@ != k@,
            -1 <= key_index(t@, k@) < t@.len(),
            key_index(t@, k@) >= 0 ==> t@[key_index(t@, k@)].0@ == k@,
            key_index(t@, k@) >= 0 ==> forall|j: int|
                0 <= j < key_index(t@, k@) ==> t@[j].0@ != k@,
            key_index(t@, k@) < 0 ==> forall|j: int| 0 <= j < t@.len() ==> t@[j].0@ != k@,
        decreases t.len() - i,
    {
        if t[i].0 == *k {
            return Some(i);
        }
        i = i + 1;
    }
    None
}

/// Inserts `v` under `k`: replaces the value of an existing key, or appends.
pub fn table_insert<V>(t: &mut Vec<(String, V)>, k: String, v: V)
    ensures
        final(t)@ == table_put(old(t)@, k, v),
{
    proof {
        lemma_key_index(t@, k@);
    }
    match find_key(t, &k) {
        None => {
            t.push((k, v));
        },
        Some(i) => {
            let old_key = t[i].0.clone();
            t.set(i, (old_key, v));
        },
    }
}

} // verus!
