use vstd::prelude::*;
use vstd::string::*;

verus! {

/// No two items of `s` share a key.
pub open spec fn keys_unique<V>(s: Seq<(String, V)>) -> bool {
    forall|i: int, j: int|
        0 <= i < s.len() && 0 <= j < s.len() && i != j ==> (#[trigger] s[i]).0@ != (#[trigger] s[j]).0@
}

pub open spec fn has_key<V>(s: Seq<(String, V)>, k: Seq<char>) -> bool {
    exists|i: int| 0 <= i < s.len() && (#[trigger] s[i]).0@ == k
}

/// The items of `s` as a map from key to value.
pub open spec fn entry_map<V>(s: Seq<(String, V)>) -> Map<Seq<char>, V> {
    Map::new(
        |k: Seq<char>| has_key(s, k),
        |k: Seq<char>| s[choose|i: int| 0 <= i < s.len() && (#[trigger] s[i]).0@ == k].1,
    )
}

pub proof fn lemma_map_at<V>(s: Seq<(String, V)>, i: int)
    requires
        keys_unique(s),
        0 <= i < s.len(),
    ensures
        entry_map(s).contains_key(s[i].0@),
        entry_map(s)[s[i].0@] == s[i].1,
{
    let k = s[i].0@;
    assert(has_key(s, k));
    let j = choose|j: int| 0 <= j < s.len() && (#[trigger] s[j]).0@ == k;
    assert(i == j);
}

pub proof fn lemma_remove_keeps_unique<V>(s: Seq<(String, V)>, i: int)
    requires
        keys_unique(s),
        0 <= i < s.len(),
    ensures
        keys_unique(s.remove(i)),
        forall|a: int|
            0 <= a < s.remove(i).len() ==> #[trigger] s.remove(i)[a] == if a < i {
                s[a]
            } else {
                s[a + 1]
            },
{
    let t = s.remove(i);
    assert forall|a: int, b: int| 0 <= a < t.len() && 0 <= b < t.len() && a != b implies
        (#[trigger] t[a]).0@ != (#[trigger] t[b]).0@ by {
        let a2 = if a < i { a } else { a + 1 };
        let b2 = if b < i { b } else { b + 1 };
        assert(t[a] == s[a2] && t[b] == s[b2]);
    }
}

/// Index of the item keyed `key`.
pub fn find_key<V>(s: &Vec<(String, V)>, key: &String) -> (r: Option<usize>)
    requires
        keys_unique(s@),
    ensures
        r is None <==> !entry_map(s@).contains_key(key@),
        r matches Some(i) ==> i < s@.len() && s@[i as int].0@ == key@ && entry_map(s@)[key@]
            == s@[i as int].1,
{
    let n = s.len();
    let mut i: usize = 0;
    while i < n
        invariant
            n == s@.len(),
            i <= n,
            keys_unique(s@),
            forall|j: int| 0 <= j < i ==> (#[trigger] s@[j]).0@ != key@,
        decreases n - i,
    {
        if s[i].0 == *key {
            proof {
                lemma_map_at(s@, i as int);
            }
            return Some(i);
        }
        i = i + 1;
    }
    None
}

/// Sets the value of `key`, adding it if absent.
pub fn put_key<V>(s: &mut Vec<(String, V)>, key: String, value: V)
    requires
        keys_unique(old(s)@),
    ensures
        keys_unique(final(s)@),
        entry_map(final(s)@) == entry_map(old(s)@).insert(key@, value),
{
    let ghost before = s@;
    let ghost k0 = key@;
    match find_key(s, &key) {
        Some(i) => {
            s.set(i, (key, value));
            proof {
                let t = s@;
                assert(keys_unique(t)) by {
                    assert forall|a: int, b: int|
                        0 <= a < t.len() && 0 <= b < t.len() && a != b implies (#[trigger] t[a]).0@
                        != (#[trigger] t[b]).0@ by {
                        assert(before[a].0@ != before[b].0@);
                    }
                }
                assert forall|k: Seq<char>| #[trigger]
                    has_key(t, k) == (has_key(before, k) || k == k0) by {
                    if has_key(before, k) {
                        let j = choose|j: int| 0 <= j < before.len() && (#[trigger] before[j]).0@ == k;
                        assert(t[j].0@ == k);
                    }
                    if has_key(t, k) {
                        let j = choose|j: int| 0 <= j < t.len() && (#[trigger] t[j]).0@ == k;
                        if j != i {
                            assert(before[j].0@ == k);
                        }
                    }
                    if k == k0 {
                        assert(t[i as int].0@ == k);
                    }
                }
                assert forall|k: Seq<char>| #[trigger] has_key(t, k) implies entry_map(t)[k]
                    == entry_map(before).insert(k0, value)[k] by {
                    let j = choose|j: int| 0 <= j < t.len() && (#[trigger] t[j]).0@ == k;
                    lemma_map_at(t, j);
                    if j != i {
                        lemma_map_at(before, j);
                    }
                }
                assert(entry_map(t) =~= entry_map(before).insert(k0, value));
            }
        },
        None => {
            s.push((key, value));
            proof {
                let t = s@;
                let n = before.len();
                assert(keys_unique(t)) by {
                    assert forall|a: int, b: int|
                        0 <= a < t.len() && 0 <= b < t.len() && a != b implies (#[trigger] t[a]).0@
                        != (#[trigger] t[b]).0@ by {
                        if a < n && b < n {
                            assert(before[a].0@ != before[b].0@);
                        } else if a < n {
                            assert(has_key(before, t[a].0@));
                        } else {
                            assert(has_key(before, t[b].0@));
                        }
                    }
                }
                assert forall|k: Seq<char>| #[trigger]
                    has_key(t, k) == (has_key(before, k) || k == k0) by {
                    if has_key(before, k) {
                        let j = choose|j: int| 0 <= j < before.len() && (#[trigger] before[j]).0@ == k;
                        assert(t[j].0@ == k);
                    }
                    if has_key(t, k) {
                        let j = choose|j: int| 0 <= j < t.len() && (#[trigger] t[j]).0@ == k;
                        if j < n {
                            assert(before[j].0@ == k);
                        }
                    }
                    if k == k0 {
                        assert(t[n as int].0@ == k);
                    }
                }
                assert forall|k: Seq<char>| #[trigger] has_key(t, k) implies entry_map(t)[k]
                    == entry_map(before).insert(k0, value)[k] by {
                    let j = choose|j: int| 0 <= j < t.len() && (#[trigger] t[j]).0@ == k;
                    lemma_map_at(t, j);
                    if j < n {
                        lemma_map_at(before, j);
                    }
                }
                assert(entry_map(t) =~= entry_map(before).insert(k0, value));
            }
        },
    }
}

/// Removes the item keyed `key`, if any, and hands its value back.
pub fn remove_key<V>(s: &mut Vec<(String, V)>, key: &String) -> (r: Option<V>)
    requires
        keys_unique(old(s)@),
    ensures
        keys_unique(final(s)@),
        entry_map(final(s)@) == entry_map(old(s)@).remove(key@),
        r is Some <==> entry_map(old(s)@).contains_key(key@),
        r matches Some(v) ==> v == entry_map(old(s)@)[key@],
{
    let ghost before = s@;
    match find_key(s, key) {
        None => {
            assert(entry_map(before) =~= entry_map(before).remove(key@));
            None
        },
        Some(i) => {
            proof {
                lemma_remove_keeps_unique(before, i as int);
            }
            let (_, v) = s.remove(i);
            proof {
                let t = s@;
                assert forall|k: Seq<char>| #[trigger]
                    has_key(t, k) == (has_key(before, k) && k != key@) by {
                    if has_key(before, k) && k != key@ {
                        let j = choose|j: int| 0 <= j < before.len() && (#[trigger] before[j]).0@ == k;
                        if j < i {
                            assert(t[j].0@ == k);
                        } else {
                            assert(j != i);
                            assert(t[j - 1].0@ == k);
                        }
                    }
                    if has_key(t, k) {
                        let j = choose|j: int| 0 <= j < t.len() && (#[trigger] t[j]).0@ == k;
                        let j2 = if j < i { j } else { j + 1 };
                        assert(t[j] == before[j2]);
                        assert(before[j2].0@ != before[i as int].0@);
                    }
                }
                assert forall|k: Seq<char>| #[trigger] has_key(t, k) implies entry_map(t)[k]
                    == entry_map(before).remove(key@)[k] by {
                    let j = choose|j: int| 0 <= j < t.len() && (#[trigger] t[j]).0@ == k;
                    lemma_map_at(t, j);
                    let j2 = if j < i { j } else { j + 1 };
                    assert(t[j] == before[j2]);
                    lemma_map_at(before, j2);
                }
                assert(entry_map(t) =~= entry_map(before).remove(key@));
            }
            Some(v)
        },
    }
}

} // verus!
