//! Lists of entries and the maps that they stand for.
//!
//! A list of pairs in which no key occurs twice stands for a finite map.
//! Keys are told apart by their views. The lemmas say what pushing,
//! replacing and removing an entry do to the map; the functions look a key
//! up, change the list, and join one list into another.

use crate::domain::Value;
use crate::error::Error;
use vstd::prelude::*;

verus! {

/// No key occurs twice among the entries.
pub open spec fn keys_distinct<K: View, V>(entries: Seq<(K, V)>) -> bool {
    forall|i: int, j: int|
        0 <= i < j < entries.len() ==> (#[trigger] entries[i]).0@ != (#[trigger] entries[j]).0@
}

/// One of the first `n` entries is for the key `key`.
pub open spec fn holds_within<K: View, V>(entries: Seq<(K, V)>, n: int, key: K::V) -> bool {
    exists|i: int| 0 <= i < n && i < entries.len() && (#[trigger] entries[i]).0@ == key
}

/// One of the entries is for the key `key`.
pub open spec fn holds<K: View, V>(entries: Seq<(K, V)>, key: K::V) -> bool {
    holds_within(entries, entries.len() as int, key)
}

/// The place of an entry for the key `key`.
pub open spec fn slot<K: View, V>(entries: Seq<(K, V)>, key: K::V) -> int {
    choose|i: int| 0 <= i < entries.len() && (#[trigger] entries[i]).0@ == key
}

/// The map that a list of entries stands for.
pub open spec fn entries_map<K: View, V: View>(entries: Seq<(K, V)>) -> Map<K::V, V::V> {
    Map::new(
        |key: K::V| holds(entries, key),
        |key: K::V| entries[slot(entries, key)].1@,
    )
}

/// In a list without repeated keys, the map holds each entry's value under
/// the entry's key.
pub proof fn lemma_entry<K: View, V: View>(entries: Seq<(K, V)>, i: int)
    requires
        keys_distinct(entries),
        0 <= i < entries.len(),
    ensures
        entries_map(entries).contains_key(entries[i].0@),
        entries_map(entries)[entries[i].0@] == entries[i].1@,
{
    let key = entries[i].0@;
    assert(holds(entries, key));
    let j = slot(entries, key);
    assert(0 <= j < entries.len() && entries[j].0@ == key);
    if j != i {
        assert(entries[i].0@ != entries[j].0@);
    }
}

/// A key that no entry is for is not in the map.
pub proof fn lemma_absent<K: View, V: View>(entries: Seq<(K, V)>, key: K::V)
    requires
        forall|i: int| 0 <= i < entries.len() ==> (#[trigger] entries[i]).0@ != key,
    ensures
        !entries_map(entries).contains_key(key),
{
}

/// Appending an entry for a new key inserts it into the map.
pub proof fn lemma_push<K: View, V: View>(entries: Seq<(K, V)>, key: K, value: V)
    requires
        keys_distinct(entries),
        !entries_map(entries).contains_key(key@),
    ensures
        keys_distinct(entries.push((key, value))),
        entries_map(entries.push((key, value))) == entries_map(entries).insert(key@, value@),
{
    let longer = entries.push((key, value));
    let last = entries.len() as int;
    assert forall|i: int, j: int| 0 <= i < j < longer.len() implies (#[trigger] longer[i]).0@ != (
    #[trigger] longer[j]).0@ by {
        if j == last {
            assert(longer[i] == entries[i]);
            if entries[i].0@ == key@ {
                assert(holds(entries, key@));
            }
        } else {
            assert(longer[i] == entries[i]);
            assert(longer[j] == entries[j]);
        }
    }
    let before = entries_map(entries);
    let after = entries_map(longer);
    assert forall|k: K::V| after.contains_key(k) <==> before.insert(
        key@,
        value@,
    ).contains_key(k) by {
        if holds(longer, k) {
            let i = choose|i: int| 0 <= i < longer.len() && (#[trigger] longer[i]).0@ == k;
            if i != last {
                assert(entries[i] == longer[i]);
                assert(holds(entries, k));
            }
        }
        if holds(entries, k) {
            let i = choose|i: int| 0 <= i < entries.len() && (#[trigger] entries[i]).0@ == k;
            assert(longer[i] == entries[i]);
            assert(holds(longer, k));
        }
        if k == key@ {
            assert(longer[last].0@ == k);
            assert(holds(longer, k));
        }
    }
    assert forall|k: K::V| after.contains_key(k) implies after[k] == before.insert(
        key@,
        value@,
    )[k] by {
        let i = slot(longer, k);
        assert(0 <= i < longer.len() && longer[i].0@ == k);
        lemma_entry(longer, i);
        if i != last {
            assert(longer[i] == entries[i]);
            lemma_entry(entries, i);
        }
    }
    assert(after =~= before.insert(key@, value@));
}

/// Replacing the entry of a key by another entry for the same key replaces
/// its value in the map.
pub proof fn lemma_update<K: View, V: View>(entries: Seq<(K, V)>, at: int, key: K, value: V)
    requires
        keys_distinct(entries),
        0 <= at < entries.len(),
        entries[at].0@ == key@,
    ensures
        keys_distinct(entries.update(at, (key, value))),
        entries_map(entries.update(at, (key, value))) == entries_map(entries).insert(
            key@,
            value@,
        ),
{
    let changed = entries.update(at, (key, value));
    assert forall|i: int, j: int| 0 <= i < j < changed.len() implies (#[trigger] changed[i]).0@
        != (#[trigger] changed[j]).0@ by {
        assert(changed[i].0@ == entries[i].0@);
        assert(changed[j].0@ == entries[j].0@);
    }
    let before = entries_map(entries);
    let after = entries_map(changed);
    assert forall|k: K::V| after.contains_key(k) <==> before.insert(
        key@,
        value@,
    ).contains_key(k) by {
        if holds(changed, k) {
            let i = choose|i: int| 0 <= i < changed.len() && (#[trigger] changed[i]).0@ == k;
            assert(entries[i].0@ == changed[i].0@);
            assert(holds(entries, k));
        }
        if holds(entries, k) {
            let i = choose|i: int| 0 <= i < entries.len() && (#[trigger] entries[i]).0@ == k;
            assert(changed[i].0@ == entries[i].0@);
            assert(holds(changed, k));
        }
        if k == key@ {
            assert(changed[at].0@ == k);
            assert(holds(changed, k));
        }
    }
    assert forall|k: K::V| after.contains_key(k) implies after[k] == before.insert(
        key@,
        value@,
    )[k] by {
        let i = slot(changed, k);
        assert(0 <= i < changed.len() && changed[i].0@ == k);
        lemma_entry(changed, i);
        if i != at {
            assert(changed[i] == entries[i]);
            lemma_entry(entries, i);
            assert(entries[i].0@ != entries[at].0@);
        }
    }
    assert(after =~= before.insert(key@, value@));
}

/// Taking an entry out of the list removes its key from the map.
pub proof fn lemma_remove<K: View, V: View>(entries: Seq<(K, V)>, at: int)
    requires
        keys_distinct(entries),
        0 <= at < entries.len(),
    ensures
        keys_distinct(entries.remove(at)),
        entries_map(entries.remove(at)) == entries_map(entries).remove(entries[at].0@),
{
    let shorter = entries.remove(at);
    let gone = entries[at].0@;
    assert forall|i: int| 0 <= i < shorter.len() implies #[trigger] shorter[i] == entries[if i
        < at {
        i
    } else {
        i + 1
    }] by {}
    assert forall|i: int, j: int| 0 <= i < j < shorter.len() implies (#[trigger] shorter[i]).0@
        != (#[trigger] shorter[j]).0@ by {
        let from_i = if i < at { i } else { i + 1 };
        let from_j = if j < at { j } else { j + 1 };
        assert(shorter[i] == entries[from_i]);
        assert(shorter[j] == entries[from_j]);
    }
    let before = entries_map(entries);
    let after = entries_map(shorter);
    assert forall|k: K::V| after.contains_key(k) <==> before.remove(gone).contains_key(
        k,
    ) by {
        if holds(shorter, k) {
            let i = choose|i: int| 0 <= i < shorter.len() && (#[trigger] shorter[i]).0@ == k;
            let from = if i < at { i } else { i + 1 };
            assert(shorter[i] == entries[from]);
            assert(entries[from].0@ == k);
            assert(holds(entries, k));
            if from < at {
                assert(entries[from].0@ != entries[at].0@);
            } else {
                assert(entries[at].0@ != entries[from].0@);
            }
        }
        if holds(entries, k) && k != gone {
            let i = choose|i: int| 0 <= i < entries.len() && (#[trigger] entries[i]).0@ == k;
            let to = if i < at { i } else { i - 1 };
            assert(shorter[to] == entries[i]);
            assert(holds(shorter, k));
        }
    }
    assert forall|k: K::V| after.contains_key(k) implies after[k] == before.remove(
        gone,
    )[k] by {
        let i = slot(shorter, k);
        assert(0 <= i < shorter.len() && shorter[i].0@ == k);
        lemma_entry(shorter, i);
        let from = if i < at { i } else { i + 1 };
        assert(shorter[i] == entries[from]);
        lemma_entry(entries, from);
    }
    assert(after =~= before.remove(gone));
}

/// Two lists that agree entry by entry, up to views, stand for one map.
pub proof fn lemma_same_views<K: View, V: View>(a: Seq<(K, V)>, b: Seq<(K, V)>)
    requires
        keys_distinct(a),
        a.len() == b.len(),
        forall|i: int|
            0 <= i < a.len() ==> (#[trigger] a[i]).0@ == b[i].0@ && a[i].1@ == (#[trigger] b[i]).1@,
    ensures
        keys_distinct(b),
        entries_map(b) == entries_map(a),
{
    assert forall|i: int, j: int| 0 <= i < j < b.len() implies (#[trigger] b[i]).0@ != (
    #[trigger] b[j]).0@ by {
        assert(a[i].0@ == b[i].0@);
        assert(a[j].0@ == b[j].0@);
    }
    assert forall|k: K::V| entries_map(a).contains_key(k) <==> entries_map(b).contains_key(
        k,
    ) by {
        if holds(a, k) {
            let i = choose|i: int| 0 <= i < a.len() && (#[trigger] a[i]).0@ == k;
            assert(b[i].0@ == k);
            assert(holds(b, k));
        }
        if holds(b, k) {
            let i = choose|i: int| 0 <= i < b.len() && (#[trigger] b[i]).0@ == k;
            assert(a[i].0@ == k);
            assert(holds(a, k));
        }
    }
    assert forall|k: K::V| entries_map(a).contains_key(k) implies entries_map(a)[k]
        == entries_map(b)[k] by {
        let i = slot(a, k);
        assert(0 <= i < a.len() && a[i].0@ == k);
        lemma_entry(a, i);
        assert(b[i].0@ == k);
        lemma_entry(b, i);
    }
    assert(entries_map(b) =~= entries_map(a));
}

/// A key of a list of entries: a value that is compared and copied by its
/// view.
pub trait Key: Sized + View {
    /// Whether two keys are the same key.
    fn same(&self, other: &Self) -> (r: bool)
        ensures
            r == (self@ == other@),
    ;

    /// Another key with the same view.
    fn duplicate(&self) -> (r: Self)
        ensures
            r@ == self@,
    ;
}

impl Key for u64 {
    fn same(&self, other: &Self) -> (r: bool) {
        *self == *other
    }

    fn duplicate(&self) -> (r: Self) {
        *self
    }
}

/// The value under `key` in the join of the map `a` with the map `b`.
/// Where both hold the key, their values are joined. Where one alone holds
/// it, its value is kept as it is: the missing value is not taken for the
/// bottom element and joined against.
pub open spec fn join_value<K, V: Value>(a: Map<K, V::V>, b: Map<K, V::V>, key: K) -> Result<
    V::V,
    Error,
> {
    if a.contains_key(key) && b.contains_key(key) {
        V::join_spec(a[key], b[key])
    } else if b.contains_key(key) {
        Ok(b[key])
    } else {
        Ok(a[key])
    }
}

/// The two values under every key that both `a` and `b` hold can be
/// joined.
pub open spec fn joinable<K, V: Value>(a: Map<K, V::V>, b: Map<K, V::V>) -> bool {
    forall|key: K| (#[trigger] join_value::<K, V>(a, b, key)) is Ok
}

/// The join of the map `a` with the map `b`: every key of either, each
/// with its [`join_value`].
pub open spec fn join_maps<K, V: Value>(a: Map<K, V::V>, b: Map<K, V::V>) -> Map<K, V::V> {
    Map::new(
        |key: K| a.contains_key(key) || b.contains_key(key),
        |key: K| join_value::<K, V>(a, b, key)->Ok_0,
    )
}

/// The map after the first `n` entries of `theirs` have been joined into
/// the map `ours`.
spec fn merged<K: View, V: Value>(ours: Map<K::V, V::V>, theirs: Seq<(K, V)>, n: int) -> Map<
    K::V,
    V::V,
> {
    Map::new(
        |key: K::V| ours.contains_key(key) || holds_within(theirs, n, key),
        |key: K::V|
            if holds_within(theirs, n, key) {
                join_value::<K::V, V>(ours, entries_map(theirs), key)->Ok_0
            } else {
                ours[key]
            },
    )
}

/// The place of the entry for `key`, if there is one.
pub(crate) fn position<K: Key, V>(entries: &Vec<(K, V)>, key: &K) -> (r: Option<usize>)
    ensures
        match r {
            Some(i) => i < entries.len() && entries[i as int].0@ == key@,
            None => forall|i: int| 0 <= i < entries.len() ==> (#[trigger] entries[i]).0@ != key@,
        },
{
    let mut i: usize = 0;
    while i < entries.len()
        invariant
            i <= entries.len(),
            forall|j: int| 0 <= j < i ==> (#[trigger] entries[j]).0@ != key@,
        decreases entries.len() - i,
    {
        if entries[i].0.same(key) {
            return Some(i);
        }
        i = i + 1;
    }
    None
}

/// The value under `key`, if there is one.
pub(crate) fn find<'a, K: Key, V: View>(entries: &'a Vec<(K, V)>, key: &K) -> (r: Option<&'a V>)
    requires
        keys_distinct(entries@),
    ensures
        match r {
            Some(v) => entries_map(entries@).contains_key(key@) && entries_map(entries@)[key@]
                == v@,
            None => !entries_map(entries@).contains_key(key@),
        },
{
    match position(entries, key) {
        Some(i) => {
            proof {
                lemma_entry(entries@, i as int);
            }
            Some(&entries[i].1)
        },
        None => {
            proof {
                lemma_absent(entries@, key@);
            }
            None
        },
    }
}

/// Put `value` under `key`, in place of the value that was there or as a
/// new entry.
pub(crate) fn put<K: Key, V: View>(entries: &mut Vec<(K, V)>, key: K, value: V)
    requires
        keys_distinct(old(entries)@),
    ensures
        keys_distinct(final(entries)@),
        entries_map(final(entries)@) == entries_map(old(entries)@).insert(key@, value@),
{
    match position(entries, &key) {
        Some(i) => {
            proof {
                lemma_update(entries@, i as int, key, value);
            }
            entries.set(i, (key, value));
        },
        None => {
            proof {
                lemma_absent(entries@, key@);
                lemma_push(entries@, key, value);
            }
            entries.push((key, value));
        },
    }
}

/// Take the entry for `key` out, if there is one.
pub(crate) fn take_out<K: Key, V: View>(entries: &mut Vec<(K, V)>, key: &K)
    requires
        keys_distinct(old(entries)@),
    ensures
        keys_distinct(final(entries)@),
        entries_map(final(entries)@) == entries_map(old(entries)@).remove(key@),
{
    match position(entries, key) {
        Some(i) => {
            proof {
                lemma_remove(entries@, i as int);
            }
            entries.remove(i);
        },
        None => {
            proof {
                lemma_absent(entries@, key@);
                assert(entries_map(entries@).remove(key@) =~= entries_map(entries@));
            }
        },
    }
}

/// A list with the same keys and values.
pub(crate) fn copy_of<K: Key, V: Value>(entries: &Vec<(K, V)>) -> (r: Vec<(K, V)>)
    requires
        keys_distinct(entries@),
    ensures
        keys_distinct(r@),
        entries_map(r@) == entries_map(entries@),
{
    let mut copy: Vec<(K, V)> = Vec::new();
    let mut i: usize = 0;
    while i < entries.len()
        invariant
            i <= entries.len(),
            copy.len() == i,
            forall|j: int|
                0 <= j < i ==> (#[trigger] entries@[j]).0@ == copy@[j].0@ && entries@[j].1@ == (
                #[trigger] copy@[j]).1@,
        decreases entries.len() - i,
    {
        let key = entries[i].0.duplicate();
        let value = entries[i].1.clone();
        proof {
            V::lemma_clone(entries@[i as int].1, value);
        }
        copy.push((key, value));
        i = i + 1;
    }
    proof {
        lemma_same_views(entries@, copy@);
    }
    copy
}

/// Whether every key of `a` is in `b` with the same value.
pub(crate) fn included<K: Key, V: Value>(a: &Vec<(K, V)>, b: &Vec<(K, V)>) -> (r: bool)
    requires
        keys_distinct(a@),
        keys_distinct(b@),
    ensures
        r == entries_map(a@).submap_of(entries_map(b@)),
{
    let mut i: usize = 0;
    while i < a.len()
        invariant
            i <= a.len(),
            keys_distinct(a@),
            keys_distinct(b@),
            forall|j: int|
                0 <= j < i ==> entries_map(b@).contains_key((#[trigger] a@[j]).0@) && entries_map(
                    b@,
                )[a@[j].0@] == a@[j].1@,
        decreases a.len() - i,
    {
        proof {
            lemma_entry(a@, i as int);
        }
        match position(b, &a[i].0) {
            Some(at) => {
                proof {
                    lemma_entry(b@, at as int);
                    V::lemma_eq(a@[i as int].1, b@[at as int].1);
                }
                if !(a[i].1 == b[at].1) {
                    return false;
                }
            },
            None => {
                proof {
                    lemma_absent(b@, a@[i as int].0@);
                }
                return false;
            },
        }
        i = i + 1;
    }
    proof {
        assert forall|k: K::V| entries_map(a@).contains_key(k) implies entries_map(
            b@,
        ).contains_key(k) && entries_map(a@)[k] == entries_map(b@)[k] by {
            let j = slot(a@, k);
            assert(0 <= j < a@.len() && a@[j].0@ == k);
            lemma_entry(a@, j);
        }
    }
    true
}

/// Whether two lists stand for the same map.
pub(crate) fn same_map<K: Key, V: Value>(a: &Vec<(K, V)>, b: &Vec<(K, V)>) -> (r: bool)
    requires
        keys_distinct(a@),
        keys_distinct(b@),
    ensures
        r == (entries_map(a@) == entries_map(b@)),
{
    let r = included(a, b) && included(b, a);
    proof {
        if entries_map(a@).submap_of(entries_map(b@)) && entries_map(b@).submap_of(
            entries_map(a@),
        ) {
            assert forall|k: K::V| entries_map(a@).contains_key(k) == entries_map(b@).contains_key(
                k,
            ) by {
                if entries_map(a@).dom().contains(k) {
                    assert(entries_map(b@).dom().contains(k));
                }
                if entries_map(b@).dom().contains(k) {
                    assert(entries_map(a@).dom().contains(k));
                }
            }
            assert forall|k: K::V| entries_map(a@).contains_key(k) implies entries_map(a@)[k]
                == entries_map(b@)[k] by {
                assert(entries_map(a@).dom().contains(k));
            }
            assert(entries_map(a@) =~= entries_map(b@));
        }
    }
    r
}

/// Join the entries of `theirs` into `ours`, one after the other: a value
/// is joined with the value that `ours` holds under its key, or copied
/// where `ours` holds none. The first join that fails ends it with that
/// error.
pub(crate) fn join_entries<K: Key, V: Value>(ours: Vec<(K, V)>, theirs: &Vec<(K, V)>) -> (r:
    Result<Vec<(K, V)>, Error>)
    requires
        keys_distinct(ours@),
        keys_distinct(theirs@),
    ensures
        match r {
            Ok(joined) => {
                &&& keys_distinct(joined@)
                &&& joinable::<K::V, V>(entries_map(ours@), entries_map(theirs@))
                &&& entries_map(joined@) == join_maps::<K::V, V>(
                    entries_map(ours@),
                    entries_map(theirs@),
                )
            },
            Err(error) => exists|key: K::V| #[trigger]
                join_value::<K::V, V>(entries_map(ours@), entries_map(theirs@), key) == Err::<
                    V::V,
                    Error,
                >(error),
        },
{
    let ghost a = entries_map(ours@);
    let ghost b = entries_map(theirs@);
    let mut joined = ours;
    let mut i: usize = 0;
    proof {
        assert(entries_map(joined@) =~= merged(a, theirs@, 0));
    }
    while i < theirs.len()
        invariant
            i <= theirs.len(),
            keys_distinct(theirs@),
            keys_distinct(joined@),
            a == entries_map(ours@),
            b == entries_map(theirs@),
            entries_map(joined@) == merged(a, theirs@, i as int),
            forall|j: int|
                0 <= j < i ==> join_value::<K::V, V>(a, b, (#[trigger] theirs@[j]).0@) is Ok,
        decreases theirs.len() - i,
    {
        let key = &theirs[i].0;
        let value = &theirs[i].1;
        let ghost before = joined@;
        proof {
            lemma_entry(theirs@, i as int);
            assert(!holds_within(theirs@, i as int, key@)) by {
                if holds_within(theirs@, i as int, key@) {
                    let j = choose|j: int|
                        0 <= j < i && j < theirs@.len() && (#[trigger] theirs@[j]).0@ == key@;
                    assert(theirs@[j].0@ != theirs@[i as int].0@);
                }
            }
        }
        match position(&joined, key) {
            Some(at) => {
                proof {
                    lemma_entry(joined@, at as int);
                    assert(merged(a, theirs@, i as int).contains_key(key@));
                    assert(a.contains_key(key@) && a[key@] == joined@[at as int].1@);
                    assert(b.contains_key(key@) && b[key@] == value@);
                }
                match joined[at].1.join(value) {
                    Ok(both) => {
                        let key = key.duplicate();
                        proof {
                            lemma_update(joined@, at as int, key, both);
                            assert(join_value::<K::V, V>(a, b, key@) == Ok::<V::V, Error>(both@));
                        }
                        joined.set(at, (key, both));
                    },
                    Err(error) => {
                        proof {
                            assert(join_value::<K::V, V>(a, b, key@) == Err::<V::V, Error>(error));
                        }
                        return Err(error);
                    },
                }
            },
            None => {
                let copy = value.clone();
                let key = key.duplicate();
                proof {
                    V::lemma_clone(*value, copy);
                    lemma_absent(joined@, key@);
                    lemma_push(joined@, key, copy);
                    assert(!merged(a, theirs@, i as int).contains_key(key@));
                    assert(!a.contains_key(key@));
                    assert(b.contains_key(key@) && b[key@] == value@);
                    assert(join_value::<K::V, V>(a, b, key@) == Ok::<V::V, Error>(copy@));
                }
                joined.push((key, copy));
            },
        }
        proof {
            let next = merged(a, theirs@, i + 1);
            let now = entries_map(joined@);
            assert(now == entries_map(before).insert(
                key@,
                join_value::<K::V, V>(a, b, key@)->Ok_0,
            ));
            assert forall|k: K::V|
                holds_within(theirs@, i + 1, k) <==> (k == key@ || holds_within(
                    theirs@,
                    i as int,
                    k,
                )) by {
                if holds_within(theirs@, i + 1, k) {
                    let j = choose|j: int|
                        0 <= j < i + 1 && j < theirs@.len() && (#[trigger] theirs@[j]).0@ == k;
                    if j < i {
                        assert(holds_within(theirs@, i as int, k));
                    }
                }
                if holds_within(theirs@, i as int, k) {
                    let j = choose|j: int|
                        0 <= j < i && j < theirs@.len() && (#[trigger] theirs@[j]).0@ == k;
                    assert(holds_within(theirs@, i + 1, k));
                }
                if k == key@ {
                    assert(theirs@[i as int].0@ == k);
                    assert(holds_within(theirs@, i + 1, k));
                }
            }
            assert(now =~= next);
        }
        i = i + 1;
    }
    proof {
        assert forall|k: K::V| holds_within(theirs@, i as int, k) <==> b.contains_key(k) by {}
        assert forall|k: K::V| (#[trigger] join_value::<K::V, V>(a, b, k)) is Ok by {
            if b.contains_key(k) {
                let j = choose|j: int| 0 <= j < theirs@.len() && (#[trigger] theirs@[j]).0@ == k;
                assert(join_value::<K::V, V>(a, b, theirs@[j].0@) is Ok);
            }
        }
        assert(entries_map(joined@) =~= join_maps::<K::V, V>(a, b));
    }
    Ok(joined)
}

} // verus!
