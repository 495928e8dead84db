//! Association lists, and the map that such a list stands for.

use vstd::prelude::*;
use vstd::string::*;

verus! {

/// Whether some entry of the list has the key `key`.
pub open spec fn has_key<K, V>(entries: Seq<(K, V)>, key: K) -> bool {
    exists|i: int| 0 <= i < entries.len() && (#[trigger] entries[i]).0 == key
}

/// Whether no key occurs twice in the list.
pub open spec fn distinct_keys<K, V>(entries: Seq<(K, V)>) -> bool {
    forall|i: int, j: int|
        0 <= i < j < entries.len() ==> (#[trigger] entries[i]).0 != (#[trigger] entries[j]).0
}

/// The map that a list of entries stands for: each key that occurs, with the
/// value of an entry that has it.
pub open spec fn table<K, V>(entries: Seq<(K, V)>) -> Map<K, V> {
    Map::new(
        |key: K| has_key(entries, key),
        |key: K| entries[choose|i: int| 0 <= i < entries.len() && (#[trigger] entries[i]).0 == key].1,
    )
}

/// With keys that are all different, each entry is what the map holds at
/// its key.
pub proof fn lemma_table_entry<K, V>(entries: Seq<(K, V)>, i: int)
    requires
        distinct_keys(entries),
        0 <= i < entries.len(),
    ensures
        table(entries).contains_key(entries[i].0),
        table(entries)[entries[i].0] == entries[i].1,
{
    let key = entries[i].0;
    let j = choose|j: int| 0 <= j < entries.len() && (#[trigger] entries[j]).0 == key;
    assert(j == i);
}

/// The empty list stands for the empty map.
pub proof fn lemma_table_empty<K, V>()
    ensures
        table(Seq::<(K, V)>::empty()) == Map::<K, V>::empty(),
{
    assert(table(Seq::<(K, V)>::empty()) =~= Map::<K, V>::empty());
}

/// Adding an entry with a new key adds it to the map.
pub proof fn lemma_table_push<K, V>(entries: Seq<(K, V)>, key: K, value: V)
    requires
        distinct_keys(entries),
        !has_key(entries, key),
    ensures
        distinct_keys(entries.push((key, value))),
        table(entries.push((key, value))) == table(entries).insert(key, value),
{
    let grown = entries.push((key, value));
    assert(distinct_keys(grown)) by {
        assert forall|i: int, j: int| 0 <= i < j < grown.len() implies (#[trigger] grown[i]).0
            != (#[trigger] grown[j]).0 by {
            if j < entries.len() {
                assert(grown[i] == entries[i] && grown[j] == entries[j]);
            } else {
                assert(grown[i] == entries[i]);
            }
        }
    }
    assert forall|k: K| has_key(grown, k) <==> (k == key || has_key(entries, k)) by {
        if has_key(grown, k) {
            let i = choose|i: int| 0 <= i < grown.len() && (#[trigger] grown[i]).0 == k;
            if i < entries.len() {
                assert(entries[i].0 == k);
            }
        }
        if k == key {
            assert(grown[entries.len() as int].0 == k);
        }
        if has_key(entries, k) {
            let i = choose|i: int| 0 <= i < entries.len() && (#[trigger] entries[i]).0 == k;
            assert(grown[i].0 == k);
        }
    }
    assert forall|k: K| has_key(grown, k) implies #[trigger] table(grown)[k] == table(
        entries,
    ).insert(key, value)[k] by {
        let i = choose|i: int| 0 <= i < grown.len() && (#[trigger] grown[i]).0 == k;
        lemma_table_entry(grown, i);
        if i < entries.len() {
            assert(grown[i] == entries[i]);
            lemma_table_entry(entries, i);
        }
    }
    assert(table(grown) =~= table(entries).insert(key, value));
}

/// Taking an entry out takes its key out of the map.
pub proof fn lemma_table_remove<K, V>(entries: Seq<(K, V)>, at: int)
    requires
        distinct_keys(entries),
        0 <= at < entries.len(),
    ensures
        distinct_keys(entries.remove(at)),
        !has_key(entries.remove(at), entries[at].0),
        table(entries.remove(at)) == table(entries).remove(entries[at].0),
{
    let key = entries[at].0;
    let less = entries.remove(at);
    assert forall|i: int| 0 <= i < less.len() implies #[trigger] less[i] == entries[if i < at {
        i
    } else {
        i + 1
    }] by {}
    assert(distinct_keys(less)) by {
        assert forall|i: int, j: int| 0 <= i < j < less.len() implies (#[trigger] less[i]).0 != (
        #[trigger] less[j]).0 by {
            let a = if i < at { i } else { i + 1 };
            let b = if j < at { j } else { j + 1 };
            assert(less[i] == entries[a] && less[j] == entries[b]);
        }
    }
    assert(!has_key(less, key)) by {
        if has_key(less, key) {
            let i = choose|i: int| 0 <= i < less.len() && (#[trigger] less[i]).0 == key;
            let a = if i < at { i } else { i + 1 };
            assert(less[i] == entries[a]);
            if a < at {
                assert(entries[a].0 != entries[at].0);
            } else {
                assert(entries[at].0 != entries[a].0);
            }
        }
    }
    assert forall|k: K| has_key(less, k) <==> (k != key && has_key(entries, k)) by {
        if has_key(less, k) {
            let i = choose|i: int| 0 <= i < less.len() && (#[trigger] less[i]).0 == k;
            let a = if i < at { i } else { i + 1 };
            assert(entries[a].0 == k);
        }
        if k != key && has_key(entries, k) {
            let a = choose|a: int| 0 <= a < entries.len() && (#[trigger] entries[a]).0 == k;
            let i = if a < at { a } else { a - 1 };
            assert(less[i] == entries[a]);
            assert(less[i].0 == k);
        }
    }
    assert forall|k: K| has_key(less, k) implies #[trigger] table(less)[k] == table(
        entries,
    )[k] by {
        let i = choose|i: int| 0 <= i < less.len() && (#[trigger] less[i]).0 == k;
        let a = if i < at { i } else { i + 1 };
        assert(less[i] == entries[a]);
        lemma_table_entry(less, i);
        lemma_table_entry(entries, a);
    }
    assert(table(less) =~= table(entries).remove(key));
}

/// Giving an entry a new value gives its key that value in the map.
pub proof fn lemma_table_update<K, V>(entries: Seq<(K, V)>, at: int, value: V)
    requires
        distinct_keys(entries),
        0 <= at < entries.len(),
    ensures
        distinct_keys(entries.update(at, (entries[at].0, value))),
        table(entries.update(at, (entries[at].0, value))) == table(entries).insert(
            entries[at].0,
            value,
        ),
{
    let key = entries[at].0;
    let changed = entries.update(at, (key, value));
    assert(distinct_keys(changed)) by {
        assert forall|i: int, j: int| 0 <= i < j < changed.len() implies (#[trigger] changed[i]).0
            != (#[trigger] changed[j]).0 by {
            assert(changed[i].0 == entries[i].0 && changed[j].0 == entries[j].0);
        }
    }
    assert forall|k: K| has_key(changed, k) <==> has_key(entries, k) by {
        if has_key(changed, k) {
            let i = choose|i: int| 0 <= i < changed.len() && (#[trigger] changed[i]).0 == k;
            assert(entries[i].0 == k);
        }
        if has_key(entries, k) {
            let i = choose|i: int| 0 <= i < entries.len() && (#[trigger] entries[i]).0 == k;
            assert(changed[i].0 == k);
        }
    }
    assert(has_key(entries, key)) by {
        assert(entries[at].0 == key);
    }
    assert forall|k: K| has_key(changed, k) implies #[trigger] table(changed)[k] == table(
        entries,
    ).insert(key, value)[k] by {
        let i = choose|i: int| 0 <= i < changed.len() && (#[trigger] changed[i]).0 == k;
        lemma_table_entry(changed, i);
        if i != at {
            assert(changed[i] == entries[i]);
            lemma_table_entry(entries, i);
            if k == key {
                assert(false) by {
                    if i < at {
                        assert(entries[i].0 != entries[at].0);
                    } else {
                        assert(entries[at].0 != entries[i].0);
                    }
                }
            }
        }
    }
    assert(table(changed) =~= table(entries).insert(key, value));
}

/// The first position of the key `key` among `keys`, if it occurs.
pub fn find_key(keys: &Vec<String>, key: &str) -> (found: Option<usize>)
    ensures
        match found {
            Some(i) => i < keys.len() && keys[i as int]@ == key@ && forall|j: int|
                0 <= j < i ==> (#[trigger] keys[j])@ != key@,
            None => forall|i: int| 0 <= i < keys.len() ==> (#[trigger] keys[i])@ != key@,
        },
{
    let wanted = key.to_owned();
    let mut i: usize = 0;
    while i < keys.len()
        invariant
            i <= keys.len(),
            wanted@ == key@,
            forall|j: int| 0 <= j < i ==> (#[trigger] keys[j])@ != key@,
        decreases keys.len() - i,
    {
        if keys[i] == wanted {
            return Some(i);
        }
        i += 1;
    }
    None
}

} // verus!
