use vstd::prelude::*;

verus! {

/// The map that a list of keys and values builds when each entry is inserted in
/// turn: a later entry replaces an earlier one with the same key.
pub open spec fn table_map<V>(keys: Seq<Seq<char>>, values: Seq<V>) -> Map<Seq<char>, V>
    decreases keys.len(),
{
    if keys.len() == 0 || values.len() == 0 {
        Map::empty()
    } else {
        table_map(keys.drop_last(), values.drop_last()).insert(keys.last(), values.last())
    }
}

/// `i` is the last position of `k` in `keys`.
pub open spec fn is_last_index(keys: Seq<Seq<char>>, k: Seq<char>, i: int) -> bool {
    &&& 0 <= i < keys.len()
    &&& keys[i] == k
    &&& forall|j: int| i < j < keys.len() ==> keys[j] != k
}

/// A key is in the table's map exactly when some entry has it, and then it maps
/// to the value of the last such entry.
pub proof fn lemma_table_map_lookup<V>(keys: Seq<Seq<char>>, values: Seq<V>, k: Seq<char>)
    requires
        keys.len() == values.len(),
    ensures
        table_map(keys, values).contains_key(k) <==> exists|j: int|
            0 <= j < keys.len() && keys[j] == k,
        forall|i: int| is_last_index(keys, k, i) ==> table_map(keys, values)[k] == values[i],
    decreases keys.len(),
{
    if keys.len() > 0 {
        let n = keys.len() - 1;
        lemma_table_map_lookup(keys.drop_last(), values.drop_last(), k);
        if keys.last() == k {
        } else {
            if exists|j: int| 0 <= j < keys.len() && keys[j] == k {
                let j = choose|j: int| 0 <= j < keys.len() && keys[j] == k;
                assert(keys.drop_last()[j] == k);
            }
            assert forall|i: int| is_last_index(keys, k, i) implies table_map(keys, values)[k]
                == values[i] by {
                assert(is_last_index(keys.drop_last(), k, i));
            }
        }
    }
}

/// Replacing the value of the entry at `i`, the last entry with key `k`, sets
/// what `k` maps to and leaves the rest of the map alone.
pub proof fn lemma_table_map_update<V>(keys: Seq<Seq<char>>, values: Seq<V>, i: int, v: V)
    requires
        keys.len() == values.len(),
        is_last_index(keys, keys[i], i),
    ensures
        table_map(keys, values.update(i, v)) == table_map(keys, values).insert(keys[i], v),
    decreases keys.len(),
{
    let k = keys[i];
    if i == keys.len() - 1 {
        assert(values.update(i, v).drop_last() =~= values.drop_last());
        assert(table_map(keys, values.update(i, v)) =~= table_map(keys, values).insert(k, v));
    } else {
        let ks = keys.drop_last();
        let vs = values.drop_last();
        assert(values.update(i, v).drop_last() =~= vs.update(i, v));
        assert(is_last_index(ks, ks[i], i));
        lemma_table_map_update(ks, vs, i, v);
        assert(keys.last() != k);
        assert(table_map(keys, values.update(i, v)) =~= table_map(keys, values).insert(k, v));
    }
}

/// The keys of a list of entries.
pub open spec fn entry_keys<V>(entries: Seq<(String, V)>) -> Seq<Seq<char>> {
    entries.map_values(|e: (String, V)| e.0@)
}

/// The views of the values of a list of entries.
pub open spec fn entry_values<V: View>(entries: Seq<(String, V)>) -> Seq<V::V> {
    entries.map_values(|e: (String, V)| e.1@)
}

/// The map that a list of entries builds, a later entry replacing an earlier one.
pub open spec fn entries_map<V: View>(entries: Seq<(String, V)>) -> Map<Seq<char>, V::V> {
    table_map(entry_keys(entries), entry_values(entries))
}

/// The last entry whose key is `k`, or `None` where no entry has it.
pub(crate) fn find_last<V>(entries: &Vec<(String, V)>, k: &str) -> (res: Option<usize>)
    ensures
        match res {
            Some(i) => is_last_index(entry_keys(entries@), k@, i as int),
            None => forall|j: int| 0 <= j < entries@.len() ==> entries@[j].0@ != k@,
        },
{
    let target = k.to_owned();
    let mut i = entries.len();
    while i > 0
        invariant
            i <= entries@.len(),
            target@ == k@,
            forall|j: int| i <= j < entries@.len() ==> entries@[j].0@ != k@,
        decreases i,
    {
        i = i - 1;
        if entries[i].0 == target {
            return Some(i);
        }
    }
    None
}

/// What a list of entries maps `k` to, by its last entry with that key.
pub proof fn lemma_entries_lookup<V: View>(entries: Seq<(String, V)>, k: Seq<char>)
    ensures
        entries_map(entries).contains_key(k) <==> exists|j: int|
            0 <= j < entries.len() && entries[j].0@ == k,
        forall|i: int|
            is_last_index(entry_keys(entries), k, i) ==> entries_map(entries)[k] == entries[i].1@,
{
    let ks = entry_keys(entries);
    let vs = entry_values(entries);
    lemma_table_map_lookup(ks, vs, k);
    if exists|j: int| 0 <= j < entries.len() && entries[j].0@ == k {
        let j = choose|j: int| 0 <= j < entries.len() && entries[j].0@ == k;
        assert(ks[j] == k);
    }
}

} // verus!
