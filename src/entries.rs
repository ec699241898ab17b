//! Lists of named entries with unique names, seen as finite maps.

use vstd::prelude::*;

verus! {

/// No two entries share a name.
pub open spec fn keys_unique<V>(v: Seq<(String, V)>) -> bool {
    forall|i: int, j: int| 0 <= i < j < v.len() ==> v[i].0@ != v[j].0@
}

/// The map that a list of entries defines; a later entry wins.
pub open spec fn map_of<V: View>(v: Seq<(String, V)>) -> Map<Seq<char>, V::V>
    decreases v.len(),
{
    if v.len() == 0 {
        Map::empty()
    } else {
        map_of(v.drop_last()).insert(v.last().0@, v.last().1@)
    }
}

pub proof fn lemma_map_push<V: View>(v: Seq<(String, V)>, e: (String, V))
    ensures
        map_of(v.push(e)) == map_of(v).insert(e.0@, e.1@),
{
    assert(v.push(e).drop_last() == v);
}

pub proof fn lemma_map_absent<V: View>(v: Seq<(String, V)>, k: Seq<char>)
    requires
        forall|i: int| 0 <= i < v.len() ==> (#[trigger] v[i]).0@ != k,
    ensures
        !map_of(v).contains_key(k),
    decreases v.len(),
{
    if v.len() > 0 {
        lemma_map_absent(v.drop_last(), k);
    }
}

pub proof fn lemma_map_found<V: View>(v: Seq<(String, V)>, i: int)
    requires
        keys_unique(v),
        0 <= i < v.len(),
    ensures
        map_of(v).contains_key(v[i].0@),
        map_of(v)[v[i].0@] == v[i].1@,
    decreases v.len(),
{
    if i < v.len() - 1 {
        lemma_map_found(v.drop_last(), i);
    }
}

/// Every name of the map is the name of some entry.
pub proof fn lemma_map_keys<V: View>(v: Seq<(String, V)>, k: Seq<char>)
    requires
        map_of(v).contains_key(k),
    ensures
        exists|i: int| 0 <= i < v.len() && (#[trigger] v[i]).0@ == k,
    decreases v.len(),
{
    if v.last().0@ != k {
        lemma_map_keys(v.drop_last(), k);
        let i = choose|i: int| 0 <= i < v.drop_last().len() && (#[trigger] v.drop_last()[i]).0@ == k;
        assert(v[i] == v.drop_last()[i]);
    }
}

pub proof fn lemma_map_update<V: View>(v: Seq<(String, V)>, i: int, e: (String, V))
    requires
        keys_unique(v),
        0 <= i < v.len(),
        e.0@ == v[i].0@,
    ensures
        map_of(v.update(i, e)) == map_of(v).insert(e.0@, e.1@),
    decreases v.len(),
{
    let w = v.update(i, e);
    if i == v.len() - 1 {
        assert(w.drop_last() == v.drop_last());
        assert(map_of(v.drop_last()).insert(e.0@, e.1@) =~= map_of(v).insert(e.0@, e.1@));
    } else {
        assert(w.drop_last() == v.drop_last().update(i, e));
        lemma_map_update(v.drop_last(), i, e);
        assert(map_of(w) =~= map_of(v).insert(e.0@, e.1@));
    }
}

/// Two lists whose entries have the same views define the same map.
pub proof fn lemma_map_same_views<V: View>(v: Seq<(String, V)>, w: Seq<(String, V)>)
    requires
        v.len() == w.len(),
        forall|i: int| 0 <= i < v.len() ==> (#[trigger] v[i]).0@ == w[i].0@ && v[i].1@ == w[i].1@,
    ensures
        map_of(v) == map_of(w),
    decreases v.len(),
{
    if v.len() > 0 {
        assert forall|i: int| 0 <= i < v.len() - 1 implies (#[trigger] v.drop_last()[i]).0@
            == w.drop_last()[i].0@ && v.drop_last()[i].1@ == w.drop_last()[i].1@ by {
            assert(v.drop_last()[i] == v[i] && w.drop_last()[i] == w[i]);
        }
        lemma_map_same_views(v.drop_last(), w.drop_last());
    }
}

/// The index of the entry named `key`.
pub fn find_key<V>(v: &Vec<(String, V)>, key: &String) -> (r: Option<usize>)
    ensures
        match r {
            Some(i) => i < v@.len() && v@[i as int].0@ == key@,
            None => forall|i: int| 0 <= i < v@.len() ==> (#[trigger] v@[i]).0@ != key@,
        },
{
    let mut i: usize = 0;
    while i < v.len()
        invariant
            i <= v@.len(),
            forall|j: int| 0 <= j < i ==> (#[trigger] v@[j]).0@ != key@,
        decreases v@.len() - i,
    {
        if v[i].0 == *key {
            return Some(i);
        }
        i += 1;
    }
    None
}

/// Sets the entry named `e.0` to `e`, adding it at the end if there is none.
pub fn put_entry<V: View>(v: &mut Vec<(String, V)>, e: (String, V))
    requires
        keys_unique(old(v)@),
    ensures
        keys_unique(final(v)@),
        map_of(final(v)@) == map_of(old(v)@).insert(e.0@, e.1@),
{
    match find_key(v, &e.0) {
        Some(i) => {
            proof {
                lemma_map_update(v@, i as int, e);
            }
            v.set(i, e);
        },
        None => {
            proof {
                lemma_map_push(v@, e);
            }
            v.push(e);
        },
    }
}

} // verus!
