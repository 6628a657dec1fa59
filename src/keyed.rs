use vstd::prelude::*;

verus! {

/// The keys of a list of keyed entries.
pub open spec fn key_seq<V>(m: Seq<(String, V)>) -> Seq<Seq<char>> {
    m.map_values(|e: (String, V)| e.0@)
}

/// `i` is the first position of key `k` in `keys`.
pub open spec fn first_key_at(keys: Seq<Seq<char>>, k: Seq<char>, i: int) -> bool {
    &&& 0 <= i < keys.len()
    &&& keys[i] == k
    &&& forall|j: int| 0 <= j < i ==> keys[j] != k
}

/// The first position of key `k` in `keys`, if it occurs.
pub open spec fn key_pos(keys: Seq<Seq<char>>, k: Seq<char>) -> Option<int> {
    if exists|i: int| first_key_at(keys, k, i) {
        Some(choose|i: int| first_key_at(keys, k, i))
    } else {
        None
    }
}

/// The value stored under key `k`: the first entry with that key.
pub open spec fn lookup<V>(m: Seq<(Seq<char>, V)>, k: Seq<char>) -> Option<V> {
    match key_pos(m.map_values(|e: (Seq<char>, V)| e.0), k) {
        Some(i) => Some(m[i].1),
        None => None,
    }
}

/// `m` with key `k` set to `v`: the first entry with that key is replaced in
/// place, or a new entry is appended.
pub open spec fn upsert<V>(m: Seq<(Seq<char>, V)>, k: Seq<char>, v: V) -> Seq<(Seq<char>, V)> {
    match key_pos(m.map_values(|e: (Seq<char>, V)| e.0), k) {
        Some(i) => m.update(i, (k, v)),
        None => m.push((k, v)),
    }
}

pub proof fn lemma_key_pos(keys: Seq<Seq<char>>, k: Seq<char>, i: int)
    requires
        first_key_at(keys, k, i),
    ensures
        key_pos(keys, k) == Some(i),
{
    let j = choose|j: int| first_key_at(keys, k, j);
    assert(first_key_at(keys, k, j));
    if j < i {
        assert(keys[j] != k);
    } else if i < j {
        assert(keys[i] != k);
    }
}

pub proof fn lemma_key_pos_none(keys: Seq<Seq<char>>, k: Seq<char>)
    requires
        forall|j: int| 0 <= j < keys.len() ==> keys[j] != k,
    ensures
        key_pos(keys, k) is None,
{
    if exists|i: int| first_key_at(keys, k, i) {
        let i = choose|i: int| first_key_at(keys, k, i);
        assert(keys[i] == k);
    }
}

proof fn lemma_first_exists(keys: Seq<Seq<char>>, k: Seq<char>, j: int)
    requires
        0 <= j < keys.len(),
        keys[j] == k,
    ensures
        exists|i: int| first_key_at(keys, k, i),
    decreases j,
{
    if exists|i: int| 0 <= i < j && keys[i] == k {
        let i = choose|i: int| 0 <= i < j && keys[i] == k;
        lemma_first_exists(keys, k, i);
    } else {
        assert(first_key_at(keys, k, j));
    }
}

/// A key without a first position does not occur.
pub proof fn lemma_key_pos_absent(keys: Seq<Seq<char>>, k: Seq<char>)
    requires
        key_pos(keys, k) is None,
    ensures
        !keys.contains(k),
{
    if keys.contains(k) {
        let j = choose|j: int| 0 <= j < keys.len() && keys[j] == k;
        lemma_first_exists(keys, k, j);
    }
}

/// The position of the first entry with key `k`.
pub fn find_key<V>(m: &Vec<(String, V)>, k: &str) -> (r: Option<usize>)
    ensures
        r is None ==> key_pos(key_seq(m@), k@) is None,
        r matches Some(i) ==> i < m@.len() && key_pos(key_seq(m@), k@) == Some(i as int),
{
    let key = k.to_owned();
    let ghost keys = key_seq(m@);
    let mut i: usize = 0;
    while i < m.len()
        invariant
            0 <= i <= m@.len(),
            keys == key_seq(m@),
            key@ == k@,
            forall|j: int| 0 <= j < i ==> keys[j] != k@,
        decreases m@.len() - i,
    {
        if m[i].0 == key {
            proof {
                lemma_key_pos(keys, k@, i as int);
            }
            return Some(i);
        }
        i += 1;
    }
    proof {
        lemma_key_pos_none(keys, k@);
    }
    None
}

} // verus!
