//! Association lists keyed by text: the model of a map whose keys are strings.
use vstd::prelude::*;

verus! {

/// Whether some member has `key`.
pub open spec fn has_key<V>(members: Seq<(Seq<char>, V)>, key: Seq<char>) -> bool {
    exists|p: int| 0 <= p < members.len() && members[p].0 == key
}

/// Position of the last member with `key`.
pub open spec fn key_index<V>(members: Seq<(Seq<char>, V)>, key: Seq<char>) -> int
    decreases members.len(),
{
    if members.len() == 0 {
        0
    } else if members.last().0 == key {
        members.len() - 1
    } else {
        key_index(members.drop_last(), key)
    }
}

/// `members` with `key` set to `value`: the member of that key gets the new value where
/// there is one, else the member is added at the end.
pub open spec fn assoc_insert<V>(members: Seq<(Seq<char>, V)>, key: Seq<char>, value: V) -> Seq<(Seq<char>, V)> {
    if has_key(members, key) {
        members.update(key_index(members, key), (key, value))
    } else {
        members.push((key, value))
    }
}

/// The value stored under `key`, if any.
pub open spec fn assoc_get<V>(members: Seq<(Seq<char>, V)>, key: Seq<char>) -> Option<V> {
    if has_key(members, key) {
        Some(members[key_index(members, key)].1)
    } else {
        None
    }
}

/// No two members share a key.
pub open spec fn keys_distinct<V>(members: Seq<(Seq<char>, V)>) -> bool {
    forall|i: int, j: int| 0 <= i < j < members.len() ==> members[i].0 != members[j].0
}

pub proof fn lemma_key_index<V>(members: Seq<(Seq<char>, V)>, key: Seq<char>, p: int)
    requires
        keys_distinct(members),
        0 <= p < members.len(),
        members[p].0 == key,
    ensures
        key_index(members, key) == p,
    decreases members.len(),
{
    if members.last().0 != key {
        let d = members.drop_last();
        assert(d[p] == members[p]);
        lemma_key_index(d, key, p);
    } else if p != members.len() - 1 {
        assert(members[p].0 != members[members.len() - 1].0);
    }
}

pub proof fn lemma_assoc_insert<V>(members: Seq<(Seq<char>, V)>, key: Seq<char>, value: V)
    requires
        keys_distinct(members),
    ensures
        keys_distinct(assoc_insert(members, key, value)),
        forall|p: int|
            0 <= p < members.len() && members[p].0 == key ==> assoc_insert(members, key, value)
                == members.update(p, (key, value)),
        (forall|p: int| 0 <= p < members.len() ==> members[p].0 != key) ==> assoc_insert(
            members,
            key,
            value,
        ) == members.push((key, value)),
{
    let r = assoc_insert(members, key, value);
    if has_key(members, key) {
        let p = choose|p: int| 0 <= p < members.len() && members[p].0 == key;
        lemma_key_index(members, key, p);
        assert forall|q: int| 0 <= q < members.len() && members[q].0 == key implies r == members.update(
            q,
            (key, value),
        ) by {
            lemma_key_index(members, key, q);
        }
        assert forall|i: int, j: int| 0 <= i < j < r.len() implies r[i].0 != r[j].0 by {
            if i != p && j != p {
                assert(r[i] == members[i] && r[j] == members[j]);
            }
        }
    } else {
        assert forall|i: int, j: int| 0 <= i < j < r.len() implies r[i].0 != r[j].0 by {
            if j < members.len() {
                assert(r[i] == members[i] && r[j] == members[j]);
            } else {
                assert(r[i] == members[i]);
            }
        }
    }
}

/// What is read back after a write: the key written gives the value written, and every
/// other key gives what it gave before.
pub proof fn lemma_assoc_get_insert<V>(
    members: Seq<(Seq<char>, V)>,
    key: Seq<char>,
    value: V,
    other: Seq<char>,
)
    requires
        keys_distinct(members),
    ensures
        assoc_get(assoc_insert(members, key, value), key) == Some(value),
        other != key ==> assoc_get(assoc_insert(members, key, value), other) == assoc_get(
            members,
            other,
        ),
{
    let r = assoc_insert(members, key, value);
    lemma_assoc_insert(members, key, value);
    if has_key(members, key) {
        let p = choose|p: int| 0 <= p < members.len() && members[p].0 == key;
        assert(r == members.update(p, (key, value)));
        assert(r[p].0 == key);
        lemma_key_index(r, key, p);
    } else {
        assert(r == members.push((key, value)));
        assert(r[members.len() as int].0 == key);
        lemma_key_index(r, key, members.len() as int);
    }
    if other != key {
        if has_key(members, other) {
            let q = choose|q: int| 0 <= q < members.len() && members[q].0 == other;
            lemma_key_index(members, other, q);
            assert(r[q] == members[q]);
            lemma_key_index(r, other, q);
        } else {
            if has_key(r, other) {
                let q = choose|q: int| 0 <= q < r.len() && r[q].0 == other;
                if q < members.len() {
                    assert(r[q].0 == members[q].0 || r[q].0 == key);
                }
                assert(false);
            }
        }
    }
}

} // verus!
