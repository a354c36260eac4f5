//! A map from text, kept in the order of its keys.

use crate::text::{text_before, text_order_irreflexive, text_order_total, text_order_transitive, text_precedes};
use vstd::prelude::*;

verus! {

/// The keys ascend, so none occurs twice.
pub open spec fn ascending<T>(pairs: Seq<(Seq<char>, T)>) -> bool {
    forall|i: int, j: int|
        0 <= i < j < pairs.len() ==> text_before((#[trigger] pairs[i]).0, (#[trigger] pairs[j]).0)
}

/// `key` is the key of one of `pairs`.
pub open spec fn has_key<T>(pairs: Seq<(Seq<char>, T)>, key: Seq<char>) -> bool {
    exists|i: int| 0 <= i < pairs.len() && (#[trigger] pairs[i]).0 == key
}

/// What `pairs` holds for `key`.
pub open spec fn value_of<T>(pairs: Seq<(Seq<char>, T)>, key: Seq<char>) -> T {
    pairs[choose|i: int| 0 <= i < pairs.len() && (#[trigger] pairs[i]).0 == key].1
}

/// `pairs` as a map.
pub open spec fn map_of<T>(pairs: Seq<(Seq<char>, T)>) -> Map<Seq<char>, T> {
    Map::new(|key: Seq<char>| has_key(pairs, key), |key: Seq<char>| value_of(pairs, key))
}

/// In ascending pairs the value of a key is that of its one pair.
pub proof fn value_is_at<T>(pairs: Seq<(Seq<char>, T)>, i: int)
    requires
        ascending(pairs),
        0 <= i < pairs.len(),
    ensures
        has_key(pairs, pairs[i].0),
        value_of(pairs, pairs[i].0) == pairs[i].1,
{
    let k = choose|k: int| 0 <= k < pairs.len() && (#[trigger] pairs[k]).0 == pairs[i].0;
    assert(pairs[i].0 == pairs[i].0);
    text_order_irreflexive(pairs[i].0);
    if k < i {
        assert(text_before(pairs[k].0, pairs[i].0));
    } else if i < k {
        assert(text_before(pairs[i].0, pairs[k].0));
    }
}

/// Ascending pairs of one key are one pair.
pub proof fn single_pair<T>(pairs: Seq<(Seq<char>, T)>, key: Seq<char>, value: T)
    requires
        ascending(pairs),
        map_of(pairs) == Map::<Seq<char>, T>::empty().insert(key, value),
    ensures
        pairs == seq![(key, value)],
{
    let map = map_of(pairs);
    assert(map.contains_key(key));
    let k = choose|k: int| 0 <= k < pairs.len() && (#[trigger] pairs[k]).0 == key;
    assert forall|i: int| 0 <= i < pairs.len() implies (#[trigger] pairs[i]).0 == key by {
        value_is_at(pairs, i);
        assert(map.contains_key(pairs[i].0));
    }
    text_order_irreflexive(key);
    if pairs.len() > 1 {
        assert(text_before(pairs[0].0, pairs[1].0));
    }
    value_is_at(pairs, 0);
    assert(map[key] == value);
    assert(pairs =~= seq![(key, value)]);
}

/// Keys and values in ascending order of the keys, each key once.
pub struct StringMap<V> {
    entries: Vec<(String, V)>,
}

impl<V: View> View for StringMap<V> {
    type V = Map<Seq<char>, V::V>;

    open spec fn view(&self) -> Map<Seq<char>, V::V> {
        map_of(self.pairs())
    }
}

impl<V: View> StringMap<V> {
    /// The entries in their order.
    pub closed spec fn pairs(&self) -> Seq<(Seq<char>, V::V)> {
        self.entries@.map_values(|e: (String, V)| (e.0@, e.1@))
    }

    /// The keys ascend.
    pub open spec fn wf(&self) -> bool {
        ascending(self.pairs())
    }

    pub fn new() -> (map: Self)
        ensures
            map.wf(),
            map.pairs() == Seq::<(Seq<char>, V::V)>::empty(),
            map@ == Map::<Seq<char>, V::V>::empty(),
    {
        let map = StringMap { entries: Vec::new() };
        assert(map.pairs() =~= Seq::<(Seq<char>, V::V)>::empty());
        assert(map@ =~= Map::<Seq<char>, V::V>::empty());
        map
    }

    pub fn len(&self) -> (n: usize)
        ensures
            n == self.pairs().len(),
    {
        self.entries.len()
    }

    /// The key of the entry at `i`.
    pub fn key_at(&self, i: usize) -> (key: &str)
        requires
            i < self.pairs().len(),
        ensures
            key@ == self.pairs()[i as int].0,
    {
        self.entries[i].0.as_str()
    }

    /// The value of the entry at `i`.
    pub fn value_at(&self, i: usize) -> (value: &V)
        requires
            i < self.pairs().len(),
        ensures
            value@ == self.pairs()[i as int].1,
    {
        &self.entries[i].1
    }

    /// What the map holds for `key`.
    pub fn get(&self, key: &str) -> (value: Option<&V>)
        requires
            self.wf(),
        ensures
            value is Some <==> self@.dom().contains(key@),
            value is Some ==> (value->0)@ == self@[key@],
    {
        let mut i: usize = 0;
        let sought: String = key.to_owned();
        while i < self.entries.len()
            invariant
                i <= self.entries.len(),
                sought@ == key@,
                forall|k: int| 0 <= k < i ==> (#[trigger] self.pairs()[k]).0 != key@,
                self.wf(),
            decreases self.entries.len() - i,
        {
            if self.entries[i].0 == sought {
                proof {
                    value_is_at(self.pairs(), i as int);
                }
                return Some(&self.entries[i].1);
            }
            i += 1;
        }
        None
    }

    /// Puts `value` under `key`, in place of what was there.
    pub fn insert(&mut self, key: String, value: V)
        requires
            old(self).wf(),
        ensures
            final(self).wf(),
            final(self)@ == old(self)@.insert(key@, value@),
    {
        let ghost before = self.pairs();
        let mut i: usize = 0;
        while i < self.entries.len() && text_precedes(self.entries[i].0.as_str(), key.as_str())
            invariant
                i <= self.entries.len(),
                self.pairs() == before,
                forall|k: int| 0 <= k < i ==> text_before((#[trigger] before[k]).0, key@),
            decreases self.entries.len() - i,
        {
            i += 1;
        }
        if i < self.entries.len() && self.entries[i].0 == key {
            let ghost pair = (key@, value@);
            self.entries.set(i, (key, value));
            assert(self.pairs() =~= before.update(i as int, pair));
            proof {
                let after = self.pairs();
                assert(ascending(after)) by {
                    assert forall|a: int, b: int| 0 <= a < b < after.len() implies text_before(
                        (#[trigger] after[a]).0,
                        (#[trigger] after[b]).0,
                    ) by {
                        assert(text_before(before[a].0, before[b].0));
                    }
                }
                same_map(before, after, i as int, pair);
            }
        } else {
            let ghost pair = (key@, value@);
            self.entries.insert(i, (key, value));
            assert(self.pairs() =~= before.insert(i as int, pair));
            proof {
                let after = self.pairs();
                if i < before.len() {
                    text_order_total(before[i as int].0, pair.0);
                }
                assert forall|k: int| i <= k < before.len() implies text_before(
                    pair.0,
                    (#[trigger] before[k]).0,
                ) by {
                    if k > i {
                        assert(text_before(before[i as int].0, before[k].0));
                        text_order_transitive(pair.0, before[i as int].0, before[k].0);
                    }
                }
                assert forall|a: int, b: int| 0 <= a < b < after.len() implies text_before(
                    (#[trigger] after[a]).0,
                    (#[trigger] after[b]).0,
                ) by {
                    let x = if a < i {
                        a
                    } else {
                        a - 1
                    };
                    let y = if b < i {
                        b
                    } else {
                        b - 1
                    };
                    if a == i {
                        assert(after[b] == before[y]);
                    } else if b == i {
                        assert(after[a] == before[x]);
                    } else {
                        assert(after[a] == before[x]);
                        assert(after[b] == before[y]);
                        assert(text_before(before[x].0, before[y].0));
                    }
                }
                inserted_map(before, after, i as int, pair);
            }
        }
    }
}

/// Replacing the value of a key.
proof fn same_map<T>(
    before: Seq<(Seq<char>, T)>,
    after: Seq<(Seq<char>, T)>,
    i: int,
    pair: (Seq<char>, T),
)
    requires
        ascending(before),
        ascending(after),
        0 <= i < before.len(),
        before[i].0 == pair.0,
        after == before.update(i, pair),
    ensures
        map_of(after) == map_of(before).insert(pair.0, pair.1),
{
    assert forall|key: Seq<char>| has_key(after, key) == (has_key(before, key) || key == pair.0) by {
        if has_key(before, key) {
            let k = choose|k: int| 0 <= k < before.len() && (#[trigger] before[k]).0 == key;
            assert(after[k].0 == key);
        }
        if key == pair.0 {
            assert(after[i].0 == key);
        }
        if has_key(after, key) {
            let k = choose|k: int| 0 <= k < after.len() && (#[trigger] after[k]).0 == key;
            assert(before[k].0 == key);
        }
    }
    assert forall|key: Seq<char>| has_key(after, key) implies value_of(after, key) == if key
        == pair.0 {
        pair.1
    } else {
        value_of(before, key)
    } by {
        let k = choose|k: int| 0 <= k < after.len() && (#[trigger] after[k]).0 == key;
        value_is_at(after, k);
        value_is_at(before, k);
        value_is_at(after, i);
    }
    assert(map_of(after) =~= map_of(before).insert(pair.0, pair.1));
}

/// Adding a key that was not there.
proof fn inserted_map<T>(
    before: Seq<(Seq<char>, T)>,
    after: Seq<(Seq<char>, T)>,
    i: int,
    pair: (Seq<char>, T),
)
    requires
        ascending(before),
        ascending(after),
        0 <= i <= before.len(),
        after == before.insert(i, pair),
    ensures
        map_of(after) == map_of(before).insert(pair.0, pair.1),
{
    assert forall|key: Seq<char>| has_key(after, key) == (has_key(before, key) || key == pair.0) by {
        if has_key(before, key) {
            let k = choose|k: int| 0 <= k < before.len() && (#[trigger] before[k]).0 == key;
            assert(after[if k < i {
                k
            } else {
                k + 1
            }].0 == key);
        }
        if key == pair.0 {
            assert(after[i].0 == key);
        }
        if has_key(after, key) {
            let k = choose|k: int| 0 <= k < after.len() && (#[trigger] after[k]).0 == key;
            if k != i {
                assert(before[if k < i {
                    k
                } else {
                    k - 1
                }].0 == key);
            }
        }
    }
    assert forall|key: Seq<char>| has_key(after, key) implies value_of(after, key) == if key
        == pair.0 {
        pair.1
    } else {
        value_of(before, key)
    } by {
        let k = choose|k: int| 0 <= k < after.len() && (#[trigger] after[k]).0 == key;
        value_is_at(after, k);
        value_is_at(after, i);
        if k < i {
            value_is_at(before, k);
        } else if k > i {
            value_is_at(before, k - 1);
        }
    }
    assert(map_of(after) =~= map_of(before).insert(pair.0, pair.1));
}

} // verus!
