//! A small map from texts to values that remembers the order in which its keys arrived.
use vstd::prelude::*;

use crate::text;

verus! {

/// The map that a list of pairs describes: of two pairs with the same key the later one counts.
pub open spec fn pairs_map<V>(pairs: Seq<(String, V)>) -> Map<Seq<char>, V>
    decreases pairs.len(),
{
    if pairs.len() == 0 {
        Map::empty()
    } else {
        pairs_map(pairs.drop_last()).insert(pairs.last().0@, pairs.last().1)
    }
}

/// Whether no key occurs in two of the pairs.
pub open spec fn keys_differ<V>(pairs: Seq<(String, V)>) -> bool {
    forall|i: int, j: int|
        0 <= i < j < pairs.len() ==> (#[trigger] pairs[i]).0@ != (#[trigger] pairs[j]).0@
}

/// A map from texts to values.
#[derive(Debug)]
pub struct TextMap<V> {
    entries: Vec<(String, V)>,
}

impl<V> View for TextMap<V> {
    type V = Map<Seq<char>, V>;

    open spec fn view(&self) -> Map<Seq<char>, V> {
        pairs_map(self.pairs())
    }
}

/// The keys of a map of pairs are the keys of the pairs.
pub proof fn pairs_map_keys<V>(pairs: Seq<(String, V)>, key: Seq<char>)
    ensures
        pairs_map(pairs).contains_key(key) <==> exists|i: int|
            0 <= i < pairs.len() && (#[trigger] pairs[i]).0@ == key,
    decreases pairs.len(),
{
    if pairs.len() > 0 {
        let front = pairs.drop_last();
        pairs_map_keys(front, key);
        if pairs.last().0@ == key {
            assert(pairs[pairs.len() - 1].0@ == key);
        }
        if pairs_map(front).contains_key(key) {
            let i = choose|i: int| 0 <= i < front.len() && (#[trigger] front[i]).0@ == key;
            assert(pairs[i].0@ == key);
        }
        if exists|i: int| 0 <= i < pairs.len() && (#[trigger] pairs[i]).0@ == key {
            let i = choose|i: int| 0 <= i < pairs.len() && (#[trigger] pairs[i]).0@ == key;
            if i < front.len() {
                assert(front[i].0@ == key);
            }
        }
    }
}

/// A pair whose key does not occur again decides what its key maps to.
pub proof fn pairs_map_value<V>(pairs: Seq<(String, V)>, i: int)
    requires
        0 <= i < pairs.len(),
        forall|j: int| i < j < pairs.len() ==> (#[trigger] pairs[j]).0@ != pairs[i].0@,
    ensures
        pairs_map(pairs).contains_key(pairs[i].0@),
        pairs_map(pairs)[pairs[i].0@] == pairs[i].1,
    decreases pairs.len(),
{
    let front = pairs.drop_last();
    if i < front.len() {
        assert forall|j: int| i < j < front.len() implies (#[trigger] front[j]).0@
            != front[i].0@ by {
            assert(pairs[j].0@ != pairs[i].0@);
        }
        pairs_map_value(front, i);
        assert(pairs[pairs.len() - 1].0@ != pairs[i].0@);
    }
}

/// Replacing the value of one pair, where no key occurs twice, is an insertion.
proof fn pairs_map_update<V>(pairs: Seq<(String, V)>, i: int, key: String, value: V)
    requires
        0 <= i < pairs.len(),
        keys_differ(pairs),
        pairs[i].0@ == key@,
    ensures
        pairs_map(pairs.update(i, (key, value))) == pairs_map(pairs).insert(key@, value),
    decreases pairs.len(),
{
    let front = pairs.drop_last();
    let changed = pairs.update(i, (key, value));
    if i < front.len() {
        assert(keys_differ(front)) by {
            assert forall|a: int, b: int| 0 <= a < b < front.len() implies (
            #[trigger] front[a]).0@ != (#[trigger] front[b]).0@ by {
                assert(pairs[a].0@ != pairs[b].0@);
            }
        }
        pairs_map_update(front, i, key, value);
        assert(changed.drop_last() == front.update(i, (key, value)));
        assert(pairs[i].0@ != pairs[pairs.len() - 1].0@);
    } else {
        assert(changed.drop_last() == front);
    }
    assert(pairs_map(changed) =~= pairs_map(pairs).insert(key@, value));
}

/// Where no key occurs twice there are as many keys as pairs.
proof fn pairs_map_len<V>(pairs: Seq<(String, V)>)
    requires
        keys_differ(pairs),
    ensures
        pairs_map(pairs).dom().finite(),
        pairs_map(pairs).dom().len() == pairs.len(),
    decreases pairs.len(),
{
    if pairs.len() > 0 {
        let front = pairs.drop_last();
        assert(keys_differ(front)) by {
            assert forall|a: int, b: int| 0 <= a < b < front.len() implies (
            #[trigger] front[a]).0@ != (#[trigger] front[b]).0@ by {
                assert(pairs[a].0@ != pairs[b].0@);
            }
        }
        pairs_map_len(front);
        pairs_map_keys(front, pairs.last().0@);
        if pairs_map(front).contains_key(pairs.last().0@) {
            let i = choose|i: int|
                0 <= i < front.len() && (#[trigger] front[i]).0@ == pairs.last().0@;
            assert(pairs[i].0@ != pairs[pairs.len() - 1].0@);
        }
        assert(pairs_map(pairs).dom() =~= pairs_map(front).dom().insert(pairs.last().0@));
    }
}

impl<V> TextMap<V> {
    /// The entries, in the order in which their keys first arrived.
    pub closed spec fn pairs(&self) -> Seq<(String, V)> {
        self.entries@
    }

    #[verifier::type_invariant]
    spec fn well_formed(&self) -> bool {
        keys_differ(self.entries@)
    }

    /// The empty map.
    pub fn new() -> (r: Self)
        ensures
            r@ == Map::<Seq<char>, V>::empty(),
            r.pairs() == Seq::<(String, V)>::empty(),
    {
        TextMap { entries: Vec::new() }
    }

    /// The position of a key among the entries.
    fn position(&self, key: &str) -> (r: Option<usize>)
        ensures
            match r {
                Some(i) => i < self.entries@.len() && self.entries@[i as int].0@ == key@,
                None => forall|j: int|
                    0 <= j < self.entries@.len() ==> (#[trigger] self.entries@[j]).0@ != key@,
            },
    {
        let mut i: usize = 0;
        while i < self.entries.len()
            invariant
                i <= self.entries@.len(),
                forall|j: int| 0 <= j < i ==> (#[trigger] self.entries@[j]).0@ != key@,
            decreases self.entries@.len() - i,
        {
            if text::same_text(self.entries[i].0.as_str(), key) {
                return Some(i);
            }
            i = i + 1;
        }
        None
    }

    /// Maps `key` to `value`, in place of what it was mapped to before; a key that is new comes last.
    pub fn insert(&mut self, key: String, value: V)
        ensures
            final(self)@ == old(self)@.insert(key@, value),
            if old(self)@.contains_key(key@) {
                exists|i: int|
                    0 <= i < old(self).pairs().len() && (#[trigger] old(self).pairs()[i]).0@ == key@
                        && final(self).pairs() == old(self).pairs().update(i, (key, value))
            } else {
                final(self).pairs() == old(self).pairs().push((key, value))
            },
    {
        proof {
            use_type_invariant(&*self);
        }
        let ghost before = self.entries@;
        proof {
            pairs_map_keys(before, key@);
        }
        let found = self.position(key.as_str());
        let mut entries: Vec<(String, V)> = Vec::new();
        std::mem::swap(&mut entries, &mut self.entries);
        match found {
            Some(i) => {
                proof {
                    pairs_map_update(before, i as int, key, value);
                }
                entries.set(i, (key, value));
            },
            None => {
                entries.push((key, value));
                assert(entries@.drop_last() =~= before);
            },
        }
        self.entries = entries;
    }

    /// What `key` is mapped to.
    pub fn get(&self, key: &str) -> (r: Option<&V>)
        ensures
            match r {
                Some(v) => self@.contains_key(key@) && *v == self@[key@],
                None => !self@.contains_key(key@),
            },
    {
        proof {
            use_type_invariant(self);
            pairs_map_keys(self.entries@, key@);
        }
        match self.position(key) {
            Some(i) => {
                proof {
                    pairs_map_value(self.entries@, i as int);
                }
                Some(&self.entries[i].1)
            },
            None => None,
        }
    }

    /// Whether `key` is mapped to something.
    pub fn contains_key(&self, key: &str) -> (r: bool)
        ensures
            r == self@.contains_key(key@),
    {
        self.get(key).is_some()
    }

    /// The number of keys.
    pub fn len(&self) -> (r: usize)
        ensures
            self@.dom().finite(),
            r == self@.dom().len(),
            r == self.pairs().len(),
    {
        proof {
            use_type_invariant(self);
            pairs_map_len(self.entries@);
        }
        self.entries.len()
    }

    /// Whether there is no key.
    pub fn is_empty(&self) -> (r: bool)
        ensures
            r <==> self@ == Map::<Seq<char>, V>::empty(),
    {
        proof {
            if self.entries@.len() > 0 {
                pairs_map_keys(self.entries@, self.entries@[0].0@);
                assert(self@.contains_key(self.entries@[0].0@));
            }
        }
        self.entries.len() == 0
    }

    /// The entries, in the order in which their keys first arrived.
    pub fn entries(&self) -> (r: &Vec<(String, V)>)
        ensures
            r@ == self.pairs(),
            keys_differ(r@),
    {
        proof {
            use_type_invariant(self);
        }
        &self.entries
    }
}

impl TextMap<String> {
    /// The map that a list of pairs describes: of two pairs with the same key the later one counts.
    pub fn from_pairs(pairs: &Vec<(String, String)>) -> (r: Self)
        ensures
            r@ == pairs_map(pairs@),
    {
        let mut map = TextMap::new();
        let mut i: usize = 0;
        while i < pairs.len()
            invariant
                i <= pairs@.len(),
                map@ == pairs_map(pairs@.take(i as int)),
            decreases pairs@.len() - i,
        {
            map.insert(pairs[i].0.clone(), pairs[i].1.clone());
            assert(pairs@.take(i + 1).drop_last() =~= pairs@.take(i as int));
            i = i + 1;
        }
        assert(pairs@.take(pairs@.len() as int) =~= pairs@);
        map
    }

    /// Adds the entries of `other`, which count where both maps have a key.
    pub fn extend(&mut self, other: &Self)
        ensures
            final(self)@ == old(self)@.union_prefer_right(other@),
    {
        let entries = other.entries();
        let ghost before = self@;
        let mut i: usize = 0;
        assert(entries@.take(0) =~= Seq::empty());
        assert(before =~= before.union_prefer_right(pairs_map(entries@.take(0))));
        while i < entries.len()
            invariant
                i <= entries@.len(),
                self@ == before.union_prefer_right(pairs_map(entries@.take(i as int))),
            decreases entries@.len() - i,
        {
            self.insert(entries[i].0.clone(), entries[i].1.clone());
            assert(entries@.take(i + 1).drop_last() =~= entries@.take(i as int));
            assert(self@ =~= before.union_prefer_right(pairs_map(entries@.take(i + 1))));
            i = i + 1;
        }
        assert(entries@.take(entries@.len() as int) =~= entries@);
    }
}

impl Clone for TextMap<String> {
    fn clone(&self) -> (r: Self)
        ensures
            r@ == self@,
    {
        let mut map = TextMap::new();
        map.extend(self);
        assert(map@ =~= self@);
        map
    }
}

} // verus!
