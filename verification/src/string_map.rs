//! A map from strings: the fields of a stored hash, symbol tables and snapshots.
use crate::text::same_text;
use vstd::prelude::*;

verus! {

/// The map that a list of pairs describes; of two pairs with one key the later counts.
pub open spec fn pairs_map<V>(pairs: Seq<(String, V)>) -> Map<Seq<char>, V>
    decreases pairs.len(),
{
    if pairs.len() == 0 {
        Map::empty()
    } else {
        pairs_map(pairs.drop_last()).insert(pairs.last().0@, pairs.last().1)
    }
}

/// Whether no two pairs have the same key.
pub open spec fn distinct_keys<V>(pairs: Seq<(String, V)>) -> bool {
    forall|i: int, j: int|
        0 <= i < j < pairs.len() ==> (#[trigger] pairs[i]).0@ != (#[trigger] pairs[j]).0@
}

/// The contents of a map of strings.
pub open spec fn text_map(map: Map<Seq<char>, String>) -> Map<Seq<char>, Seq<char>> {
    map.map_values(|s: String| s@)
}

/// A map from strings to `V`, kept as a list of pairs in which no key occurs twice.
#[derive(Debug)]
pub struct StringMap<V> {
    entries: Vec<(String, V)>,
}

impl<V> View for StringMap<V> {
    type V = Map<Seq<char>, V>;

    closed spec fn view(&self) -> Map<Seq<char>, V> {
        pairs_map(self.entries@)
    }
}

/// A key is in the map exactly where a pair has it.
pub proof fn lemma_pairs_map_dom<V>(pairs: Seq<(String, V)>, key: Seq<char>)
    ensures
        pairs_map(pairs).contains_key(key) <==> exists|i: int|
            0 <= i < pairs.len() && (#[trigger] pairs[i]).0@ == key,
    decreases pairs.len(),
{
    if pairs.len() > 0 {
        let front = pairs.drop_last();
        lemma_pairs_map_dom(front, key);
        if pairs_map(front).contains_key(key) {
            let i = choose|i: int| 0 <= i < front.len() && (#[trigger] front[i]).0@ == key;
            assert(pairs[i].0@ == key);
        }
        if pairs.last().0@ == key {
            assert(pairs[pairs.len() - 1].0@ == key);
        }
        if exists|i: int| 0 <= i < pairs.len() && (#[trigger] pairs[i]).0@ == key {
            let i = choose|i: int| 0 <= i < pairs.len() && (#[trigger] pairs[i]).0@ == key;
            if i < front.len() {
                assert(front[i].0@ == key);
            }
        }
    }
}

/// Where no key occurs twice, each pair's key is mapped to that pair's value.
pub proof fn lemma_pairs_map_value<V>(pairs: Seq<(String, V)>, i: int)
    requires
        distinct_keys(pairs),
        0 <= i < pairs.len(),
    ensures
        pairs_map(pairs).contains_key(pairs[i].0@),
        pairs_map(pairs)[pairs[i].0@] == pairs[i].1,
    decreases pairs.len(),
{
    if i < pairs.len() - 1 {
        let front = pairs.drop_last();
        assert(front[i] == pairs[i]);
        lemma_pairs_map_value(front, i);
        assert(pairs[i].0@ != pairs[pairs.len() - 1].0@);
    }
}

impl<V> StringMap<V> {
    #[verifier::type_invariant]
    spec fn well_formed(self) -> bool {
        distinct_keys(self.entries@)
    }

    /// An empty map.
    pub fn new() -> (map: Self)
        ensures
            map@ == Map::<Seq<char>, V>::empty(),
    {
        StringMap { entries: Vec::new() }
    }

    /// Whether the map holds nothing.
    pub fn is_empty(&self) -> (empty: bool)
        ensures
            empty == (self@ == Map::<Seq<char>, V>::empty()),
    {
        proof {
            if self.entries@.len() > 0 {
                lemma_pairs_map_dom(self.entries@, self.entries@[0].0@);
                assert(self@.contains_key(self.entries@[0].0@));
            }
        }
        self.entries.len() == 0
    }

    fn position(&self, key: &str) -> (r: Option<usize>)
        ensures
            match r {
                Some(i) => i < self.entries@.len() && self.entries@[i as int].0@ == key@,
                None => forall|i: int|
                    0 <= i < self.entries@.len() ==> (#[trigger] self.entries@[i]).0@ != key@,
            },
    {
        let mut i: usize = 0;
        while i < self.entries.len()
            invariant
                i <= self.entries@.len(),
                forall|j: int| 0 <= j < i ==> (#[trigger] self.entries@[j]).0@ != key@,
            decreases self.entries@.len() - i,
        {
            if same_text(self.entries[i].0.as_str(), key) {
                return Some(i);
            }
            i += 1;
        }
        None
    }

    /// The value at `key`, where there is one.
    pub fn get(&self, key: &str) -> (r: Option<&V>)
        ensures
            match r {
                Some(value) => self@.contains_key(key@) && *value == self@[key@],
                None => !self@.contains_key(key@),
            },
    {
        proof {
            use_type_invariant(self);
            lemma_pairs_map_dom(self.entries@, key@);
        }
        match self.position(key) {
            Some(i) => {
                proof {
                    lemma_pairs_map_value(self.entries@, i as int);
                }
                Some(&self.entries[i].1)
            },
            None => None,
        }
    }

    /// Takes out the value at `key`, where there is one.
    pub fn remove(&mut self, key: &str) -> (r: Option<V>)
        ensures
            final(self)@ == old(self)@.remove(key@),
            match r {
                Some(value) => old(self)@.contains_key(key@) && value == old(self)@[key@],
                None => !old(self)@.contains_key(key@),
            },
    {
        proof {
            use_type_invariant(&*self);
            lemma_pairs_map_dom(self.entries@, key@);
        }
        match self.position(key) {
            Some(i) => {
                let ghost before = self.entries@;
                let mut entries: Vec<(String, V)> = Vec::new();
                std::mem::swap(&mut entries, &mut self.entries);
                let pair = entries.remove(i);
                proof {
                    lemma_remove_pair(before, i as int);
                    lemma_pairs_map_value(before, i as int);
                }
                std::mem::swap(&mut entries, &mut self.entries);
                Some(pair.1)
            },
            None => {
                assert(self@.remove(key@) =~= self@);
                None
            },
        }
    }

    /// Maps `key` to `value`, in place of what it was mapped to.
    pub fn insert(&mut self, key: String, value: V)
        ensures
            final(self)@ == old(self)@.insert(key@, value),
    {
        let ghost start = self@;
        let _ = self.remove(key.as_str());
        proof {
            use_type_invariant(&*self);
            lemma_pairs_map_dom(self.entries@, key@);
        }
        let ghost before = self.entries@;
        let mut entries: Vec<(String, V)> = Vec::new();
        std::mem::swap(&mut entries, &mut self.entries);
        entries.push((key, value));
        proof {
            let after = entries@;
            assert(after.drop_last() =~= before);
            assert forall|i: int, j: int| 0 <= i < j < after.len() implies (#[trigger] after[i]).0@
                != (#[trigger] after[j]).0@ by {
                assert(after[i] == before[i]);
                if j < before.len() {
                    assert(after[j] == before[j]);
                }
            }
            assert(pairs_map(after) =~= start.insert(key@, value));
        }
        std::mem::swap(&mut entries, &mut self.entries);
    }

    /// The pairs of the map, each key once.
    pub fn entries(&self) -> (pairs: &Vec<(String, V)>)
        ensures
            distinct_keys(pairs@),
            pairs_map(pairs@) == self@,
    {
        proof {
            use_type_invariant(self);
        }
        &self.entries
    }

    /// The pairs of the map, each key once.
    pub fn into_entries(self) -> (pairs: Vec<(String, V)>)
        ensures
            distinct_keys(pairs@),
            pairs_map(pairs@) == self@,
    {
        proof {
            use_type_invariant(&self);
        }
        self.entries
    }

    /// The map that a list of pairs describes.
    pub fn from_pairs(pairs: Vec<(String, V)>) -> (map: Self)
        ensures
            map@ == pairs_map(pairs@),
    {
        let mut map = StringMap::new();
        let ghost all = pairs@;
        for pair in it: pairs
            invariant
                it.seq() == all,
                map@ == pairs_map(all.take(it.index() as int)),
        {
            let ghost done = all.take(it.index() as int);
            let ghost now = all.take(it.index() + 1);
            assert(now.drop_last() =~= done);
            map.insert(pair.0, pair.1);
        }
        assert(all.take(all.len() as int) =~= all);
        map
    }
}

/// Leaving out a pair removes its key from the map.
proof fn lemma_remove_pair<V>(pairs: Seq<(String, V)>, i: int)
    requires
        distinct_keys(pairs),
        0 <= i < pairs.len(),
    ensures
        distinct_keys(pairs.remove(i)),
        pairs_map(pairs.remove(i)) == pairs_map(pairs).remove(pairs[i].0@),
{
    let less = pairs.remove(i);
    let key = pairs[i].0@;
    assert forall|a: int, b: int| 0 <= a < b < less.len() implies (#[trigger] less[a]).0@ != (
    #[trigger] less[b]).0@ by {
        let x = if a < i { a } else { a + 1 };
        let y = if b < i { b } else { b + 1 };
        assert(less[a] == pairs[x] && less[b] == pairs[y]);
    }
    assert forall|k: Seq<char>| #[trigger]
        pairs_map(less).contains_key(k) == pairs_map(pairs).remove(key).contains_key(k) by {
        lemma_pairs_map_dom(less, k);
        lemma_pairs_map_dom(pairs, k);
        if pairs_map(less).contains_key(k) {
            let a = choose|a: int| 0 <= a < less.len() && (#[trigger] less[a]).0@ == k;
            let x = if a < i { a } else { a + 1 };
            assert(less[a] == pairs[x]);
            assert(pairs[x].0@ != pairs[i].0@);
        }
        if pairs_map(pairs).contains_key(k) && k != key {
            let x = choose|x: int| 0 <= x < pairs.len() && (#[trigger] pairs[x]).0@ == k;
            let a = if x < i { x } else { x - 1 };
            assert(less[a] == pairs[x]);
        }
    }
    assert forall|k: Seq<char>| #[trigger] pairs_map(less).contains_key(k) implies pairs_map(less)[k]
        == pairs_map(pairs)[k] by {
        lemma_pairs_map_dom(less, k);
        let a = choose|a: int| 0 <= a < less.len() && (#[trigger] less[a]).0@ == k;
        let x = if a < i { a } else { a + 1 };
        assert(less[a] == pairs[x]);
        lemma_pairs_map_value(less, a);
        lemma_pairs_map_value(pairs, x);
    }
    assert(pairs_map(less) =~= pairs_map(pairs).remove(key));
}

/// The field `name` of a stored hash; an absent field reads as an empty text.
pub open spec fn field(fields: Map<Seq<char>, Seq<char>>, name: Seq<char>) -> Seq<char> {
    if fields.contains_key(name) {
        fields[name]
    } else {
        Seq::empty()
    }
}

impl Clone for StringMap<String> {
    fn clone(&self) -> (map: Self)
        ensures
            map@ == self@,
    {
        proof {
            use_type_invariant(self);
        }
        let mut entries: Vec<(String, String)> = Vec::new();
        let mut i: usize = 0;
        while i < self.entries.len()
            invariant
                i <= self.entries@.len(),
                entries@ =~= self.entries@.take(i as int),
            decreases self.entries@.len() - i,
        {
            entries.push((self.entries[i].0.clone(), self.entries[i].1.clone()));
            i += 1;
        }
        assert(entries@ =~= self.entries@);
        StringMap { entries }
    }
}

impl StringMap<String> {
    /// The contents of the map.
    pub open spec fn texts(self) -> Map<Seq<char>, Seq<char>> {
        text_map(self@)
    }

    /// The text at `name`, empty where there is none.
    pub fn text(&self, name: &str) -> (r: String)
        ensures
            r@ == field(self.texts(), name@),
    {
        match self.get(name) {
            Some(value) => value.clone(),
            None => String::new(),
        }
    }

    /// Whether the map holds nothing; a hash that is not stored reads as an empty map.
    pub fn is_absent(&self) -> (absent: bool)
        ensures
            absent == (self.texts() == Map::<Seq<char>, Seq<char>>::empty()),
    {
        proof {
            if self@ == Map::<Seq<char>, String>::empty() {
                assert(self.texts() =~= Map::<Seq<char>, Seq<char>>::empty());
            } else {
                assert(!(self@ =~= Map::<Seq<char>, String>::empty()));
                assert(exists|k: Seq<char>| self@.contains_key(k));
                let k = choose|k: Seq<char>| self@.contains_key(k);
                assert(self.texts().contains_key(k));
            }
        }
        self.is_empty()
    }
}

/// Of the pairs with one key the last counts, and a key without a pair is not in the map.
pub proof fn law_last_pair_counts<V>(pairs: Seq<(String, V)>, i: int, key: Seq<char>)
    requires
        0 <= i < pairs.len(),
        forall|j: int| i < j < pairs.len() ==> (#[trigger] pairs[j]).0@ != pairs[i].0@,
    ensures
        pairs_map(pairs).contains_key(pairs[i].0@),
        pairs_map(pairs)[pairs[i].0@] == pairs[i].1,
        (forall|j: int| 0 <= j < pairs.len() ==> (#[trigger] pairs[j]).0@ != key) ==> !pairs_map(
            pairs,
        ).contains_key(key),
    decreases pairs.len(),
{
    lemma_pairs_map_dom(pairs, key);
    if i < pairs.len() - 1 {
        let front = pairs.drop_last();
        assert forall|j: int| i < j < front.len() implies (#[trigger] front[j]).0@ != front[i].0@ by {
            assert(front[j] == pairs[j]);
        }
        law_last_pair_counts(front, i, key);
        assert(pairs[pairs.len() - 1].0@ != pairs[i].0@);
    }
}

/// A field reads as what it was set to, and as nothing where it is not there; setting another
/// field does not change it.
pub proof fn law_fields_read_as_they_were_set(
    fields: Map<Seq<char>, Seq<char>>,
    name: Seq<char>,
    other: Seq<char>,
    value: Seq<char>,
)
    ensures
        field(fields.insert(name, value), name) == value,
        field(fields.remove(name), name) == Seq::<char>::empty(),
        name != other ==> field(fields.insert(other, value), name) == field(fields, name),
{
}

/// The contents of a map of strings are those of each string, under the same key.
pub proof fn law_contents_of_maps(map: Map<Seq<char>, String>, key: Seq<char>)
    ensures
        text_map(map).contains_key(key) == map.contains_key(key),
        map.contains_key(key) ==> text_map(map)[key] == map[key]@,
{
}

}
