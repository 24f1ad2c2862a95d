//! Sets of brokers, such as those that a service follows from one scan of the keys to the next.
use crate::sequence;
use crate::string_map;
use crate::string_map::StringMap;
use crate::text;
use vstd::prelude::*;

verus! {

/// A set of brokers, by their ids.
#[derive(Debug)]
pub struct BrokerSet {
    ids: StringMap<()>,
}

impl View for BrokerSet {
    type V = Set<Seq<char>>;

    closed spec fn view(&self) -> Set<Seq<char>> {
        self.ids@.dom()
    }
}

impl BrokerSet {
    /// The empty set.
    pub fn new() -> (r: BrokerSet)
        ensures
            r@ == Set::<Seq<char>>::empty(),
    {
        let r = BrokerSet { ids: StringMap::new() };
        assert(r@ =~= Set::<Seq<char>>::empty());
        r
    }

    /// The brokers with the given ids.
    pub fn of(ids: &Vec<String>) -> (r: BrokerSet)
        ensures
            r@ == text::texts(ids@).to_set(),
    {
        let mut r = BrokerSet::new();
        let ghost all = text::texts(ids@);
        let mut i: usize = 0;
        assert(all.take(0).to_set() =~= Set::empty());
        while i < ids.len()
            invariant
                i <= ids.len(),
                all == text::texts(ids@),
                r@ == all.take(i as int).to_set(),
            decreases ids.len() - i,
        {
            let _ = r.insert(ids[i].clone());
            proof {
                sequence::lemma_push_to_set(all.take(i as int), all[i as int]);
                assert(all.take(i + 1) =~= all.take(i as int).push(all[i as int]));
            }
            i += 1;
        }
        assert(all.take(i as int) =~= all);
        r
    }

    /// Whether the broker is in the set.
    pub fn contains(&self, id: &str) -> (r: bool)
        ensures
            r == self@.contains(id@),
    {
        match self.ids.get(id) {
            Some(_) => true,
            None => false,
        }
    }

    /// Adds a broker; `true` where it was not in the set.
    pub fn insert(&mut self, id: String) -> (new: bool)
        ensures
            final(self)@ == old(self)@.insert(id@),
            new == !old(self)@.contains(id@),
    {
        let new = !self.contains(id.as_str());
        self.ids.insert(id, ());
        assert(self@ =~= old(self)@.insert(id@));
        new
    }

    /// Takes a broker out.
    pub fn remove(&mut self, id: &str)
        ensures
            final(self)@ == old(self)@.remove(id@),
    {
        let _ = self.ids.remove(id);
        assert(self@ =~= old(self)@.remove(id@));
    }

    /// Keeps only the brokers that are also in `current`, and gives the ids of the others, each
    /// once.
    pub fn retain(&mut self, current: &BrokerSet) -> (removed: Vec<String>)
        ensures
            final(self)@ == old(self)@.intersect(current@),
            text::texts(removed@).no_duplicates(),
            text::texts(removed@).to_set() == old(self)@.difference(current@),
    {
        let mut removed: Vec<String> = Vec::new();
        let ghost before = self@;
        {
            let entries = self.ids.entries();
            let ghost pairs = entries@;
            let mut i: usize = 0;
            assert(text::texts(removed@).to_set() =~= Set::empty());
            while i < entries.len()
                invariant
                    i <= entries.len(),
                    pairs == entries@,
                    string_map::distinct_keys(pairs),
                    text::texts(removed@).no_duplicates(),
                    forall|id: Seq<char>| #[trigger]
                        text::texts(removed@).contains(id) <==> !current@.contains(id) && exists|j: int|
                            0 <= j < i && (#[trigger] pairs[j]).0@ == id,
                decreases entries.len() - i,
            {
                let ghost list = text::texts(removed@);
                let ghost id = pairs[i as int].0@;
                if !current.contains(entries[i].0.as_str()) {
                    removed.push(entries[i].0.clone());
                    proof {
                        assert(text::texts(removed@) =~= list.push(id));
                        assert(!list.contains(id));
                        sequence::lemma_push_contains(list, id);
                    }
                }
                proof {
                    assert forall|x: Seq<char>| #[trigger]
                        text::texts(removed@).contains(x) <==> !current@.contains(x) && exists|j: int|
                            0 <= j < i + 1 && (#[trigger] pairs[j]).0@ == x by {
                        assert(list.contains(x) <==> !current@.contains(x) && exists|j: int|
                            0 <= j < i && (#[trigger] pairs[j]).0@ == x);
                        sequence::lemma_push_contains(list, id);
                        if x == id {
                            assert(pairs[i as int].0@ == x);
                        }
                    }
                }
                i += 1;
            }
            proof {
                let list = text::texts(removed@);
                assert forall|id: Seq<char>| list.to_set().contains(id) <==> before.difference(
                    current@,
                ).contains(id) by {
                    string_map::lemma_pairs_map_dom(pairs, id);
                    assert(list.contains(id) <==> !current@.contains(id) && exists|j: int|
                        0 <= j < i && (#[trigger] pairs[j]).0@ == id);
                }
                assert(list.to_set() =~= before.difference(current@));
            }
        }
        let mut k: usize = 0;
        let ghost list = text::texts(removed@);
        assert(list.take(0).to_set() =~= Set::empty());
        assert(self@ =~= before.difference(list.take(0).to_set()));
        while k < removed.len()
            invariant
                k <= removed.len(),
                list == text::texts(removed@),
                self@ == before.difference(list.take(k as int).to_set()),
            decreases removed.len() - k,
        {
            self.remove(removed[k].as_str());
            proof {
                sequence::lemma_push_to_set(list.take(k as int), list[k as int]);
                assert(list.take(k + 1) =~= list.take(k as int).push(list[k as int]));
                assert(self@ =~= before.difference(list.take(k + 1).to_set()));
            }
            k += 1;
        }
        assert(list.take(k as int) =~= list);
        assert(self@ =~= before.intersect(current@));
        removed
    }
}

}
