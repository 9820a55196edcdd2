//! The working mapping from remote address to expected digest.
use vstd::prelude::*;
use vstd::hash_map::StringHashMap;
use crate::Sha1;

verus! {

pub open spec fn pair_views(v: Seq<(String, Sha1)>) -> Seq<(Seq<char>, Seq<u8>)> {
    v.map_values(|e: (String, Sha1)| (e.0@, e.1@))
}

/// `m` with each pair of `items` inserted in turn, so that a later pair for an
/// address replaces an earlier one.
pub open spec fn inserted(m: Map<Seq<char>, Seq<u8>>, items: Seq<(Seq<char>, Seq<u8>)>) -> Map<Seq<char>, Seq<u8>>
    decreases items.len(),
{
    if items.len() == 0 {
        m
    } else {
        inserted(m, items.drop_last()).insert(items.last().0, items.last().1)
    }
}

/// A mapping from remote address to expected digest, each address once.
pub struct ReconciliationSet {
    entries: Vec<(String, Sha1)>,
    index: StringHashMap<usize>,
}

impl View for ReconciliationSet {
    type V = Map<Seq<char>, Seq<u8>>;

    closed spec fn view(&self) -> Map<Seq<char>, Seq<u8>> {
        Map::new(|k: Seq<char>| self.index@.contains_key(k), |k: Seq<char>| self.entries@[self.index@[k] as int].1@)
    }
}

impl ReconciliationSet {
    /// The entries stand at the positions that the index gives their addresses.
    pub closed spec fn wf(&self) -> bool {
        &&& forall|k: Seq<char>| #[trigger] self.index@.contains_key(k) ==> self.index@[k] < self.entries@.len()
            && self.entries@[self.index@[k] as int].0@ == k
        &&& forall|i: int| 0 <= i < self.entries@.len() ==> self.index@.contains_key(#[trigger] self.entries@[i].0@)
            && self.index@[self.entries@[i].0@] == i
    }

    /// The empty mapping.
    pub fn new() -> (r: ReconciliationSet)
        ensures
            r.wf(),
            r@ == Map::<Seq<char>, Seq<u8>>::empty(),
    {
        let r = ReconciliationSet { entries: Vec::new(), index: StringHashMap::new() };
        assert(r@ =~= Map::<Seq<char>, Seq<u8>>::empty());
        r
    }

    /// The number of addresses.
    pub fn len(&self) -> (r: usize)
        requires
            self.wf(),
        ensures
            r == self@.len(),
    {
        proof {
            self.lemma_keys_are_entries();
        }
        self.entries.len()
    }

    proof fn lemma_keys_are_entries(&self)
        requires
            self.wf(),
        ensures
            self@.dom() == pair_views(self.entries@).map_values(|e: (Seq<char>, Seq<u8>)| e.0).to_set(),
            self@.len() == self.entries@.len(),
    {
        let keys = pair_views(self.entries@).map_values(|e: (Seq<char>, Seq<u8>)| e.0);
        assert forall|k: Seq<char>| self@.dom().contains(k) <==> keys.to_set().contains(k) by {
            if self@.dom().contains(k) {
                let i = self.index@[k] as int;
                assert(keys[i] == k);
            }
            if keys.to_set().contains(k) {
                let i = choose|i: int| 0 <= i < keys.len() && keys[i] == k;
                assert(self.entries@[i].0@ == k);
            }
        }
        assert(self@.dom() =~= keys.to_set());
        assert(keys.no_duplicates()) by {
            assert forall|i: int, j: int| 0 <= i < keys.len() && 0 <= j < keys.len() && i != j implies keys[i] != keys[j] by {
                assert(self.index@[self.entries@[i].0@] == i);
                assert(self.index@[self.entries@[j].0@] == j);
            }
        }
        keys.unique_seq_to_set();
    }

    /// Maps `url` to `hash`, replacing any digest the address had.
    pub fn insert(&mut self, url: String, hash: Sha1)
        requires
            old(self).wf(),
        ensures
            final(self).wf(),
            final(self)@ == old(self)@.insert(url@, hash@),
    {
        let ghost before = self@;
        match self.index.get(url.as_str()) {
            Some(i) => {
                let i = *i;
                self.entries.set(i, (url, hash));
            },
            None => {
                let n = self.entries.len();
                self.index.insert(url.clone(), n);
                self.entries.push((url, hash));
            },
        }
        assert(self@ =~= before.insert(url@, hash@));
    }

    /// Inserts each pair of `items` in turn.
    pub fn extend(&mut self, items: &Vec<(String, Sha1)>)
        requires
            old(self).wf(),
        ensures
            final(self).wf(),
            final(self)@ == inserted(old(self)@, pair_views(items@)),
    {
        let ghost start = self@;
        let mut i: usize = 0;
        while i < items.len()
            invariant
                0 <= i <= items@.len(),
                self.wf(),
                self@ == inserted(start, pair_views(items@).take(i as int)),
            decreases items@.len() - i,
        {
            assert(pair_views(items@).take(i as int + 1).drop_last() =~= pair_views(items@).take(i as int));
            self.insert(items[i].0.clone(), items[i].1);
            i = i + 1;
        }
        assert(pair_views(items@).take(items@.len() as int) =~= pair_views(items@));
    }

    /// The pairs of the mapping, each address once.
    pub fn entries(&self) -> (r: &Vec<(String, Sha1)>)
        requires
            self.wf(),
        ensures
            r@.len() == self@.len(),
            forall|i: int| 0 <= i < r@.len() ==> #[trigger] self@.contains_key(r@[i].0@) && self@[r@[i].0@] == r@[i].1@,
            forall|k: Seq<char>| #[trigger] self@.contains_key(k) ==> exists|i: int| 0 <= i < r@.len() && r@[i].0@ == k,
            forall|i: int, j: int| 0 <= i < j < r@.len() ==> r@[i].0@ != r@[j].0@,
    {
        proof {
            self.lemma_keys_are_entries();
            assert forall|k: Seq<char>| #[trigger] self@.contains_key(k) implies exists|i: int| 0 <= i < self.entries@.len() && self.entries@[i].0@ == k by {
                assert(self.entries@[self.index@[k] as int].0@ == k);
            }
            assert forall|i: int, j: int| 0 <= i < j < self.entries@.len() implies self.entries@[i].0@ != self.entries@[j].0@ by {
                assert(self.index@[self.entries@[i].0@] == i);
                assert(self.index@[self.entries@[j].0@] == j);
            }
        }
        &self.entries
    }
}

} // verus!
