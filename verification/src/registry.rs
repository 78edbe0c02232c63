use crate::models::LightState;
use vstd::prelude::*;

verus! {

/// The device registry: the authoritative mapping from device identifier to
/// its current state. Keys are pairwise distinct; insertion order carries no
/// meaning. The registry's view is the mathematical map it denotes.
pub struct Registry {
    pairs: Vec<(String, LightState)>,
}

/// The mapping denoted by a sequence of key/state pairs, later pairs
/// overriding earlier ones (moot for a well-formed registry, whose keys are
/// distinct).
spec fn pairs_as_map(pairs: Seq<(String, LightState)>) -> Map<Seq<char>, LightState>
    decreases pairs.len(),
{
    if pairs.len() == 0 {
        Map::empty()
    } else {
        pairs_as_map(pairs.drop_last()).insert(pairs.last().0@, pairs.last().1)
    }
}

/// No two pairs share a key.
spec fn distinct_keys(pairs: Seq<(String, LightState)>) -> bool {
    forall|i: int, j: int| 0 <= i < j < pairs.len() ==> pairs[i].0@ != pairs[j].0@
}

/// A key outside the sequence is outside the denoted map.
proof fn lemma_as_map_missing(pairs: Seq<(String, LightState)>, k: Seq<char>)
    requires
        forall|i: int| 0 <= i < pairs.len() ==> pairs[i].0@ != k,
    ensures
        !pairs_as_map(pairs).contains_key(k),
    decreases pairs.len(),
{
    if pairs.len() > 0 {
        lemma_as_map_missing(pairs.drop_last(), k);
    }
}

/// Under distinct keys, the pair at any position gives the map's value at
/// that key.
proof fn lemma_as_map_index(pairs: Seq<(String, LightState)>, i: int)
    requires
        distinct_keys(pairs),
        0 <= i < pairs.len(),
    ensures
        pairs_as_map(pairs).contains_key(pairs[i].0@),
        pairs_as_map(pairs)[pairs[i].0@] == pairs[i].1,
    decreases pairs.len(),
{
    if i < pairs.len() - 1 {
        lemma_as_map_index(pairs.drop_last(), i);
    }
}

/// Every key of the denoted map comes from some pair.
proof fn lemma_as_map_exists(pairs: Seq<(String, LightState)>, k: Seq<char>)
    requires
        pairs_as_map(pairs).contains_key(k),
    ensures
        exists|i: int| 0 <= i < pairs.len() && pairs[i].0@ == k,
    decreases pairs.len(),
{
    if pairs.len() > 0 && pairs.last().0@ != k {
        lemma_as_map_exists(pairs.drop_last(), k);
        let i = choose|i: int| 0 <= i < pairs.drop_last().len() && pairs.drop_last()[i].0@ == k;
        assert(pairs[i].0@ == k);
    }
}

/// Replacing the pair at position `i` by one with the same key turns the
/// denoted map into an insert at that key.
proof fn lemma_as_map_update(pairs: Seq<(String, LightState)>, i: int, p: (String, LightState))
    requires
        distinct_keys(pairs),
        0 <= i < pairs.len(),
        p.0@ == pairs[i].0@,
    ensures
        pairs_as_map(pairs.update(i, p)) =~= pairs_as_map(pairs).insert(p.0@, p.1),
    decreases pairs.len(),
{
    let updated = pairs.update(i, p);
    if i == pairs.len() - 1 {
        assert(updated.drop_last() =~= pairs.drop_last());
    } else {
        assert(updated.drop_last() =~= pairs.drop_last().update(i, p));
        lemma_as_map_update(pairs.drop_last(), i, p);
        assert(updated.last() == pairs.last());
    }
}

/// Under distinct keys the denoted map has exactly one entry per pair.
proof fn lemma_as_map_len(pairs: Seq<(String, LightState)>)
    requires
        distinct_keys(pairs),
    ensures
        pairs_as_map(pairs).dom().finite(),
        pairs_as_map(pairs).dom().len() == pairs.len(),
    decreases pairs.len(),
{
    broadcast use vstd::set::axiom_set_insert_len;

    if pairs.len() > 0 {
        lemma_as_map_len(pairs.drop_last());
        lemma_as_map_missing(pairs.drop_last(), pairs.last().0@);
    }
}

impl View for Registry {
    type V = Map<Seq<char>, LightState>;

    closed spec fn view(&self) -> Map<Seq<char>, LightState> {
        pairs_as_map(self.pairs@)
    }
}

impl Registry {
    /// Keys are pairwise distinct. Constructors establish this and every
    /// method preserves it.
    pub closed spec fn wf(&self) -> bool {
        distinct_keys(self.pairs@)
    }

    /// An empty registry.
    pub fn new() -> (r: Registry)
        ensures
            r.wf(),
            r@ == Map::<Seq<char>, LightState>::empty(),
    {
        Registry { pairs: Vec::new() }
    }

    /// The position of `id` among the pairs, if present.
    fn find(&self, id: &String) -> (r: Option<usize>)
        requires
            self.wf(),
        ensures
            (r matches Some(i) ==> i < self.pairs@.len() && self.pairs@[i as int].0@ == id@
                && self@.contains_key(id@) && self@[id@] == self.pairs@[i as int].1),
            r is None ==> !self@.contains_key(id@),
    {
        let mut i: usize = 0;
        while i < self.pairs.len()
            invariant
                i <= self.pairs@.len(),
                self.wf(),
                forall|k: int| 0 <= k < i ==> self.pairs@[k].0@ != id@,
            decreases self.pairs@.len() - i,
        {
            if self.pairs[i].0 == *id {
                proof {
                    lemma_as_map_index(self.pairs@, i as int);
                }
                return Some(i);
            }
            i += 1;
        }
        proof {
            lemma_as_map_missing(self.pairs@, id@);
        }
        None
    }

    /// Whether the registry knows device `id`.
    pub fn contains(&self, id: &String) -> (r: bool)
        requires
            self.wf(),
        ensures
            r == self@.contains_key(id@),
    {
        self.find(id).is_some()
    }

    /// The recorded state of device `id`, if any.
    pub fn get(&self, id: &String) -> (r: Option<LightState>)
        requires
            self.wf(),
        ensures
            r == if self@.contains_key(id@) {
                Some(self@[id@])
            } else {
                None::<LightState>
            },
    {
        match self.find(id) {
            Some(i) => Some(self.pairs[i].1),
            None => None,
        }
    }

    /// Record `st` for device `id`, adding the device if it is new.
    pub fn upsert(&mut self, id: String, st: LightState)
        requires
            old(self).wf(),
        ensures
            final(self).wf(),
            final(self)@ == old(self)@.insert(id@, st),
    {
        match self.find(&id) {
            Some(i) => {
                let ghost pairs0 = self.pairs@;
                let (k, _) = self.pairs.remove(i);
                self.pairs.insert(i, (k, st));
                proof {
                    assert(self.pairs@ =~= pairs0.update(i as int, self.pairs@[i as int]));
                    lemma_as_map_update(pairs0, i as int, self.pairs@[i as int]);
                    assert(self@ =~= old(self)@.insert(id@, st));
                }
            },
            None => {
                let ghost pairs0 = self.pairs@;
                proof {
                    assert forall|k: int| 0 <= k < pairs0.len()
                        implies pairs0[k].0@ != id@ by {
                        if pairs0[k].0@ == id@ {
                            lemma_as_map_index(pairs0, k);
                        }
                    }
                }
                self.pairs.push((id, st));
                proof {
                    assert(self.pairs@.drop_last() =~= pairs0);
                }
            },
        }
    }

    /// Record `st` for device `id` only if the device is already known;
    /// report whether it was.
    pub fn set_if_present(&mut self, id: &String, st: LightState) -> (r: bool)
        requires
            old(self).wf(),
        ensures
            final(self).wf(),
            r == old(self)@.contains_key(id@),
            r ==> final(self)@ == old(self)@.insert(id@, st),
            !r ==> final(self)@ == old(self)@,
    {
        match self.find(id) {
            Some(i) => {
                let ghost pairs0 = self.pairs@;
                let (k, _) = self.pairs.remove(i);
                self.pairs.insert(i, (k, st));
                proof {
                    assert(self.pairs@ =~= pairs0.update(i as int, self.pairs@[i as int]));
                    lemma_as_map_update(pairs0, i as int, self.pairs@[i as int]);
                    assert(self@ =~= old(self)@.insert(id@, st));
                }
                true
            },
            None => false,
        }
    }

    /// The number of devices the registry knows.
    pub fn len(&self) -> (n: usize)
        requires
            self.wf(),
        ensures
            n == self@.dom().len(),
    {
        proof {
            lemma_as_map_len(self.pairs@);
        }
        self.pairs.len()
    }

    /// An independent copy denoting the same mapping: the full snapshot that
    /// the actor hands to the distributor.
    pub fn snapshot(&self) -> (r: Registry)
        requires
            self.wf(),
        ensures
            r.wf(),
            r@ == self@,
    {
        let mut out: Vec<(String, LightState)> = Vec::new();
        let mut i: usize = 0;
        while i < self.pairs.len()
            invariant
                i <= self.pairs@.len(),
                self.wf(),
                out@.len() == i,
                forall|k: int| 0 <= k < i ==> out@[k].0@ == self.pairs@[k].0@
                    && out@[k].1 == self.pairs@[k].1,
                pairs_as_map(out@) == pairs_as_map(self.pairs@.subrange(0, i as int)),
            decreases self.pairs@.len() - i,
        {
            let ghost out0 = out@;
            let k = self.pairs[i].0.clone();
            let st = self.pairs[i].1;
            out.push((k, st));
            proof {
                assert(out@.drop_last() =~= out0);
                assert(self.pairs@.subrange(0, i + 1 as int).drop_last()
                    =~= self.pairs@.subrange(0, i as int));
                assert(pairs_as_map(out@) == pairs_as_map(self.pairs@.subrange(0, i + 1 as int)));
            }
            i += 1;
        }
        proof {
            assert(self.pairs@.subrange(0, self.pairs@.len() as int) =~= self.pairs@);
        }
        Registry { pairs: out }
    }

    /// The registry's contents as a vector of key/state pairs with distinct
    /// keys: exactly the entries of the denoted mapping.
    pub fn to_pairs(&self) -> (r: Vec<(String, LightState)>)
        requires
            self.wf(),
        ensures
            forall|i: int, j: int| 0 <= i < j < r@.len() ==> r@[i].0@ != r@[j].0@,
            forall|i: int| 0 <= i < r@.len()
                ==> self@.contains_key(#[trigger] r@[i].0@) && self@[r@[i].0@] == r@[i].1,
            forall|k: Seq<char>| self@.contains_key(k)
                ==> exists|i: int| 0 <= i < r@.len() && #[trigger] r@[i].0@ == k,
    {
        let copy = self.snapshot();
        proof {
            assert forall|i: int| 0 <= i < copy.pairs@.len()
                implies self@.contains_key(#[trigger] copy.pairs@[i].0@)
                    && self@[copy.pairs@[i].0@] == copy.pairs@[i].1 by {
                lemma_as_map_index(copy.pairs@, i);
            }
            assert forall|k: Seq<char>| self@.contains_key(k)
                implies exists|i: int| 0 <= i < copy.pairs@.len()
                    && #[trigger] copy.pairs@[i].0@ == k by {
                lemma_as_map_exists(copy.pairs@, k);
            }
        }
        copy.pairs
    }
}

} // verus!
