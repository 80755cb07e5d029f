use vstd::prelude::*;

verus! {

/// One key/value slot of a [`KvList`].
#[derive(Clone, Copy, PartialEq, Eq, Debug, Structural)]
pub struct Slot {
    pub key: u64,
    pub val: u64,
}

/// The finite map that a sequence of slots denotes: slots are written in
/// order, so a later slot with the same key overwrites an earlier one.
pub open spec fn slots_map(s: Seq<Slot>) -> Map<u64, u64>
    decreases s.len(),
{
    if s.len() == 0 {
        Map::empty()
    } else {
        slots_map(s.drop_last()).insert(s.last().key, s.last().val)
    }
}

/// No two slots share a key.
pub open spec fn distinct_keys(s: Seq<Slot>) -> bool {
    forall|i: int, j: int| 0 <= i < j < s.len() ==> s[i].key != s[j].key
}

/// A key is in the denoted map exactly when some slot holds it.
pub proof fn lemma_slots_map_dom(s: Seq<Slot>, k: u64)
    ensures
        slots_map(s).dom().contains(k) <==> (exists|i: int| 0 <= i < s.len() && s[i].key == k),
    decreases s.len(),
{
    if s.len() == 0 {
    } else {
        lemma_slots_map_dom(s.drop_last(), k);
        if s.last().key == k {
            assert(s[s.len() - 1].key == k);
        } else {
            if slots_map(s).dom().contains(k) {
                let i = choose|i: int|
                    0 <= i < s.drop_last().len() && s.drop_last()[i].key == k;
                assert(s[i].key == k);
            }
            if exists|i: int| 0 <= i < s.len() && s[i].key == k {
                let i = choose|i: int| 0 <= i < s.len() && s[i].key == k;
                assert(s.drop_last()[i].key == k);
            }
        }
    }
}

/// With distinct keys, the denoted map sends each slot's key to its value.
pub proof fn lemma_slots_map_index(s: Seq<Slot>, i: int)
    requires
        distinct_keys(s),
        0 <= i < s.len(),
    ensures
        slots_map(s).dom().contains(s[i].key),
        slots_map(s)[s[i].key] == s[i].val,
    decreases s.len(),
{
    if i == s.len() - 1 {
    } else {
        assert(distinct_keys(s.drop_last())) by {
            assert(forall|p: int, q: int|
                0 <= p < q < s.drop_last().len() ==> s.drop_last()[p] == s[p]
                    && s.drop_last()[q] == s[q]);
        }
        lemma_slots_map_index(s.drop_last(), i);
        assert(s.drop_last()[i] == s[i]);
        assert(s.last().key != s[i].key);
    }
}

/// Removing the slot that holds a key removes that key from the denoted map.
pub proof fn lemma_slots_map_remove(s: Seq<Slot>, i: int)
    requires
        distinct_keys(s),
        0 <= i < s.len(),
    ensures
        slots_map(s.remove(i)) == slots_map(s).remove(s[i].key),
    decreases s.len(),
{
    if i == s.len() - 1 {
        assert(s.remove(i) =~= s.drop_last());
        assert(forall|j: int| 0 <= j < s.len() - 1 ==> s.drop_last()[j] == s[j]);
        lemma_slots_map_dom(s.drop_last(), s[i].key);
        assert(!slots_map(s.drop_last()).dom().contains(s[i].key));
        assert(slots_map(s.remove(i)) =~= slots_map(s).remove(s[i].key));
    } else {
        assert(distinct_keys(s.drop_last())) by {
            assert(forall|p: int, q: int|
                0 <= p < q < s.drop_last().len() ==> s.drop_last()[p] == s[p]
                    && s.drop_last()[q] == s[q]);
        }
        lemma_slots_map_remove(s.drop_last(), i);
        assert(s.remove(i).drop_last() =~= s.drop_last().remove(i));
        assert(s.remove(i).last() == s.last());
        assert(s.drop_last()[i] == s[i]);
        assert(s.last().key != s[i].key);
        assert(slots_map(s.remove(i)) =~= slots_map(s).remove(s[i].key));
    }
}

/// An insertion-ordered association list of `u64` keys and values, the
/// storage shape behind component rows and the global resource registry.
/// Its abstract value is the finite map [`slots_map`] of its slots.
#[derive(Debug)]
pub struct KvList {
    pub slots: Vec<Slot>,
}

impl View for KvList {
    type V = Map<u64, u64>;

    open spec fn view(&self) -> Map<u64, u64> {
        slots_map(self.slots@)
    }
}

impl KvList {
    /// Well-formed: no key occurs twice.
    pub open spec fn wf(&self) -> bool {
        distinct_keys(self.slots@)
    }

    /// An empty list, denoting the empty map.
    pub fn new() -> (m: KvList)
        ensures
            m.wf(),
            m@ =~= Map::<u64, u64>::empty(),
    {
        KvList { slots: Vec::new() }
    }

    /// Looks a key up in the denoted map.
    pub fn get(&self, k: u64) -> (r: Option<u64>)
        requires
            self.wf(),
        ensures
            match r {
                Some(v) => self@.dom().contains(k) && self@[k] == v,
                None => !self@.dom().contains(k),
            },
    {
        let n = self.slots.len();
        let mut i: usize = 0;
        while i < n
            invariant
                n == self.slots.len(),
                i <= n,
                self.wf(),
                forall|j: int| 0 <= j < i ==> self.slots@[j].key != k,
            decreases n - i,
        {
            if self.slots[i].key == k {
                proof {
                    lemma_slots_map_index(self.slots@, i as int);
                }
                return Some(self.slots[i].val);
            }
            i += 1;
        }
        proof {
            lemma_slots_map_dom(self.slots@, k);
        }
        None
    }

    /// Writes a key, overwriting any earlier value for it: afterwards the
    /// denoted map is the old map with `k` bound to `v`.
    pub fn set(&mut self, k: u64, v: u64)
        requires
            old(self).wf(),
        ensures
            final(self).wf(),
            final(self)@ == old(self)@.insert(k, v),
    {
        let ghost s0 = self.slots@;
        let n = self.slots.len();
        let mut i: usize = 0;
        while i < n
            invariant
                n == self.slots.len(),
                i <= n,
                self.wf(),
                self.slots@ == s0,
                old(self).slots@ == s0,
                forall|j: int| 0 <= j < i ==> self.slots@[j].key != k,
            decreases n - i,
        {
            if self.slots[i].key == k {
                proof {
                    lemma_slots_map_remove(s0, i as int);
                }
                let _ = self.slots.remove(i);
                proof {
                    assert(forall|j: int|
                        0 <= j < self.slots@.len() ==> self.slots@[j].key != k) by {
                        assert(forall|j: int|
                            0 <= j < s0.remove(i as int).len()
                                ==> s0.remove(i as int)[j] == (if j < i as int {
                                s0[j]
                            } else {
                                s0[j + 1]
                            }));
                    }
                    assert(distinct_keys(self.slots@)) by {
                        assert(forall|p: int, q: int|
                            0 <= p < q < s0.remove(i as int).len()
                                ==> s0.remove(i as int)[p] == (if p < i as int {
                                s0[p]
                            } else {
                                s0[p + 1]
                            }) && s0.remove(i as int)[q] == (if q < i as int {
                                s0[q]
                            } else {
                                s0[q + 1]
                            }));
                    }
                }
                self.slots.push(Slot { key: k, val: v });
                proof {
                    assert(self.slots@.drop_last() =~= s0.remove(i as int));
                    assert(self@ =~= slots_map(s0).insert(k, v));
                    assert(distinct_keys(self.slots@));
                }
                return ;
            }
            i += 1;
        }
        self.slots.push(Slot { key: k, val: v });
        proof {
            assert(self.slots@.drop_last() =~= s0);
            assert(self@ =~= slots_map(s0).insert(k, v));
            assert(distinct_keys(self.slots@));
        }
    }
}

} // verus!
