use vstd::prelude::*;
use crate::kvlist::KvList;

verus! {

/// An opaque identifier distinguishing one system instance; it only scopes
/// local resources.
#[derive(Clone, Copy, PartialEq, Eq, Hash, Debug, Structural)]
pub struct SystemId {
    pub id: u64,
}

/// One resource value: a process-wide (or system-scoped) singleton, keyed by
/// the key standing for its type and carrying its data as plain bits.
#[derive(Clone, Copy, PartialEq, Eq, Debug, Structural)]
pub struct ResourceValue {
    pub type_key: u64,
    pub value: u64,
}

/// The abstract state of a resource registry: the global singleton per type,
/// and the singleton per (system, type) pair.  The two keyings are
/// independent: a local resource never shadows the global one of the same
/// type.
pub ghost struct ResourcesModel {
    pub globals: Map<u64, u64>,
    pub locals: Map<(u64, u64), u64>,
}

/// Overwriting the process-wide singleton of the value's type.
pub open spec fn insert_resource_model(r: ResourcesModel, resource: ResourceValue) -> ResourcesModel {
    ResourcesModel { globals: r.globals.insert(resource.type_key, resource.value), locals: r.locals }
}

/// Overwriting the singleton scoped to one (system, type) pair.
pub open spec fn insert_local_resource_model(
    r: ResourcesModel,
    system_id: SystemId,
    resource: ResourceValue,
) -> ResourcesModel {
    ResourcesModel {
        globals: r.globals,
        locals: r.locals.insert((system_id.id, resource.type_key), resource.value),
    }
}

/// One stored system-scoped singleton.
#[derive(Clone, Copy, PartialEq, Eq, Debug, Structural)]
pub struct LocalSlot {
    pub system_id: SystemId,
    pub type_key: u64,
    pub value: u64,
}

/// The map from (system, type) to value that a sequence of local slots
/// denotes; a later slot for the same pair overwrites an earlier one.
pub open spec fn locals_map(s: Seq<LocalSlot>) -> Map<(u64, u64), u64>
    decreases s.len(),
{
    if s.len() == 0 {
        Map::empty()
    } else {
        locals_map(s.drop_last()).insert(
            (s.last().system_id.id, s.last().type_key),
            s.last().value,
        )
    }
}

/// No two local slots share their (system, type) pair.
pub open spec fn distinct_locals(s: Seq<LocalSlot>) -> bool {
    forall|i: int, j: int|
        0 <= i < j < s.len() ==> (s[i].system_id.id, s[i].type_key) != (
            s[j].system_id.id,
            s[j].type_key,
        )
}

/// A pair is in the denoted map exactly when some local slot holds it.
pub proof fn lemma_locals_map_dom(s: Seq<LocalSlot>, k: (u64, u64))
    ensures
        locals_map(s).dom().contains(k) <==> (exists|i: int|
            0 <= i < s.len() && (s[i].system_id.id, s[i].type_key) == k),
    decreases s.len(),
{
    if s.len() == 0 {
    } else {
        lemma_locals_map_dom(s.drop_last(), k);
        if (s.last().system_id.id, s.last().type_key) == k {
            assert((s[s.len() - 1].system_id.id, s[s.len() - 1].type_key) == k);
        } else {
            if locals_map(s).dom().contains(k) {
                let i = choose|i: int|
                    0 <= i < s.drop_last().len() && (
                        s.drop_last()[i].system_id.id,
                        s.drop_last()[i].type_key,
                    ) == k;
                assert((s[i].system_id.id, s[i].type_key) == k);
            }
            if exists|i: int| 0 <= i < s.len() && (s[i].system_id.id, s[i].type_key) == k {
                let i = choose|i: int|
                    0 <= i < s.len() && (s[i].system_id.id, s[i].type_key) == k;
                assert((s.drop_last()[i].system_id.id, s.drop_last()[i].type_key) == k);
            }
        }
    }
}

/// With distinct pairs, the denoted map sends each slot's pair to its value.
pub proof fn lemma_locals_map_index(s: Seq<LocalSlot>, i: int)
    requires
        distinct_locals(s),
        0 <= i < s.len(),
    ensures
        locals_map(s).dom().contains((s[i].system_id.id, s[i].type_key)),
        locals_map(s)[(s[i].system_id.id, s[i].type_key)] == s[i].value,
    decreases s.len(),
{
    if i == s.len() - 1 {
    } else {
        assert(distinct_locals(s.drop_last())) by {
            assert(forall|p: int, q: int|
                0 <= p < q < s.drop_last().len() ==> s.drop_last()[p] == s[p]
                    && s.drop_last()[q] == s[q]);
        }
        lemma_locals_map_index(s.drop_last(), i);
        assert(s.drop_last()[i] == s[i]);
        assert((s.last().system_id.id, s.last().type_key) != (s[i].system_id.id, s[i].type_key));
    }
}

/// Removing the slot that holds a pair removes that pair from the denoted
/// map.
pub proof fn lemma_locals_map_remove(s: Seq<LocalSlot>, i: int)
    requires
        distinct_locals(s),
        0 <= i < s.len(),
    ensures
        locals_map(s.remove(i)) == locals_map(s).remove((s[i].system_id.id, s[i].type_key)),
    decreases s.len(),
{
    if i == s.len() - 1 {
        assert(s.remove(i) =~= s.drop_last());
        assert(forall|j: int| 0 <= j < s.len() - 1 ==> s.drop_last()[j] == s[j]);
        lemma_locals_map_dom(s.drop_last(), (s[i].system_id.id, s[i].type_key));
        assert(!locals_map(s.drop_last()).dom().contains((s[i].system_id.id, s[i].type_key)));
        assert(locals_map(s.remove(i)) =~= locals_map(s).remove(
            (s[i].system_id.id, s[i].type_key),
        ));
    } else {
        assert(distinct_locals(s.drop_last())) by {
            assert(forall|p: int, q: int|
                0 <= p < q < s.drop_last().len() ==> s.drop_last()[p] == s[p]
                    && s.drop_last()[q] == s[q]);
        }
        lemma_locals_map_remove(s.drop_last(), i);
        assert(s.remove(i).drop_last() =~= s.drop_last().remove(i));
        assert(s.remove(i).last() == s.last());
        assert(s.drop_last()[i] == s[i]);
        assert((s.last().system_id.id, s.last().type_key) != (s[i].system_id.id, s[i].type_key));
        assert(locals_map(s.remove(i)) =~= locals_map(s).remove(
            (s[i].system_id.id, s[i].type_key),
        ));
    }
}

/// The resource registry that commands are applied to: process-wide
/// singletons keyed by type, and system-scoped singletons keyed by
/// (system, type).
#[derive(Debug)]
pub struct Resources {
    pub globals: KvList,
    pub locals: Vec<LocalSlot>,
}

impl View for Resources {
    type V = ResourcesModel;

    open spec fn view(&self) -> ResourcesModel {
        ResourcesModel { globals: self.globals@, locals: locals_map(self.locals@) }
    }
}

impl Default for Resources {
    /// An empty registry.
    fn default() -> (r: Resources)
        ensures
            r.wf(),
            r@.globals =~= Map::<u64, u64>::empty(),
            r@.locals =~= Map::<(u64, u64), u64>::empty(),
    {
        Resources { globals: KvList::new(), locals: Vec::new() }
    }
}

impl Resources {
    /// Well-formed: one slot per type globally, one per (system, type) pair
    /// locally.
    pub open spec fn wf(&self) -> bool {
        &&& self.globals.wf()
        &&& distinct_locals(self.locals@)
    }

    /// Overwrites the process-wide singleton of the value's type (last write
    /// wins).
    pub fn insert(&mut self, resource: ResourceValue)
        requires
            old(self).wf(),
        ensures
            final(self).wf(),
            final(self)@ == insert_resource_model(old(self)@, resource),
    {
        self.globals.set(resource.type_key, resource.value);
    }

    /// Overwrites the singleton scoped to (system, type), independent of the
    /// global singleton of the same type and of every other system's.
    pub fn insert_local(&mut self, system_id: SystemId, resource: ResourceValue)
        requires
            old(self).wf(),
        ensures
            final(self).wf(),
            final(self)@ == insert_local_resource_model(old(self)@, system_id, resource),
    {
        let ghost s0 = self.locals@;
        let n = self.locals.len();
        let mut i: usize = 0;
        while i < n
            invariant
                n == self.locals@.len(),
                i <= n,
                self.wf(),
                self.locals@ == s0,
                old(self).locals@ == s0,
                old(self).globals == self.globals,
                forall|j: int|
                    0 <= j < i ==> (self.locals@[j].system_id.id, self.locals@[j].type_key) != (
                        system_id.id,
                        resource.type_key,
                    ),
            decreases n - i,
        {
            if self.locals[i].system_id.id == system_id.id && self.locals[i].type_key
                == resource.type_key {
                proof {
                    lemma_locals_map_remove(s0, i as int);
                }
                let _ = self.locals.remove(i);
                proof {
                    assert(forall|j: int|
                        0 <= j < self.locals@.len() ==> (
                            self.locals@[j].system_id.id,
                            self.locals@[j].type_key,
                        ) != (system_id.id, resource.type_key)) by {
                        assert(forall|j: int|
                            0 <= j < s0.remove(i as int).len()
                                ==> s0.remove(i as int)[j] == (if j < i as int {
                                s0[j]
                            } else {
                                s0[j + 1]
                            }));
                    }
                    assert(distinct_locals(self.locals@)) by {
                        assert(forall|p: int, q: int|
                            0 <= p < q < s0.remove(i as int).len()
                                ==> s0.remove(i as int)[p] == (if p < i as int {
                                s0[p]
                            } else {
                                s0[p + 1]
                            }) && s0.remove(i as int)[q] == (if q < i as int {
                                s0[q]
                            } else {
                                s0[q + 1]
                            }));
                    }
                }
                self.locals.push(
                    LocalSlot { system_id, type_key: resource.type_key, value: resource.value },
                );
                proof {
                    assert(self.locals@.drop_last() =~= s0.remove(i as int));
                    assert(locals_map(self.locals@) =~= locals_map(s0).insert(
                        (system_id.id, resource.type_key),
                        resource.value,
                    ));
                    assert(distinct_locals(self.locals@));
                }
                return ;
            }
            i += 1;
        }
        self.locals.push(
            LocalSlot { system_id, type_key: resource.type_key, value: resource.value },
        );
        proof {
            assert(self.locals@.drop_last() =~= s0);
            assert(locals_map(self.locals@) =~= locals_map(s0).insert(
                (system_id.id, resource.type_key),
                resource.value,
            ));
            assert(distinct_locals(self.locals@));
        }
    }

    /// Reads the process-wide singleton of a type, if one was ever written.
    pub fn get(&self, type_key: u64) -> (r: Option<u64>)
        requires
            self.wf(),
        ensures
            match r {
                Some(v) => self@.globals.dom().contains(type_key) && self@.globals[type_key] == v,
                None => !self@.globals.dom().contains(type_key),
            },
    {
        self.globals.get(type_key)
    }

    /// Reads the singleton scoped to (system, type), if one was ever
    /// written.
    pub fn get_local(&self, system_id: SystemId, type_key: u64) -> (r: Option<u64>)
        requires
            self.wf(),
        ensures
            match r {
                Some(v) => self@.locals.dom().contains((system_id.id, type_key))
                    && self@.locals[(system_id.id, type_key)] == v,
                None => !self@.locals.dom().contains((system_id.id, type_key)),
            },
    {
        let n = self.locals.len();
        let mut i: usize = 0;
        while i < n
            invariant
                n == self.locals@.len(),
                i <= n,
                self.wf(),
                forall|j: int|
                    0 <= j < i ==> (self.locals@[j].system_id.id, self.locals@[j].type_key) != (
                        system_id.id,
                        type_key,
                    ),
            decreases n - i,
        {
            if self.locals[i].system_id.id == system_id.id && self.locals[i].type_key == type_key {
                proof {
                    lemma_locals_map_index(self.locals@, i as int);
                }
                return Some(self.locals[i].value);
            }
            i += 1;
        }
        proof {
            lemma_locals_map_dom(self.locals@, (system_id.id, type_key));
        }
        None
    }
}

} // verus!
