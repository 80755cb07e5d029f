use vstd::prelude::*;
use crate::component::{row_after, bundle_row, Bundle, Component};
use crate::entity::Entity;
use crate::error::CommandError;
use crate::kvlist::KvList;

verus! {

/// The abstract state of a [`World`]: the component rows by entity
/// identifier, the order in which the live entities were created (the order
/// queries walk them in), and the next identifier its allocator will hand
/// out.
pub ghost struct WorldModel {
    pub rows: Map<u64, Map<u64, u64>>,
    pub order: Seq<u64>,
    pub next: u64,
}

impl WorldModel {
    /// Every live entity appears exactly once in the walk order, and no live
    /// entity carries an identifier the allocator could still hand out.
    pub open spec fn inv(self) -> bool {
        &&& self.order.no_duplicates()
        &&& (forall|id: u64| #[trigger] self.rows.dom().contains(id) <==> self.order.contains(id))
        &&& (forall|id: u64|
            #[trigger] self.rows.dom().contains(id) ==> id < self.next || self.next == u64::MAX)
    }
}

/// The allocator cursor after an identifier has been claimed: it moves past
/// the claimed identifier and saturates at the largest one.
pub open spec fn bumped(next: u64, id: u64) -> u64 {
    if id >= next {
        if id == u64::MAX {
            u64::MAX
        } else {
            (id + 1) as u64
        }
    } else {
        next
    }
}

/// Spawning under a caller-supplied identifier: the entity's row becomes
/// exactly the bundle's components; an entity new to storage is appended to
/// the walk order, an existing one keeps its place.
pub open spec fn spawn_at_model(w: WorldModel, entity: Entity, comps: Seq<Component>) -> WorldModel {
    WorldModel {
        rows: w.rows.insert(entity.id, bundle_row(comps)),
        order: if w.rows.dom().contains(entity.id) {
            w.order
        } else {
            w.order.push(entity.id)
        },
        next: bumped(w.next, entity.id),
    }
}

/// Spawning with a freshly allocated identifier.
pub open spec fn spawn_model(w: WorldModel, comps: Seq<Component>) -> WorldModel {
    spawn_at_model(w, Entity { id: w.next }, comps)
}

/// Spawning one fresh entity per bundle, in the order the bundles are given.
pub open spec fn spawn_batch_model(w: WorldModel, bundles: Seq<Bundle>) -> WorldModel
    decreases bundles.len(),
{
    if bundles.len() == 0 {
        w
    } else {
        spawn_model(spawn_batch_model(w, bundles.drop_last()), bundles.last()@)
    }
}

/// Removing an entity's row and its place in the walk order.
pub open spec fn despawn_model(w: WorldModel, entity: Entity) -> WorldModel {
    WorldModel {
        rows: w.rows.remove(entity.id),
        order: w.order.remove(w.order.index_of(entity.id)),
        next: w.next,
    }
}

/// Writing a bundle over an existing row: every component in the bundle is
/// added or overwritten, the rest of the row is kept.
pub open spec fn insert_model(w: WorldModel, entity: Entity, comps: Seq<Component>) -> WorldModel {
    WorldModel {
        rows: w.rows.insert(entity.id, row_after(w.rows[entity.id], comps)),
        order: w.order,
        next: w.next,
    }
}

/// The value pairs for keys `a` and `b` of every row holding both, walked in
/// `order`.
pub open spec fn query_pairs(
    order: Seq<u64>,
    rows: Map<u64, Map<u64, u64>>,
    a: u64,
    b: u64,
) -> Seq<(u64, u64)>
    decreases order.len(),
{
    if order.len() == 0 {
        Seq::empty()
    } else {
        let pre = query_pairs(order.drop_last(), rows, a, b);
        let id = order.last();
        if rows.dom().contains(id) && rows[id].dom().contains(a) && rows[id].dom().contains(b) {
            pre.push((rows[id][a], rows[id][b]))
        } else {
            pre
        }
    }
}

/// One live entity: its identifier and its component row.
#[derive(Debug)]
pub struct WorldRow {
    pub entity: Entity,
    pub comps: KvList,
}

/// The map from entity identifier to component row that a sequence of stored
/// rows denotes; a later row for the same entity overwrites an earlier one.
pub open spec fn rows_map(s: Seq<WorldRow>) -> Map<u64, Map<u64, u64>>
    decreases s.len(),
{
    if s.len() == 0 {
        Map::empty()
    } else {
        rows_map(s.drop_last()).insert(s.last().entity.id, s.last().comps@)
    }
}

/// The entity identifiers of stored rows, in storage order.
pub open spec fn rows_order(s: Seq<WorldRow>) -> Seq<u64> {
    s.map_values(|r: WorldRow| r.entity.id)
}

/// No two stored rows belong to the same entity.
pub open spec fn distinct_entities(s: Seq<WorldRow>) -> bool {
    forall|i: int, j: int| 0 <= i < j < s.len() ==> s[i].entity.id != s[j].entity.id
}

/// An entity is in the denoted map exactly when some stored row is its.
pub proof fn lemma_rows_map_dom(s: Seq<WorldRow>, id: u64)
    ensures
        rows_map(s).dom().contains(id) <==> (exists|i: int|
            0 <= i < s.len() && s[i].entity.id == id),
    decreases s.len(),
{
    if s.len() == 0 {
    } else {
        lemma_rows_map_dom(s.drop_last(), id);
        if s.last().entity.id == id {
            assert(s[s.len() - 1].entity.id == id);
        } else {
            if rows_map(s).dom().contains(id) {
                let i = choose|i: int|
                    0 <= i < s.drop_last().len() && s.drop_last()[i].entity.id == id;
                assert(s[i].entity.id == id);
            }
            if exists|i: int| 0 <= i < s.len() && s[i].entity.id == id {
                let i = choose|i: int| 0 <= i < s.len() && s[i].entity.id == id;
                assert(s.drop_last()[i].entity.id == id);
            }
        }
    }
}

/// With distinct entities, the denoted map sends each stored row's entity to
/// that row's components.
pub proof fn lemma_rows_map_index(s: Seq<WorldRow>, i: int)
    requires
        distinct_entities(s),
        0 <= i < s.len(),
    ensures
        rows_map(s).dom().contains(s[i].entity.id),
        rows_map(s)[s[i].entity.id] == s[i].comps@,
    decreases s.len(),
{
    if i == s.len() - 1 {
    } else {
        assert(distinct_entities(s.drop_last())) by {
            assert(forall|p: int, q: int|
                0 <= p < q < s.drop_last().len() ==> s.drop_last()[p] == s[p]
                    && s.drop_last()[q] == s[q]);
        }
        lemma_rows_map_index(s.drop_last(), i);
        assert(s.drop_last()[i] == s[i]);
        assert(s.last().entity.id != s[i].entity.id);
    }
}

/// Removing the stored row of an entity removes that entity from the denoted
/// map.
pub proof fn lemma_rows_map_remove(s: Seq<WorldRow>, i: int)
    requires
        distinct_entities(s),
        0 <= i < s.len(),
    ensures
        rows_map(s.remove(i)) == rows_map(s).remove(s[i].entity.id),
    decreases s.len(),
{
    if i == s.len() - 1 {
        assert(s.remove(i) =~= s.drop_last());
        assert(forall|j: int| 0 <= j < s.len() - 1 ==> s.drop_last()[j] == s[j]);
        lemma_rows_map_dom(s.drop_last(), s[i].entity.id);
        assert(!rows_map(s.drop_last()).dom().contains(s[i].entity.id));
        assert(rows_map(s.remove(i)) =~= rows_map(s).remove(s[i].entity.id));
    } else {
        assert(distinct_entities(s.drop_last())) by {
            assert(forall|p: int, q: int|
                0 <= p < q < s.drop_last().len() ==> s.drop_last()[p] == s[p]
                    && s.drop_last()[q] == s[q]);
        }
        lemma_rows_map_remove(s.drop_last(), i);
        assert(s.remove(i).drop_last() =~= s.drop_last().remove(i));
        assert(s.remove(i).last() == s.last());
        assert(s.drop_last()[i] == s[i]);
        assert(s.last().entity.id != s[i].entity.id);
        assert(rows_map(s.remove(i)) =~= rows_map(s).remove(s[i].entity.id));
    }
}

/// Replacing the stored row of an entity in place rebinds that entity in the
/// denoted map and changes nothing else.
pub proof fn lemma_rows_map_update(s: Seq<WorldRow>, i: int, x: WorldRow)
    requires
        distinct_entities(s),
        0 <= i < s.len(),
        x.entity.id == s[i].entity.id,
    ensures
        rows_map(s.update(i, x)) == rows_map(s).insert(x.entity.id, x.comps@),
    decreases s.len(),
{
    if i == s.len() - 1 {
        assert(s.update(i, x).drop_last() =~= s.drop_last());
        assert(s.update(i, x).last() == x);
        assert(rows_map(s.update(i, x)) =~= rows_map(s).insert(x.entity.id, x.comps@));
    } else {
        assert(distinct_entities(s.drop_last())) by {
            assert(forall|p: int, q: int|
                0 <= p < q < s.drop_last().len() ==> s.drop_last()[p] == s[p]
                    && s.drop_last()[q] == s[q]);
        }
        lemma_rows_map_update(s.drop_last(), i, x);
        assert(s.update(i, x).drop_last() =~= s.drop_last().update(i, x));
        assert(s.update(i, x).last() == s.last());
        assert(s.drop_last()[i] == s[i]);
        assert(s.last().entity.id != x.entity.id);
        assert(rows_map(s.update(i, x)) =~= rows_map(s).insert(x.entity.id, x.comps@));
    }
}

/// The component storage that commands are applied to.  This collaborator
/// keeps one row of component values per live entity plus the identifier
/// allocator, and reports a reserved-but-not-yet-spawned identifier as
/// absent.
#[derive(Debug)]
pub struct World {
    pub rows: Vec<WorldRow>,
    pub next_id: u64,
}

impl View for World {
    type V = WorldModel;

    open spec fn view(&self) -> WorldModel {
        WorldModel {
            rows: rows_map(self.rows@),
            order: rows_order(self.rows@),
            next: self.next_id,
        }
    }
}

impl Default for World {
    /// An empty world whose allocator starts at the first identifier.
    fn default() -> (w: World)
        ensures
            w.wf(),
            w@.rows =~= Map::<u64, Map<u64, u64>>::empty(),
            w@.order =~= Seq::<u64>::empty(),
            w@.next == 0,
    {
        World { rows: Vec::new(), next_id: 0 }
    }
}

impl World {
    /// Well-formed storage: one row per entity, each row well-formed, and no
    /// stored identifier still available from the allocator.
    pub open spec fn wf(&self) -> bool {
        &&& distinct_entities(self.rows@)
        &&& (forall|i: int| 0 <= i < self.rows@.len() ==> (#[trigger] self.rows@[i].comps).wf())
        &&& (forall|i: int|
            0 <= i < self.rows@.len() ==> (#[trigger] self.rows@[i].entity.id) < self.next_id
                || self.next_id == u64::MAX)
    }

    /// A well-formed world's abstract state satisfies the model invariant.
    pub proof fn lemma_wf_inv(&self)
        requires
            self.wf(),
        ensures
            self@.inv(),
    {
        let s = self.rows@;
        assert forall|id: u64| #[trigger] self@.rows.dom().contains(id) implies self@.order.contains(
            id,
        ) by {
            lemma_rows_map_dom(s, id);
            let i = choose|i: int| 0 <= i < s.len() && s[i].entity.id == id;
            assert(rows_order(s)[i] == id);
        }
        assert forall|id: u64| self@.order.contains(id) implies self@.rows.dom().contains(id) by {
            let i = choose|i: int| 0 <= i < rows_order(s).len() && rows_order(s)[i] == id;
            assert(s[i].entity.id == id);
            lemma_rows_map_dom(s, id);
        }
        assert forall|id: u64|
            #[trigger] self@.rows.dom().contains(id) implies id < self@.next || self@.next
            == u64::MAX by {
            lemma_rows_map_dom(s, id);
        }
        assert(self@.order.no_duplicates());
    }

    /// The index of the entity's stored row, if it has one.
    fn find(&self, id: u64) -> (r: Option<usize>)
        ensures
            match r {
                Some(i) => i < self.rows@.len() && self.rows@[i as int].entity.id == id,
                None => forall|j: int| 0 <= j < self.rows@.len() ==> self.rows@[j].entity.id != id,
            },
    {
        let n = self.rows.len();
        let mut i: usize = 0;
        while i < n
            invariant
                n == self.rows@.len(),
                i <= n,
                forall|j: int| 0 <= j < i ==> self.rows@[j].entity.id != id,
            decreases n - i,
        {
            if self.rows[i].entity.id == id {
                return Some(i);
            }
            i += 1;
        }
        None
    }

    /// Builds a fresh component row out of a bundle.
    fn bundle_to_row(components: &Bundle) -> (m: KvList)
        ensures
            m.wf(),
            m@ == bundle_row(components@),
    {
        let mut m = KvList::new();
        write_bundle(&mut m, components);
        m
    }

    /// Whether the entity is visible to queries.
    pub fn contains(&self, entity: Entity) -> (r: bool)
        requires
            self.wf(),
        ensures
            r == self@.rows.dom().contains(entity.id),
    {
        let r = self.find(entity.id);
        proof {
            lemma_rows_map_dom(self.rows@, entity.id);
        }
        r.is_some()
    }

    /// The value the entity holds for a component type, if any.
    pub fn get(&self, entity: Entity, type_key: u64) -> (r: Option<u64>)
        requires
            self.wf(),
        ensures
            match r {
                Some(v) => self@.rows.dom().contains(entity.id)
                    && self@.rows[entity.id].dom().contains(type_key)
                    && self@.rows[entity.id][type_key] == v,
                None => !self@.rows.dom().contains(entity.id)
                    || !self@.rows[entity.id].dom().contains(type_key),
            },
    {
        match self.find(entity.id) {
            Some(i) => {
                proof {
                    lemma_rows_map_index(self.rows@, i as int);
                }
                self.rows[i].comps.get(type_key)
            },
            None => {
                proof {
                    lemma_rows_map_dom(self.rows@, entity.id);
                }
                None
            },
        }
    }

    /// Inserts a new row under a freshly allocated identifier and returns
    /// that identifier; the new entity was not visible to queries before the
    /// call.
    pub fn spawn(&mut self, components: Bundle) -> (e: Entity)
        requires
            old(self).wf(),
            old(self).next_id < u64::MAX,
        ensures
            final(self).wf(),
            e.id == old(self)@.next,
            !old(self)@.rows.dom().contains(e.id),
            final(self)@ == spawn_model(old(self)@, components@),
    {
        let e = Entity { id: self.next_id };
        proof {
            lemma_rows_map_dom(self.rows@, e.id);
        }
        self.spawn_as_entity(e, components);
        e
    }

    /// Inserts a new row under a caller-supplied (already reserved)
    /// identifier: afterwards the entity holds exactly the bundle's
    /// components.
    pub fn spawn_as_entity(&mut self, entity: Entity, components: Bundle)
        requires
            old(self).wf(),
        ensures
            final(self).wf(),
            final(self)@ == spawn_at_model(old(self)@, entity, components@),
    {
        let ghost s0 = self.rows@;
        let row = WorldRow { entity, comps: Self::bundle_to_row(&components) };
        match self.find(entity.id) {
            Some(i) => {
                proof {
                    lemma_rows_map_dom(s0, entity.id);
                    lemma_rows_map_index(s0, i as int);
                    lemma_rows_map_update(s0, i as int, row);
                }
                let _ = self.rows.remove(i);
                self.rows.insert(i, row);
                proof {
                    assert(self.rows@ =~= s0.update(i as int, row));
                    assert(rows_order(self.rows@) =~= rows_order(s0));
                    assert(distinct_entities(self.rows@));
                    assert(bumped(self.next_id, entity.id) == self.next_id);
                    assert(self@ == spawn_at_model(old(self)@, entity, components@));
                }
            },
            None => {
                proof {
                    lemma_rows_map_dom(s0, entity.id);
                }
                self.rows.push(row);
                if entity.id >= self.next_id {
                    if entity.id == u64::MAX {
                        self.next_id = u64::MAX;
                    } else {
                        self.next_id = entity.id + 1;
                    }
                }
                proof {
                    assert(self.rows@.drop_last() =~= s0);
                    assert(rows_order(self.rows@) =~= rows_order(s0).push(entity.id));
                    assert(distinct_entities(self.rows@));
                    assert(self@ == spawn_at_model(old(self)@, entity, components@));
                }
            },
        }
    }

    /// Spawns one fresh entity per bundle, in the bundles' order, and
    /// returns the allocated identifiers in that same order.
    pub fn spawn_batch(&mut self, bundles: Vec<Bundle>) -> (es: Vec<Entity>)
        requires
            old(self).wf(),
            old(self)@.next + bundles@.len() <= u64::MAX,
        ensures
            final(self).wf(),
            final(self)@ == spawn_batch_model(old(self)@, bundles@),
            es@.len() == bundles@.len(),
            forall|k: int| 0 <= k < es@.len() ==> es@[k].id == old(self)@.next + k,
    {
        let ghost bs0 = bundles@;
        let ghost w0 = self@;
        let mut bundles = bundles;
        let mut es: Vec<Entity> = Vec::new();
        let ghost mut k: int = 0;
        while bundles.len() > 0
            invariant
                self.wf(),
                0 <= k <= bs0.len(),
                bundles@ =~= bs0.skip(k),
                es@.len() == k,
                w0.next + bs0.len() <= u64::MAX,
                self@ == spawn_batch_model(w0, bs0.take(k)),
                self@.next == w0.next + k,
                forall|j: int| 0 <= j < k ==> es@[j].id == w0.next + j,
            decreases bundles@.len(),
        {
            let b = bundles.remove(0);
            proof {
                assert(b == bs0[k]);
                assert(bundles@ =~= bs0.skip(k + 1));
                assert(bs0.take(k + 1).drop_last() =~= bs0.take(k));
                assert(bs0.take(k + 1).last() == bs0[k]);
            }
            let e = self.spawn(b);
            es.push(e);
            proof {
                k = k + 1;
            }
        }
        proof {
            assert(bs0.take(k) =~= bs0);
        }
        es
    }

    /// Removes the entity's row.  An entity absent from storage is a fatal
    /// condition reported as `ApplyTargetMissing`, and the world is left
    /// unchanged.
    pub fn despawn(&mut self, entity: Entity) -> (r: Result<(), CommandError>)
        requires
            old(self).wf(),
        ensures
            final(self).wf(),
            old(self)@.rows.dom().contains(entity.id) ==> r == Ok::<(), CommandError>(())
                && final(self)@ == despawn_model(old(self)@, entity),
            !old(self)@.rows.dom().contains(entity.id) ==> r == Err::<(), CommandError>(
                CommandError::ApplyTargetMissing(entity),
            ) && final(self)@ == old(self)@,
    {
        let ghost s0 = self.rows@;
        match self.find(entity.id) {
            Some(i) => {
                proof {
                    lemma_rows_map_dom(s0, entity.id);
                    lemma_rows_map_remove(s0, i as int);
                }
                let _ = self.rows.remove(i);
                proof {
                    assert(distinct_entities(self.rows@)) by {
                        assert(forall|p: int, q: int|
                            0 <= p < q < s0.remove(i as int).len()
                                ==> s0.remove(i as int)[p] == (if p < i as int {
                                s0[p]
                            } else {
                                s0[p + 1]
                            }) && s0.remove(i as int)[q] == (if q < i as int {
                                s0[q]
                            } else {
                                s0[q + 1]
                            }));
                    }
                    assert(rows_order(self.rows@) =~= rows_order(s0).remove(i as int));
                    let j = rows_order(s0).index_of(entity.id);
                    assert(rows_order(s0)[i as int] == entity.id);
                    assert(rows_order(s0).contains(entity.id));
                    assert(rows_order(s0)[j] == entity.id);
                    assert(s0[j].entity.id == entity.id);
                    assert(j == i as int);
                    assert(self@ == despawn_model(old(self)@, entity));
                }
                Ok(())
            },
            None => {
                proof {
                    lemma_rows_map_dom(s0, entity.id);
                }
                Err(CommandError::ApplyTargetMissing(entity))
            },
        }
    }

    /// Adds or overwrites all of the bundle's components on the entity as a
    /// single step, keeping its other components.  An entity absent from
    /// storage is a fatal condition reported as `ApplyTargetMissing`, and
    /// the world is left unchanged.
    pub fn insert(&mut self, entity: Entity, components: Bundle) -> (r: Result<(), CommandError>)
        requires
            old(self).wf(),
        ensures
            final(self).wf(),
            old(self)@.rows.dom().contains(entity.id) ==> r == Ok::<(), CommandError>(())
                && final(self)@ == insert_model(old(self)@, entity, components@),
            !old(self)@.rows.dom().contains(entity.id) ==> r == Err::<(), CommandError>(
                CommandError::ApplyTargetMissing(entity),
            ) && final(self)@ == old(self)@,
    {
        let ghost s0 = self.rows@;
        match self.find(entity.id) {
            Some(i) => {
                proof {
                    lemma_rows_map_dom(s0, entity.id);
                    lemma_rows_map_index(s0, i as int);
                }
                let mut row = self.rows.remove(i);
                write_bundle(&mut row.comps, &components);
                proof {
                    lemma_rows_map_update(s0, i as int, row);
                }
                self.rows.insert(i, row);
                proof {
                    assert(self.rows@ =~= s0.update(i as int, row));
                    assert(rows_order(self.rows@) =~= rows_order(s0));
                    assert(distinct_entities(self.rows@));
                    assert(self@ == insert_model(old(self)@, entity, components@));
                }
                Ok(())
            },
            None => {
                proof {
                    lemma_rows_map_dom(s0, entity.id);
                }
                Err(CommandError::ApplyTargetMissing(entity))
            },
        }
    }

    /// The `(a, b)` value pairs of every entity holding components of both
    /// types, walked in entity creation order.
    pub fn query_two(&self, key_a: u64, key_b: u64) -> (r: Vec<(u64, u64)>)
        requires
            self.wf(),
        ensures
            r@ == query_pairs(self@.order, self@.rows, key_a, key_b),
    {
        let ghost s = self.rows@;
        let n = self.rows.len();
        let mut r: Vec<(u64, u64)> = Vec::new();
        let mut i: usize = 0;
        while i < n
            invariant
                self.wf(),
                n == s.len(),
                s == self.rows@,
                i <= n,
                r@ == query_pairs(rows_order(s).take(i as int), rows_map(s), key_a, key_b),
            decreases n - i,
        {
            proof {
                assert(rows_order(s).take(i + 1).drop_last() =~= rows_order(s).take(i as int));
                assert(rows_order(s).take(i + 1).last() == s[i as int].entity.id);
                lemma_rows_map_index(s, i as int);
            }
            let va = self.rows[i].comps.get(key_a);
            let vb = self.rows[i].comps.get(key_b);
            match (va, vb) {
                (Some(a), Some(b)) => {
                    r.push((a, b));
                },
                _ => {},
            }
            i += 1;
        }
        proof {
            assert(rows_order(s).take(n as int) =~= rows_order(s));
        }
        r
    }
}

/// Writes every component of a bundle over a row, in bundle order.
fn write_bundle(m: &mut KvList, components: &Bundle) -> (u: ())
    requires
        old(m).wf(),
    ensures
        final(m).wf(),
        final(m)@ == row_after(old(m)@, components@),
{
    let ghost m0 = old(m)@;
    let n = components.components.len();
    let mut i: usize = 0;
    while i < n
        invariant
            m.wf(),
            n == components.components@.len(),
            i <= n,
            m@ == row_after(m0, components@.take(i as int)),
        decreases n - i,
    {
        proof {
            assert(components@.take(i + 1).drop_last() =~= components@.take(i as int));
            assert(components@.take(i + 1).last() == components@[i as int]);
        }
        let c = components.components[i];
        m.set(c.type_key, c.value);
        i += 1;
    }
    proof {
        assert(components@.take(n as int) =~= components@);
    }
}

} // verus!
