use vstd::prelude::*;
use crate::command::{
    world_step, Command, Despawn, InsertLocalResource, InsertOne, InsertResource, ResourceCommand,
    SpawnAsEntity, SpawnBatch, WorldCommand,
};
use crate::commands::apply_model;
use crate::component::{bundle_row, row_after, Bundle, Component};
use crate::entity::Entity;
use crate::error::CommandError;
use crate::resources::{ResourceValue, ResourcesModel, SystemId};
use crate::world::{spawn_batch_model, spawn_model, WorldModel};

verus! {

/// Whether a command is an insert targeting an existing entity (a plain
/// `Insert` or an `InsertOne`).
pub open spec fn is_insert_command(c: Command) -> bool {
    match c {
        Command::WriteWorld(WorldCommand::Insert(_)) => true,
        Command::WriteWorld(WorldCommand::InsertOne(_)) => true,
        _ => false,
    }
}

/// The entity an insert command targets.
pub open spec fn insert_target(c: Command) -> Entity {
    match c {
        Command::WriteWorld(WorldCommand::Insert(op)) => op.entity,
        Command::WriteWorld(WorldCommand::InsertOne(op)) => op.entity,
        _ => vstd::pervasive::arbitrary(),
    }
}

/// The components an insert command writes, as a row.
pub open spec fn insert_written_row(c: Command) -> Map<u64, u64> {
    match c {
        Command::WriteWorld(WorldCommand::Insert(op)) => bundle_row(op.components@),
        Command::WriteWorld(WorldCommand::InsertOne(op)) => bundle_row(seq![op.component]),
        _ => vstd::pervasive::arbitrary(),
    }
}

/// No command in the queue is an insert targeting this entity identifier.
pub open spec fn no_command_targets(cmds: Seq<Command>, id: u64) -> bool {
    forall|i: int| 0 <= i < cmds.len() ==> insert_target(#[trigger] cmds[i]).id != id
}

/// Writing a bundle over an empty row gives exactly the bundle's row.
pub proof fn lemma_row_after_base(row: Map<u64, u64>, comps: Seq<Component>)
    requires
        row == Map::<u64, u64>::empty(),
    ensures
        row_after(row, comps) == bundle_row(comps),
    decreases comps.len(),
{
    if comps.len() == 0 {
    } else {
        lemma_row_after_base(row, comps.drop_last());
    }
}

/// Last write wins per entity: a queue of `Insert`/`InsertOne` commands over
/// pairwise distinct, existing entities with empty rows applies cleanly, and
/// afterwards each targeted entity holds exactly the components of the one
/// (hence last) command that targeted it, while every entity targeted by no
/// command — and the resource registry — is untouched.
pub proof fn lemma_insert_distinct_targets(w: WorldModel, r: ResourcesModel, cmds: Seq<Command>)
    requires
        forall|i: int| 0 <= i < cmds.len() ==> is_insert_command(#[trigger] cmds[i]),
        forall|i: int, j: int|
            0 <= i < j < cmds.len() ==> insert_target(cmds[i]).id != insert_target(cmds[j]).id,
        forall|i: int|
            0 <= i < cmds.len() ==> w.rows.dom().contains(insert_target(#[trigger] cmds[i]).id)
                && w.rows[insert_target(cmds[i]).id] == Map::<u64, u64>::empty(),
    ensures
        ({
            let (wm, rm, f) = apply_model(w, r, cmds);
            &&& f is None
            &&& rm == r
            &&& (forall|i: int|
                0 <= i < cmds.len() ==> wm.rows.dom().contains(
                    insert_target(#[trigger] cmds[i]).id,
                ) && wm.rows[insert_target(cmds[i]).id] == insert_written_row(cmds[i]))
            &&& (forall|id: u64|
                #[trigger] no_command_targets(cmds, id) ==> wm.rows.dom().contains(id)
                    == w.rows.dom().contains(id) && (w.rows.dom().contains(id) ==> wm.rows[id]
                    == w.rows[id]))
            &&& wm.order == w.order
            &&& wm.next == w.next
        }),
    decreases cmds.len(),
{
    if cmds.len() == 0 {
    } else {
        let c0 = cmds[0];
        let t0 = insert_target(c0);
        let w1 = WorldModel {
            rows: w.rows.insert(t0.id, insert_written_row(c0)),
            order: w.order,
            next: w.next,
        };
        assert(w.rows[t0.id] == Map::<u64, u64>::empty());
        match c0 {
            Command::WriteWorld(WorldCommand::Insert(op)) => {
                lemma_row_after_base(w.rows[op.entity.id], op.components@);
                assert(world_step(w, WorldCommand::Insert(op)) == Ok::<WorldModel, CommandError>(
                    w1,
                ));
            },
            Command::WriteWorld(WorldCommand::InsertOne(op)) => {
                lemma_row_after_base(w.rows[op.entity.id], seq![op.component]);
                assert(world_step(w, WorldCommand::InsertOne(op)) == Ok::<WorldModel, CommandError>(
                    w1,
                ));
            },
            _ => {
                assert(false);
            },
        }
        let rest = cmds.skip(1);
        assert(forall|i: int| 0 <= i < rest.len() ==> rest[i] == cmds[i + 1]);
        assert(apply_model(w, r, cmds) == apply_model(w1, r, rest));
        assert forall|i: int| 0 <= i < rest.len() implies w1.rows.dom().contains(
            insert_target(#[trigger] rest[i]).id,
        ) && w1.rows[insert_target(rest[i]).id] == Map::<u64, u64>::empty() by {
            assert(rest[i] == cmds[i + 1]);
            assert(insert_target(cmds[i + 1]).id != t0.id);
        }
        lemma_insert_distinct_targets(w1, r, rest);
        let (wm, rm, f) = apply_model(w1, r, rest);
        assert(no_command_targets(rest, t0.id)) by {
            assert(forall|i: int|
                0 <= i < rest.len() ==> insert_target(#[trigger] rest[i]).id != t0.id);
        }
        assert(wm.rows.dom().contains(t0.id) && wm.rows[t0.id] == insert_written_row(c0)) by {
            assert(w1.rows.dom().contains(t0.id) && w1.rows[t0.id] == insert_written_row(c0));
        }
        assert forall|i: int| 0 <= i < cmds.len() implies wm.rows.dom().contains(
            insert_target(#[trigger] cmds[i]).id,
        ) && wm.rows[insert_target(cmds[i]).id] == insert_written_row(cmds[i]) by {
            if i == 0 {
            } else {
                assert(cmds[i] == rest[i - 1]);
            }
        }
        assert forall|id: u64| #[trigger] no_command_targets(cmds, id) implies wm.rows.dom().contains(
            id,
        ) == w.rows.dom().contains(id) && (w.rows.dom().contains(id) ==> wm.rows[id]
            == w.rows[id]) by {
            assert(insert_target(cmds[0]).id != id);
            assert(no_command_targets(rest, id)) by {
                assert(forall|i: int|
                    0 <= i < rest.len() ==> insert_target(#[trigger] rest[i]).id != id);
            }
            assert(wm.rows.dom().contains(id) == w1.rows.dom().contains(id) && (
            w1.rows.dom().contains(id) ==> wm.rows[id] == w1.rows[id]));
        }
    }
}

/// Spawning a fresh entity: the allocator's identifier was not visible
/// before, and afterwards it holds exactly the bundle's components while
/// everything else is kept; the model invariant is preserved.
pub proof fn lemma_spawn_model_fresh(w: WorldModel, comps: Seq<Component>)
    requires
        w.inv(),
        w.next < u64::MAX,
    ensures
        ({
            let w2 = spawn_model(w, comps);
            &&& w2.inv()
            &&& !w.rows.dom().contains(w.next)
            &&& w2.rows == w.rows.insert(w.next, bundle_row(comps))
            &&& w2.order == w.order.push(w.next)
            &&& w2.next == w.next + 1
        }),
{
    assert(!w.rows.dom().contains(w.next));
    let w2 = spawn_model(w, comps);
    assert(!w.order.contains(w.next));
    assert(w2.order.no_duplicates());
    assert forall|id: u64| #[trigger] w2.rows.dom().contains(id) implies w2.order.contains(id) by {
        if id == w.next {
            assert(w2.order[w2.order.len() - 1] == w.next);
        } else {
            let i = choose|i: int| 0 <= i < w.order.len() && w.order[i] == id;
            assert(w2.order[i] == id);
        }
    }
    assert forall|id: u64| w2.order.contains(id) implies w2.rows.dom().contains(id) by {
        let i = choose|i: int| 0 <= i < w2.order.len() && w2.order[i] == id;
        if i < w.order.len() {
            assert(w.order[i] == id);
        }
    }
}

/// A batch of `n` bundles spawns exactly `n` fresh entities, in bundle
/// order: none of the allocated identifiers is queryable in the starting
/// world, all are queryable afterwards with exactly their bundle's
/// components, every previously live entity is kept unchanged, and the walk
/// order grows by exactly the `n` new identifiers.
pub proof fn lemma_spawn_batch_model_fresh(w: WorldModel, bs: Seq<Bundle>)
    requires
        w.inv(),
        w.next + bs.len() <= u64::MAX,
    ensures
        ({
            let w2 = spawn_batch_model(w, bs);
            &&& w2.inv()
            &&& w2.next == w.next + bs.len()
            &&& w2.order.len() == w.order.len() + bs.len()
            &&& (forall|id: u64|
                w.next <= id < w2.next ==> !(#[trigger] w.rows.dom().contains(id)))
            &&& (forall|id: u64|
                w.next <= id < w2.next ==> #[trigger] w2.rows.dom().contains(id) && w2.rows[id]
                    == bundle_row(bs[id - w.next]@))
            &&& (forall|id: u64|
                #[trigger] w.rows.dom().contains(id) ==> w2.rows.dom().contains(id) && w2.rows[id]
                    == w.rows[id])
        }),
    decreases bs.len(),
{
    if bs.len() == 0 {
    } else {
        lemma_spawn_batch_model_fresh(w, bs.drop_last());
        let w1 = spawn_batch_model(w, bs.drop_last());
        lemma_spawn_model_fresh(w1, bs.last()@);
        let w2 = spawn_batch_model(w, bs);
        assert(w2 == spawn_model(w1, bs.last()@));
        assert(w2.next == w.next + bs.len());
        assert(w2.order.len() == w.order.len() + bs.len());
        assert forall|id: u64| w.next <= id < w2.next implies !(#[trigger] w.rows.dom().contains(
            id,
        )) by {
            if w.rows.dom().contains(id) {
                assert(id < w.next || w.next == u64::MAX);
            }
        }
        assert forall|id: u64| w.next <= id < w2.next implies #[trigger] w2.rows.dom().contains(id)
            && w2.rows[id] == bundle_row(bs[id - w.next]@) by {
            if id < w1.next {
                assert(w.next <= id < w1.next);
                assert(w1.rows.dom().contains(id));
                assert(w1.rows[id] == bundle_row(bs.drop_last()[id - w.next]@));
                assert(bs.drop_last()[id - w.next] == bs[id - w.next]);
                assert(id != w1.next);
            } else {
                assert(id == w1.next);
                assert(bs[id - w.next] == bs.last());
            }
        }
        assert forall|id: u64| #[trigger] w.rows.dom().contains(id) implies w2.rows.dom().contains(
            id,
        ) && w2.rows[id] == w.rows[id] by {
            assert(w1.rows.dom().contains(id) && w1.rows[id] == w.rows[id]);
            assert(id < w.next || w.next == u64::MAX);
            assert(id != w1.next);
        }
    }
}

/// Applying one queued `SpawnBatch` command: it performs exactly one spawn
/// per bundle, none of the allocated entities was queryable before the
/// apply, all are queryable immediately afterwards, and resources are
/// untouched.
pub proof fn lemma_spawn_batch_command(w: WorldModel, r: ResourcesModel, bundles: Vec<Bundle>)
    requires
        w.inv(),
        w.next + bundles@.len() <= u64::MAX,
    ensures
        ({
            let (wm, rm, f) = apply_model(
                w,
                r,
                seq![Command::WriteWorld(WorldCommand::SpawnBatch((SpawnBatch { bundles })))],
            );
            &&& f is None
            &&& rm == r
            &&& wm.order.len() == w.order.len() + bundles@.len()
            &&& wm.next == w.next + bundles@.len()
            &&& (forall|id: u64|
                w.next <= id < wm.next ==> !(#[trigger] w.rows.dom().contains(id)))
            &&& (forall|id: u64|
                w.next <= id < wm.next ==> #[trigger] wm.rows.dom().contains(id) && wm.rows[id]
                    == bundle_row(bundles@[id - w.next]@))
        }),
{
    let c = Command::WriteWorld(WorldCommand::SpawnBatch(SpawnBatch { bundles }));
    let cmds = seq![c];
    lemma_spawn_batch_model_fresh(w, bundles@);
    let w2 = spawn_batch_model(w, bundles@);
    assert(cmds[0] == c);
    assert(cmds.skip(1) =~= Seq::<Command>::empty());
    assert(apply_model(w2, r, Seq::<Command>::empty()) == (w2, r, None::<CommandError>));
    assert(apply_model(w, r, cmds) == apply_model(w2, r, cmds.skip(1)));
}

/// Spawn-then-decorate: spawning an entity and then inserting one more
/// component on that same entity leaves the entity holding exactly the
/// bundle's components plus the decorated one, once both commands are
/// applied in order.
pub proof fn lemma_spawn_then_with(
    w: WorldModel,
    r: ResourcesModel,
    entity: Entity,
    components: Bundle,
    component: Component,
)
    ensures
        ({
            let cmds = seq![
                Command::WriteWorld(
                    WorldCommand::SpawnAsEntity((SpawnAsEntity { entity, components })),
                ),
                Command::WriteWorld(WorldCommand::InsertOne((InsertOne { entity, component }))),
            ];
            let (wm, rm, f) = apply_model(w, r, cmds);
            &&& f is None
            &&& rm == r
            &&& wm.rows.dom().contains(entity.id)
            &&& wm.rows[entity.id] == bundle_row(components@).insert(
                component.type_key,
                component.value,
            )
        }),
{
    let c1 = Command::WriteWorld(WorldCommand::SpawnAsEntity(SpawnAsEntity { entity, components }));
    let c2 = Command::WriteWorld(WorldCommand::InsertOne(InsertOne { entity, component }));
    let cmds = seq![c1, c2];
    let w1 = crate::world::spawn_at_model(w, entity, components@);
    assert(cmds[0] == c1);
    assert(cmds.skip(1) =~= seq![c2]);
    assert(apply_model(w, r, cmds) == apply_model(w1, r, cmds.skip(1)));
    assert(w1.rows.dom().contains(entity.id));
    let w2 = crate::world::insert_model(w1, entity, seq![component]);
    assert(seq![c2][0] == c2);
    assert(seq![c2].skip(1) =~= Seq::<Command>::empty());
    assert(apply_model(w1, r, seq![c2]) == apply_model(w2, r, seq![c2].skip(1)));
    assert(apply_model(w2, r, Seq::<Command>::empty()) == (w2, r, None::<CommandError>));
    assert(seq![component].drop_last() =~= Seq::<Component>::empty());
    assert(row_after(w1.rows[entity.id], Seq::<Component>::empty()) == w1.rows[entity.id]);
    assert(row_after(w1.rows[entity.id], seq![component]) == bundle_row(components@).insert(
        component.type_key,
        component.value,
    ));
}

/// Overwrite semantics of global resources: writing a value of some type
/// and then another value of the same type, followed by apply, leaves the
/// second value retrievable — the last write wins — and the world and all
/// local resources are untouched.
pub proof fn lemma_insert_resource_overwrites(
    w: WorldModel,
    r: ResourcesModel,
    first: ResourceValue,
    second: ResourceValue,
)
    requires
        first.type_key == second.type_key,
    ensures
        ({
            let cmds = seq![
                Command::WriteResources(
                    ResourceCommand::InsertResource((InsertResource { resource: first })),
                ),
                Command::WriteResources(
                    ResourceCommand::InsertResource((InsertResource { resource: second })),
                ),
            ];
            let (wm, rm, f) = apply_model(w, r, cmds);
            &&& f is None
            &&& wm == w
            &&& rm.globals.dom().contains(second.type_key)
            &&& rm.globals[second.type_key] == second.value
            &&& rm.locals == r.locals
        }),
{
    let c1 = Command::WriteResources(
        ResourceCommand::InsertResource(InsertResource { resource: first }),
    );
    let c2 = Command::WriteResources(
        ResourceCommand::InsertResource(InsertResource { resource: second }),
    );
    let cmds = seq![c1, c2];
    let r1 = crate::command::resource_step(
        r,
        ResourceCommand::InsertResource(InsertResource { resource: first }),
    );
    let r2 = crate::command::resource_step(
        r1,
        ResourceCommand::InsertResource(InsertResource { resource: second }),
    );
    assert(cmds[0] == c1);
    assert(cmds.skip(1) =~= seq![c2]);
    assert(apply_model(w, r, cmds) == apply_model(w, r1, cmds.skip(1)));
    assert(seq![c2][0] == c2);
    assert(seq![c2].skip(1) =~= Seq::<Command>::empty());
    assert(apply_model(w, r1, seq![c2]) == apply_model(w, r2, seq![c2].skip(1)));
    assert(apply_model(w, r2, Seq::<Command>::empty()) == (w, r2, None::<CommandError>));
}

/// Independence of local resources: writing the same resource type under
/// two distinct system identifiers overwrites neither; after apply both
/// values are independently retrievable, and the global singleton of that
/// type is untouched.
pub proof fn lemma_local_resources_independent(
    w: WorldModel,
    r: ResourcesModel,
    id_a: SystemId,
    id_b: SystemId,
    value_a: ResourceValue,
    value_b: ResourceValue,
)
    requires
        id_a.id != id_b.id,
        value_a.type_key == value_b.type_key,
    ensures
        ({
            let cmds = seq![
                Command::WriteResources(
                    ResourceCommand::InsertLocalResource(
                        (InsertLocalResource { resource: value_a, system_id: id_a }),
                    ),
                ),
                Command::WriteResources(
                    ResourceCommand::InsertLocalResource(
                        (InsertLocalResource { resource: value_b, system_id: id_b }),
                    ),
                ),
            ];
            let (wm, rm, f) = apply_model(w, r, cmds);
            &&& f is None
            &&& wm == w
            &&& rm.locals.dom().contains((id_a.id, value_a.type_key))
            &&& rm.locals[(id_a.id, value_a.type_key)] == value_a.value
            &&& rm.locals.dom().contains((id_b.id, value_b.type_key))
            &&& rm.locals[(id_b.id, value_b.type_key)] == value_b.value
            &&& rm.globals == r.globals
        }),
{
    let c1 = Command::WriteResources(
        ResourceCommand::InsertLocalResource(
            InsertLocalResource { resource: value_a, system_id: id_a },
        ),
    );
    let c2 = Command::WriteResources(
        ResourceCommand::InsertLocalResource(
            InsertLocalResource { resource: value_b, system_id: id_b },
        ),
    );
    let cmds = seq![c1, c2];
    let r1 = crate::command::resource_step(
        r,
        ResourceCommand::InsertLocalResource(
            InsertLocalResource { resource: value_a, system_id: id_a },
        ),
    );
    let r2 = crate::command::resource_step(
        r1,
        ResourceCommand::InsertLocalResource(
            InsertLocalResource { resource: value_b, system_id: id_b },
        ),
    );
    assert(cmds[0] == c1);
    assert(cmds.skip(1) =~= seq![c2]);
    assert(apply_model(w, r, cmds) == apply_model(w, r1, cmds.skip(1)));
    assert(seq![c2][0] == c2);
    assert(seq![c2].skip(1) =~= Seq::<Command>::empty());
    assert(apply_model(w, r1, seq![c2]) == apply_model(w, r2, seq![c2].skip(1)));
    assert(apply_model(w, r2, Seq::<Command>::empty()) == (w, r2, None::<CommandError>));
}

/// Despawning an entity that storage never saw aborts the whole drain with
/// `ApplyTargetMissing` as its first step: whatever commands were enqueued
/// after it are never applied, and both the world and the registry are left
/// exactly as they were.
pub proof fn lemma_despawn_missing_aborts(
    w: WorldModel,
    r: ResourcesModel,
    entity: Entity,
    rest: Seq<Command>,
)
    requires
        !w.rows.dom().contains(entity.id),
    ensures
        ({
            let cmds = seq![
                Command::WriteWorld(WorldCommand::Despawn((Despawn { entity }))),
            ] + rest;
            let (wm, rm, f) = apply_model(w, r, cmds);
            &&& f == Some(CommandError::ApplyTargetMissing(entity))
            &&& wm == w
            &&& rm == r
        }),
{
    let cmds = seq![Command::WriteWorld(WorldCommand::Despawn(Despawn { entity }))] + rest;
    assert(cmds[0] == Command::WriteWorld(WorldCommand::Despawn(Despawn { entity })));
}

} // verus!
