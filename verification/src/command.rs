use vstd::prelude::*;
use crate::component::{Bundle, Component};
use crate::entity::Entity;
use crate::error::CommandError;
use crate::resources::{
    insert_local_resource_model, insert_resource_model, ResourceValue, Resources, ResourcesModel,
    SystemId,
};
use crate::world::{
    despawn_model, insert_model, spawn_at_model, spawn_batch_model, spawn_model, World, WorldModel,
};

verus! {

/// Spawn a fresh entity holding the bundle's components.
#[derive(Debug)]
pub struct Spawn {
    pub components: Bundle,
}

/// Spawn under a caller-supplied (already reserved) identifier.
#[derive(Debug)]
pub struct SpawnAsEntity {
    pub entity: Entity,
    pub components: Bundle,
}

/// Spawn one fresh entity per bundle, in order: the bulk path that avoids
/// one command object per entity.
#[derive(Debug)]
pub struct SpawnBatch {
    pub bundles: Vec<Bundle>,
}

/// Remove an entity's row; fatal at apply time if the entity is absent.
#[derive(Clone, Copy, PartialEq, Eq, Debug, Structural)]
pub struct Despawn {
    pub entity: Entity,
}

/// Add or overwrite all of a bundle's components on an entity as one atomic
/// step; fatal at apply time if the entity is absent.
#[derive(Debug)]
pub struct Insert {
    pub entity: Entity,
    pub components: Bundle,
}

/// `Insert` with a single-component bundle.
#[derive(Clone, Copy, PartialEq, Eq, Debug, Structural)]
pub struct InsertOne {
    pub entity: Entity,
    pub component: Component,
}

/// Overwrite the process-wide singleton of the value's type.
#[derive(Clone, Copy, PartialEq, Eq, Debug, Structural)]
pub struct InsertResource {
    pub resource: ResourceValue,
}

/// Overwrite the singleton scoped to (system, type), independent of the
/// global singleton of the same type.
#[derive(Clone, Copy, PartialEq, Eq, Debug, Structural)]
pub struct InsertLocalResource {
    pub resource: ResourceValue,
    pub system_id: SystemId,
}

/// The closed set of world-mutating operations a command can carry.
#[derive(Debug)]
pub enum WorldCommand {
    Spawn(Spawn),
    SpawnAsEntity(SpawnAsEntity),
    SpawnBatch(SpawnBatch),
    Despawn(Despawn),
    Insert(Insert),
    InsertOne(InsertOne),
}

/// The closed set of resource-mutating operations a command can carry.
#[derive(Debug)]
pub enum ResourceCommand {
    InsertResource(InsertResource),
    InsertLocalResource(InsertLocalResource),
}

/// One queued mutation intent: either a world mutation or a resource
/// mutation.  Immutable once constructed and consumed exactly once by apply.
#[derive(Debug)]
pub enum Command {
    WriteWorld(WorldCommand),
    WriteResources(ResourceCommand),
}

/// What must hold of the world for a world command's apply step to run: the
/// identifier allocator needs headroom for each fresh entity the step
/// spawns.  A machine limit, not a policy.
pub open spec fn world_step_pre(c: WorldCommand, w: WorldModel) -> bool {
    match c {
        WorldCommand::Spawn(_) => w.next < u64::MAX,
        WorldCommand::SpawnBatch(op) => w.next + op.bundles@.len() <= u64::MAX,
        _ => true,
    }
}

/// The outcome of replaying one world command: the new world, or the
/// fatal condition that aborts the drain, leaving the world as it was.
pub open spec fn world_step(w: WorldModel, c: WorldCommand) -> Result<WorldModel, CommandError> {
    match c {
        WorldCommand::Spawn(op) => Ok(spawn_model(w, op.components@)),
        WorldCommand::SpawnAsEntity(op) => Ok(spawn_at_model(w, op.entity, op.components@)),
        WorldCommand::SpawnBatch(op) => Ok(spawn_batch_model(w, op.bundles@)),
        WorldCommand::Despawn(op) => if w.rows.dom().contains(op.entity.id) {
            Ok(despawn_model(w, op.entity))
        } else {
            Err(CommandError::ApplyTargetMissing(op.entity))
        },
        WorldCommand::Insert(op) => if w.rows.dom().contains(op.entity.id) {
            Ok(insert_model(w, op.entity, op.components@))
        } else {
            Err(CommandError::ApplyTargetMissing(op.entity))
        },
        WorldCommand::InsertOne(op) => if w.rows.dom().contains(op.entity.id) {
            Ok(insert_model(w, op.entity, seq![op.component]))
        } else {
            Err(CommandError::ApplyTargetMissing(op.entity))
        },
    }
}

/// How a world command's apply step relates the old world, the new world and
/// the step's result.
pub open spec fn world_write_ok(
    c: WorldCommand,
    w0: WorldModel,
    w1: WorldModel,
    r: Result<(), CommandError>,
) -> bool {
    match world_step(w0, c) {
        Ok(w2) => r == Ok::<(), CommandError>(()) && w1 == w2,
        Err(e) => r == Err::<(), CommandError>(e) && w1 == w0,
    }
}

/// The registry after replaying one resource command; resource writes are
/// plain overwrites and never fail.
pub open spec fn resource_step(r: ResourcesModel, c: ResourceCommand) -> ResourcesModel {
    match c {
        ResourceCommand::InsertResource(op) => insert_resource_model(r, op.resource),
        ResourceCommand::InsertLocalResource(op) => insert_local_resource_model(
            r,
            op.system_id,
            op.resource,
        ),
    }
}

/// A world-mutating operation: its apply step consumes the captured payload
/// and replays it against live storage exactly once.
pub trait WorldWriter: Sized {
    /// What must hold of the world before this operation's apply step.
    spec fn pre(&self, w: WorldModel) -> bool;

    /// Replays the operation against the world.
    fn write(self, world: &mut World) -> (r: Result<(), CommandError>)
        requires
            old(world).wf(),
            self.pre(old(world)@),
        ensures
            final(world).wf(),
    ;
}

/// A resource-mutating operation: its apply step consumes the captured
/// payload and overwrites the targeted singleton exactly once.
pub trait ResourcesWriter: Sized {
    /// Replays the operation against the resource registry.
    fn write(self, resources: &mut Resources)
        requires
            old(resources).wf(),
        ensures
            final(resources).wf(),
    ;
}

impl WorldWriter for Spawn {
    open spec fn pre(&self, w: WorldModel) -> bool {
        world_step_pre(WorldCommand::Spawn(*self), w)
    }

    fn write(self, world: &mut World) -> (r: Result<(), CommandError>)
        ensures
            world_write_ok(WorldCommand::Spawn(self), old(world)@, final(world)@, r),
    {
        let _ = world.spawn(self.components);
        Ok(())
    }
}

impl WorldWriter for SpawnAsEntity {
    open spec fn pre(&self, w: WorldModel) -> bool {
        world_step_pre(WorldCommand::SpawnAsEntity(*self), w)
    }

    fn write(self, world: &mut World) -> (r: Result<(), CommandError>)
        ensures
            world_write_ok(WorldCommand::SpawnAsEntity(self), old(world)@, final(world)@, r),
    {
        world.spawn_as_entity(self.entity, self.components);
        Ok(())
    }
}

impl WorldWriter for SpawnBatch {
    open spec fn pre(&self, w: WorldModel) -> bool {
        world_step_pre(WorldCommand::SpawnBatch(*self), w)
    }

    fn write(self, world: &mut World) -> (r: Result<(), CommandError>)
        ensures
            world_write_ok(WorldCommand::SpawnBatch(self), old(world)@, final(world)@, r),
    {
        let _ = world.spawn_batch(self.bundles);
        Ok(())
    }
}

impl WorldWriter for Despawn {
    open spec fn pre(&self, w: WorldModel) -> bool {
        world_step_pre(WorldCommand::Despawn(*self), w)
    }

    fn write(self, world: &mut World) -> (r: Result<(), CommandError>)
        ensures
            world_write_ok(WorldCommand::Despawn(self), old(world)@, final(world)@, r),
    {
        world.despawn(self.entity)
    }
}

impl WorldWriter for Insert {
    open spec fn pre(&self, w: WorldModel) -> bool {
        world_step_pre(WorldCommand::Insert(*self), w)
    }

    fn write(self, world: &mut World) -> (r: Result<(), CommandError>)
        ensures
            world_write_ok(WorldCommand::Insert(self), old(world)@, final(world)@, r),
    {
        world.insert(self.entity, self.components)
    }
}

impl WorldWriter for InsertOne {
    open spec fn pre(&self, w: WorldModel) -> bool {
        world_step_pre(WorldCommand::InsertOne(*self), w)
    }

    fn write(self, world: &mut World) -> (r: Result<(), CommandError>)
        ensures
            world_write_ok(WorldCommand::InsertOne(self), old(world)@, final(world)@, r),
    {
        let mut components = Bundle::new();
        components.add(self.component);
        proof {
            assert(components@ =~= seq![self.component]);
        }
        world.insert(self.entity, components)
    }
}

impl ResourcesWriter for InsertResource {
    fn write(self, resources: &mut Resources)
        ensures
            final(resources)@ == resource_step(
                old(resources)@,
                ResourceCommand::InsertResource(self),
            ),
    {
        resources.insert(self.resource);
    }
}

impl ResourcesWriter for InsertLocalResource {
    fn write(self, resources: &mut Resources)
        ensures
            final(resources)@ == resource_step(
                old(resources)@,
                ResourceCommand::InsertLocalResource(self),
            ),
    {
        resources.insert_local(self.system_id, self.resource);
    }
}

} // verus!
