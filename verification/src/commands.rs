use vstd::prelude::*;
use crate::buffer::CommandsInternal;
use crate::command::{
    resource_step, world_step, world_step_pre, Command, Despawn, Insert, InsertLocalResource,
    InsertOne, InsertResource, ResourceCommand, ResourcesWriter, Spawn, SpawnAsEntity, SpawnBatch,
    WorldCommand, WorldWriter,
};
use crate::component::{Bundle, Component};
use crate::entity::Entity;
use crate::error::CommandError;
use crate::resources::{ResourceValue, Resources, ResourcesModel, SystemId};
use crate::world::{World, WorldModel};

verus! {

/// The state the drain reaches: starting from world `w` and registry `r`, it
/// replays the queued commands strictly in order.  The first fatal condition
/// stops everything — the failing command and all later ones leave no trace,
/// and the outcome carries the error; otherwise the outcome carries no
/// error.
pub open spec fn apply_model(
    w: WorldModel,
    r: ResourcesModel,
    cmds: Seq<Command>,
) -> (WorldModel, ResourcesModel, Option<CommandError>)
    decreases cmds.len(),
{
    if cmds.len() == 0 {
        (w, r, None)
    } else {
        match cmds[0] {
            Command::WriteWorld(wc) => match world_step(w, wc) {
                Ok(w2) => apply_model(w2, r, cmds.skip(1)),
                Err(e) => (w, r, Some(e)),
            },
            Command::WriteResources(rc) => apply_model(w, resource_step(r, rc), cmds.skip(1)),
        }
    }
}

/// Allocator headroom along the drain: each command that spawns fresh
/// entities finds room for them, up to the first failing command (after
/// which nothing more runs).
pub open spec fn apply_pre(w: WorldModel, cmds: Seq<Command>) -> bool
    decreases cmds.len(),
{
    if cmds.len() == 0 {
        true
    } else {
        match cmds[0] {
            Command::WriteWorld(wc) => world_step_pre(wc, w) && match world_step(w, wc) {
                Ok(w2) => apply_pre(w2, cmds.skip(1)),
                Err(_) => true,
            },
            Command::WriteResources(_) => apply_pre(w, cmds.skip(1)),
        }
    }
}

/// Replays the commands in order, each exactly once, removing each from the
/// queue before the next is processed; stops at the first fatal condition.
fn drain(world: &mut World, resources: &mut Resources, commands: Vec<Command>) -> (r: Result<
    (),
    CommandError,
>)
    requires
        old(world).wf(),
        old(resources).wf(),
        apply_pre(old(world)@, commands@),
    ensures
        final(world).wf(),
        final(resources).wf(),
        ({
            let (wm, rm, f) = apply_model(old(world)@, old(resources)@, commands@);
            &&& final(world)@ == wm
            &&& final(resources)@ == rm
            &&& (match f {
                None => r == Ok::<(), CommandError>(()),
                Some(e) => r == Err::<(), CommandError>(e),
            })
        }),
    decreases commands@.len(),
{
    let mut commands = commands;
    if commands.len() == 0 {
        return Ok(());
    }
    let ghost q = commands@;
    let cmd = commands.remove(0);
    proof {
        assert(commands@ =~= q.skip(1));
    }
    match cmd {
        Command::WriteWorld(wc) => {
            let res = match wc {
                WorldCommand::Spawn(op) => op.write(world),
                WorldCommand::SpawnAsEntity(op) => op.write(world),
                WorldCommand::SpawnBatch(op) => op.write(world),
                WorldCommand::Despawn(op) => op.write(world),
                WorldCommand::Insert(op) => op.write(world),
                WorldCommand::InsertOne(op) => op.write(world),
            };
            match res {
                Ok(_) => drain(world, resources, commands),
                Err(e) => Err(e),
            }
        },
        Command::WriteResources(rc) => {
            match rc {
                ResourceCommand::InsertResource(op) => op.write(resources),
                ResourceCommand::InsertLocalResource(op) => op.write(resources),
            }
            drain(world, resources, commands)
        },
    }
}

/// The handle systems queue their mutation intents on.  It owns one
/// single-threaded buffer and performs exactly one enqueue (or one
/// cursor-setting spawn) per call; wrapping a handle for concurrent callers
/// is mutual-exclusion plumbing that stays outside this library.
pub struct Commands {
    pub commands: CommandsInternal,
}

impl Default for Commands {
    /// A fresh, empty handle, as created at the start of a scheduling pass.
    fn default() -> (c: Commands)
        ensures
            c.queue() =~= Seq::<Command>::empty(),
            c.cursor() is None,
            c.reserved() == 0,
    {
        Commands {
            commands: CommandsInternal {
                commands: Vec::new(),
                current_entity: None,
                next_entity: 0,
            },
        }
    }
}

impl Commands {
    /// The commands queued so far, in enqueue order.
    pub open spec fn queue(&self) -> Seq<Command> {
        self.commands.commands@
    }

    /// The most recently spawned entity, if a spawn happened on this handle.
    pub open spec fn cursor(&self) -> Option<Entity> {
        self.commands.current_entity
    }

    /// The next entity identifier this handle will reserve.
    pub open spec fn reserved(&self) -> u64 {
        self.commands.next_entity
    }

    /// Reserves a fresh entity identifier, queues spawning it with the
    /// bundle, and points the cursor at it.  The returned entity is not
    /// visible to queries until apply runs.
    pub fn spawn(&mut self, components: Bundle) -> (e: Entity)
        requires
            old(self).reserved() < u64::MAX,
        ensures
            e.id == old(self).reserved(),
            final(self).reserved() == old(self).reserved() + 1,
            final(self).cursor() == Some(e),
            final(self).queue() == old(self).queue().push(
                Command::WriteWorld(
                    WorldCommand::SpawnAsEntity((SpawnAsEntity { entity: e, components })),
                ),
            ),
    {
        self.commands.spawn(components)
    }

    /// Queues spawning under a caller-supplied (already reserved)
    /// identifier and points the cursor at it.
    pub fn spawn_as_entity(&mut self, entity: Entity, components: Bundle)
        ensures
            final(self).reserved() == old(self).reserved(),
            final(self).cursor() == Some(entity),
            final(self).queue() == old(self).queue().push(
                Command::WriteWorld(WorldCommand::SpawnAsEntity((SpawnAsEntity { entity, components }))),
            ),
    {
        self.commands.spawn_as_entity(entity, components);
    }

    /// Queues one bulk command that will spawn one fresh entity per bundle,
    /// in order.  None of those entities is queryable before apply.
    pub fn spawn_batch(&mut self, bundles: Vec<Bundle>)
        ensures
            final(self).reserved() == old(self).reserved(),
            final(self).cursor() == old(self).cursor(),
            final(self).queue() == old(self).queue().push(
                Command::WriteWorld(WorldCommand::SpawnBatch((SpawnBatch { bundles }))),
            ),
    {
        self.commands.commands.push(Command::WriteWorld(WorldCommand::SpawnBatch(SpawnBatch { bundles })));
    }

    /// Queues removing the entity's row.  At apply time a missing target is
    /// fatal, not a silent no-op.
    pub fn despawn(&mut self, entity: Entity)
        ensures
            final(self).reserved() == old(self).reserved(),
            final(self).cursor() == old(self).cursor(),
            final(self).queue() == old(self).queue().push(
                Command::WriteWorld(WorldCommand::Despawn((Despawn { entity }))),
            ),
    {
        self.commands.commands.push(Command::WriteWorld(WorldCommand::Despawn(Despawn { entity })));
    }

    /// Queues inserting one component on the cursor entity; with no prior
    /// spawn on this handle it fails with `MissingEntityContext` at once.
    pub fn with(&mut self, component: Component) -> (r: Result<(), CommandError>)
        ensures
            final(self).reserved() == old(self).reserved(),
            final(self).cursor() == old(self).cursor(),
            match old(self).cursor() {
                Some(e) => r == Ok::<(), CommandError>(()) && final(self).queue() == old(self).queue().push(
                    Command::WriteWorld(
                        WorldCommand::InsertOne((InsertOne { entity: e, component })),
                    ),
                ),
                None => r == Err::<(), CommandError>(CommandError::MissingEntityContext) && final(self).queue() == old(self).queue(),
            },
    {
        self.commands.with(component)
    }

    /// Queues inserting the bundle on the cursor entity; with no prior
    /// spawn on this handle it fails with `MissingEntityContext` at once.
    pub fn with_bundle(&mut self, components: Bundle) -> (r: Result<(), CommandError>)
        ensures
            final(self).reserved() == old(self).reserved(),
            final(self).cursor() == old(self).cursor(),
            match old(self).cursor() {
                Some(e) => r == Ok::<(), CommandError>(()) && final(self).queue() == old(self).queue().push(
                    Command::WriteWorld(WorldCommand::Insert((Insert { entity: e, components }))),
                ),
                None => r == Err::<(), CommandError>(CommandError::MissingEntityContext) && final(self).queue() == old(self).queue(),
            },
    {
        self.commands.with_bundle(components)
    }

    /// Queues adding or overwriting the bundle's components on the entity.
    pub fn insert(&mut self, entity: Entity, components: Bundle)
        ensures
            final(self).reserved() == old(self).reserved(),
            final(self).cursor() == old(self).cursor(),
            final(self).queue() == old(self).queue().push(
                Command::WriteWorld(WorldCommand::Insert((Insert { entity, components }))),
            ),
    {
        self.commands.commands.push(Command::WriteWorld(WorldCommand::Insert(Insert { entity, components })));
    }

    /// Queues adding or overwriting one component on the entity.
    pub fn insert_one(&mut self, entity: Entity, component: Component)
        ensures
            final(self).reserved() == old(self).reserved(),
            final(self).cursor() == old(self).cursor(),
            final(self).queue() == old(self).queue().push(
                Command::WriteWorld(WorldCommand::InsertOne((InsertOne { entity, component }))),
            ),
    {
        self.commands.commands.push(Command::WriteWorld(WorldCommand::InsertOne(InsertOne { entity, component })));
    }

    /// Queues overwriting the process-wide singleton of the value's type.
    pub fn insert_resource(&mut self, resource: ResourceValue)
        ensures
            final(self).reserved() == old(self).reserved(),
            final(self).cursor() == old(self).cursor(),
            final(self).queue() == old(self).queue().push(
                Command::WriteResources(ResourceCommand::InsertResource((InsertResource { resource }))),
            ),
    {
        self.commands.commands.push(
            Command::WriteResources(ResourceCommand::InsertResource(InsertResource { resource })),
        );
    }

    /// Queues overwriting the singleton scoped to (system, type).
    pub fn insert_local_resource(&mut self, system_id: SystemId, resource: ResourceValue)
        ensures
            final(self).reserved() == old(self).reserved(),
            final(self).cursor() == old(self).cursor(),
            final(self).queue() == old(self).queue().push(
                Command::WriteResources(
                    ResourceCommand::InsertLocalResource(
                        (InsertLocalResource { resource, system_id }),
                    ),
                ),
            ),
    {
        self.commands.commands.push(
            Command::WriteResources(
                ResourceCommand::InsertLocalResource(InsertLocalResource { resource, system_id }),
            ),
        );
    }

    /// The single commit operation: consumes the handle and replays every
    /// queued command in strict FIFO order, each exactly once, against the
    /// live world and registry.  The first fatal condition aborts the whole
    /// drain — commands queued after it are never applied — and comes back
    /// as the error; otherwise the drain empties the queue and succeeds.
    pub fn apply(self, world: &mut World, resources: &mut Resources) -> (r: Result<
        (),
        CommandError,
    >)
        requires
            old(world).wf(),
            old(resources).wf(),
            apply_pre(old(world)@, self.queue()),
        ensures
            final(world).wf(),
            final(resources).wf(),
            ({
                let (wm, rm, f) = apply_model(old(world)@, old(resources)@, self.queue());
                &&& final(world)@ == wm
                &&& final(resources)@ == rm
                &&& (match f {
                    None => r == Ok::<(), CommandError>(()),
                    Some(e) => r == Err::<(), CommandError>(e),
                })
            }),
    {
        drain(world, resources, self.commands.commands)
    }
}

} // verus!
