use vstd::prelude::*;
use crate::command::{Command, Insert, InsertOne, SpawnAsEntity, WorldCommand};
use crate::component::{Bundle, Component};
use crate::entity::Entity;
use crate::error::CommandError;

verus! {

/// The single-threaded buffer: an ordered list of commands — insertion
/// order is the only order that matters — plus the cursor remembering the
/// most recently spawned entity, and the counter that reserves entity
/// identifiers before storage ever sees them.
pub struct CommandsInternal {
    pub commands: Vec<Command>,
    pub current_entity: Option<Entity>,
    pub next_entity: u64,
}

impl Default for CommandsInternal {
    /// An empty buffer with no cursor; reservation starts at the first
    /// identifier.
    fn default() -> (b: CommandsInternal)
        ensures
            b.commands@ =~= Seq::<Command>::empty(),
            b.current_entity is None,
            b.next_entity == 0,
    {
        CommandsInternal { commands: Vec::new(), current_entity: None, next_entity: 0 }
    }
}

impl CommandsInternal {
    /// Reserves a fresh entity identifier, enqueues spawning it with the
    /// bundle, and points the cursor at it.  The entity exists only as a
    /// name until the command is applied.
    pub fn spawn(&mut self, components: Bundle) -> (e: Entity)
        requires
            old(self).next_entity < u64::MAX,
        ensures
            e.id == old(self).next_entity,
            final(self).next_entity == old(self).next_entity + 1,
            final(self).current_entity == Some(e),
            final(self).commands@ == old(self).commands@.push(
                Command::WriteWorld(
                    WorldCommand::SpawnAsEntity((SpawnAsEntity { entity: e, components })),
                ),
            ),
    {
        let e = Entity { id: self.next_entity };
        self.next_entity = self.next_entity + 1;
        self.spawn_as_entity(e, components);
        e
    }

    /// Enqueues spawning under a caller-supplied identifier and points the
    /// cursor at it.
    pub fn spawn_as_entity(&mut self, entity: Entity, components: Bundle)
        ensures
            final(self).next_entity == old(self).next_entity,
            final(self).current_entity == Some(entity),
            final(self).commands@ == old(self).commands@.push(
                Command::WriteWorld(WorldCommand::SpawnAsEntity((SpawnAsEntity { entity, components }))),
            ),
    {
        self.current_entity = Some(entity);
        self.commands.push(
            Command::WriteWorld(WorldCommand::SpawnAsEntity(SpawnAsEntity { entity, components })),
        );
    }

    /// Enqueues inserting the bundle on the cursor entity.  With no prior
    /// spawn on this buffer there is no cursor: the call fails with
    /// `MissingEntityContext` at once, before any apply, and the buffer is
    /// unchanged.
    pub fn with_bundle(&mut self, components: Bundle) -> (r: Result<(), CommandError>)
        ensures
            final(self).next_entity == old(self).next_entity,
            final(self).current_entity == old(self).current_entity,
            match old(self).current_entity {
                Some(e) => r == Ok::<(), CommandError>(()) && final(self).commands@ == old(self).commands@.push(
                    Command::WriteWorld(WorldCommand::Insert((Insert { entity: e, components }))),
                ),
                None => r == Err::<(), CommandError>(CommandError::MissingEntityContext) && final(self).commands@ == old(self).commands@,
            },
    {
        match self.current_entity {
            Some(entity) => {
                self.commands.push(
                    Command::WriteWorld(WorldCommand::Insert(Insert { entity, components })),
                );
                Ok(())
            },
            None => Err(CommandError::MissingEntityContext),
        }
    }

    /// Enqueues inserting one component on the cursor entity; fails with
    /// `MissingEntityContext` at once when no spawn preceded it.
    pub fn with(&mut self, component: Component) -> (r: Result<(), CommandError>)
        ensures
            final(self).next_entity == old(self).next_entity,
            final(self).current_entity == old(self).current_entity,
            match old(self).current_entity {
                Some(e) => r == Ok::<(), CommandError>(()) && final(self).commands@ == old(self).commands@.push(
                    Command::WriteWorld(
                        WorldCommand::InsertOne((InsertOne { entity: e, component })),
                    ),
                ),
                None => r == Err::<(), CommandError>(CommandError::MissingEntityContext) && final(self).commands@ == old(self).commands@,
            },
    {
        match self.current_entity {
            Some(entity) => {
                self.commands.push(
                    Command::WriteWorld(WorldCommand::InsertOne(InsertOne { entity, component })),
                );
                Ok(())
            },
            None => Err(CommandError::MissingEntityContext),
        }
    }
}

} // verus!
