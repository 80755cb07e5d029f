use command_buffer::commands::Commands;
use command_buffer::component::{Bundle, Component};
use command_buffer::entity::Entity;
use command_buffer::error::CommandError;
use command_buffer::resources::{ResourceValue, Resources, SystemId};
use command_buffer::world::World;

// Type keys standing for the component and resource types these scenarios
// use.
const TYPE_U32: u64 = 10;
const TYPE_U64: u64 = 20;
const TYPE_F32: u64 = 30;

fn bundle(pairs: &[(u64, u64)]) -> Bundle {
    let mut b = Bundle::new();
    for &(type_key, value) in pairs {
        b.add(Component { type_key, value });
    }
    b
}

#[test]
fn command_buffer() {
    let mut world = World::default();
    let mut resources = Resources::default();
    let mut command_buffer = Commands::default();
    command_buffer.spawn(bundle(&[(TYPE_U32, 1), (TYPE_U64, 2)]));
    command_buffer.insert_resource(ResourceValue {
        type_key: TYPE_F32,
        value: 3.14f32.to_bits() as u64,
    });
    assert_eq!(command_buffer.apply(&mut world, &mut resources), Ok(()));
    let results = world.query_two(TYPE_U32, TYPE_U64);
    assert_eq!(results, vec![(1u64, 2u64)]);
    let bits = resources.get(TYPE_F32).unwrap();
    assert_eq!(f32::from_bits(bits as u32), 3.14f32);
}

#[test]
fn apply_of_empty_buffer_succeeds() {
    let mut world = World::default();
    let mut resources = Resources::default();
    let command_buffer = Commands::default();
    assert_eq!(command_buffer.apply(&mut world, &mut resources), Ok(()));
    assert_eq!(world.query_two(TYPE_U32, TYPE_U64), vec![]);
}

#[test]
fn inserts_on_distinct_entities_write_each_row() {
    let mut world = World::default();
    let mut resources = Resources::default();
    let mut command_buffer = Commands::default();
    let a = command_buffer.spawn(Bundle::new());
    let b = command_buffer.spawn(Bundle::new());
    command_buffer.insert_one(a, Component { type_key: TYPE_U32, value: 7 });
    command_buffer.insert(b, bundle(&[(TYPE_U32, 8), (TYPE_U64, 9)]));
    assert_eq!(command_buffer.apply(&mut world, &mut resources), Ok(()));
    assert_eq!(world.get(a, TYPE_U32), Some(7));
    assert_eq!(world.get(a, TYPE_U64), None);
    assert_eq!(world.get(b, TYPE_U32), Some(8));
    assert_eq!(world.get(b, TYPE_U64), Some(9));
}

#[test]
fn later_insert_overwrites_component() {
    let mut world = World::default();
    let mut resources = Resources::default();
    let mut command_buffer = Commands::default();
    let e = command_buffer.spawn(bundle(&[(TYPE_U32, 1)]));
    command_buffer.insert_one(e, Component { type_key: TYPE_U32, value: 2 });
    command_buffer.insert_one(e, Component { type_key: TYPE_U32, value: 3 });
    assert_eq!(command_buffer.apply(&mut world, &mut resources), Ok(()));
    assert_eq!(world.get(e, TYPE_U32), Some(3));
}

#[test]
fn spawn_then_with_decorates_same_entity() {
    let mut world = World::default();
    let mut resources = Resources::default();
    let mut command_buffer = Commands::default();
    let e = command_buffer.spawn(bundle(&[(TYPE_U32, 1)]));
    assert_eq!(
        command_buffer.with(Component { type_key: TYPE_U64, value: 2 }),
        Ok(())
    );
    assert_eq!(command_buffer.apply(&mut world, &mut resources), Ok(()));
    assert_eq!(world.get(e, TYPE_U32), Some(1));
    assert_eq!(world.get(e, TYPE_U64), Some(2));
}

#[test]
fn with_without_spawn_is_missing_entity_context() {
    let mut command_buffer = Commands::default();
    assert_eq!(
        command_buffer.with(Component { type_key: TYPE_U32, value: 1 }),
        Err(CommandError::MissingEntityContext)
    );
}

#[test]
fn with_bundle_without_spawn_is_missing_entity_context() {
    let mut command_buffer = Commands::default();
    assert_eq!(
        command_buffer.with_bundle(bundle(&[(TYPE_U32, 1)])),
        Err(CommandError::MissingEntityContext)
    );
}

#[test]
fn with_bundle_after_spawn_decorates_cursor() {
    let mut world = World::default();
    let mut resources = Resources::default();
    let mut command_buffer = Commands::default();
    let e = command_buffer.spawn(Bundle::new());
    assert_eq!(
        command_buffer.with_bundle(bundle(&[(TYPE_U32, 4), (TYPE_U64, 5)])),
        Ok(())
    );
    assert_eq!(command_buffer.apply(&mut world, &mut resources), Ok(()));
    assert_eq!(world.get(e, TYPE_U32), Some(4));
    assert_eq!(world.get(e, TYPE_U64), Some(5));
}

#[test]
fn spawn_batch_entities_visible_only_after_apply() {
    let mut world = World::default();
    let mut resources = Resources::default();
    let mut command_buffer = Commands::default();
    let bundles = vec![
        bundle(&[(TYPE_U32, 1)]),
        bundle(&[(TYPE_U32, 2)]),
        bundle(&[(TYPE_U32, 3)]),
    ];
    command_buffer.spawn_batch(bundles);
    // The batch allocates from the world the commands are applied to, so the
    // three entities will carry the first three identifiers of this world.
    for id in 0..3u64 {
        assert!(!world.contains(Entity::with_id(id)));
    }
    assert_eq!(command_buffer.apply(&mut world, &mut resources), Ok(()));
    for id in 0..3u64 {
        assert!(world.contains(Entity::with_id(id)));
    }
    assert_eq!(world.get(Entity::with_id(0), TYPE_U32), Some(1));
    assert_eq!(world.get(Entity::with_id(1), TYPE_U32), Some(2));
    assert_eq!(world.get(Entity::with_id(2), TYPE_U32), Some(3));
}

#[test]
fn spawn_batch_of_nothing_spawns_nothing() {
    let mut world = World::default();
    let mut resources = Resources::default();
    let mut command_buffer = Commands::default();
    command_buffer.spawn_batch(Vec::new());
    assert_eq!(command_buffer.apply(&mut world, &mut resources), Ok(()));
    assert!(!world.contains(Entity::with_id(0)));
}

#[test]
fn insert_resource_overwrites_previous_value() {
    let mut world = World::default();
    let mut resources = Resources::default();
    let mut command_buffer = Commands::default();
    command_buffer.insert_resource(ResourceValue { type_key: TYPE_U32, value: 1 });
    command_buffer.insert_resource(ResourceValue { type_key: TYPE_U32, value: 2 });
    assert_eq!(command_buffer.apply(&mut world, &mut resources), Ok(()));
    assert_eq!(resources.get(TYPE_U32), Some(2));
}

#[test]
fn local_resources_of_distinct_systems_are_independent() {
    let mut world = World::default();
    let mut resources = Resources::default();
    let mut command_buffer = Commands::default();
    let id_a = SystemId { id: 1 };
    let id_b = SystemId { id: 2 };
    command_buffer.insert_local_resource(id_a, ResourceValue { type_key: TYPE_U32, value: 5 });
    command_buffer.insert_local_resource(id_b, ResourceValue { type_key: TYPE_U32, value: 6 });
    assert_eq!(command_buffer.apply(&mut world, &mut resources), Ok(()));
    assert_eq!(resources.get_local(id_a, TYPE_U32), Some(5));
    assert_eq!(resources.get_local(id_b, TYPE_U32), Some(6));
    // Neither write touches the global singleton of the same type.
    assert_eq!(resources.get(TYPE_U32), None);
}

#[test]
fn despawn_of_unspawned_entity_aborts_drain() {
    let mut world = World::default();
    let mut resources = Resources::default();
    let mut command_buffer = Commands::default();
    let ghost_entity = Entity::with_id(99);
    command_buffer.despawn(ghost_entity);
    command_buffer.insert_resource(ResourceValue { type_key: TYPE_U32, value: 1 });
    assert_eq!(
        command_buffer.apply(&mut world, &mut resources),
        Err(CommandError::ApplyTargetMissing(ghost_entity))
    );
    // The command enqueued after the failing despawn was never applied.
    assert_eq!(resources.get(TYPE_U32), None);
}

#[test]
fn despawned_entity_is_no_longer_queryable() {
    let mut world = World::default();
    let mut resources = Resources::default();
    let mut command_buffer = Commands::default();
    let e = command_buffer.spawn(bundle(&[(TYPE_U32, 1), (TYPE_U64, 2)]));
    assert_eq!(command_buffer.apply(&mut world, &mut resources), Ok(()));
    assert!(world.contains(e));
    let mut second_pass = Commands::default();
    second_pass.despawn(e);
    assert_eq!(second_pass.apply(&mut world, &mut resources), Ok(()));
    assert!(!world.contains(e));
    assert_eq!(world.query_two(TYPE_U32, TYPE_U64), vec![]);
}

#[test]
fn insert_on_unspawned_entity_aborts_drain() {
    let mut world = World::default();
    let mut resources = Resources::default();
    let mut command_buffer = Commands::default();
    let ghost_entity = Entity::with_id(7);
    command_buffer.insert(ghost_entity, bundle(&[(TYPE_U32, 1)]));
    assert_eq!(
        command_buffer.apply(&mut world, &mut resources),
        Err(CommandError::ApplyTargetMissing(ghost_entity))
    );
}

#[test]
fn spawn_as_entity_uses_reserved_identifier() {
    let mut world = World::default();
    let mut resources = Resources::default();
    let mut command_buffer = Commands::default();
    let reserved = Entity::with_id(41);
    command_buffer.spawn_as_entity(reserved, bundle(&[(TYPE_U32, 11)]));
    // A reserved identifier stays invisible until the spawn is applied.
    assert!(!world.contains(reserved));
    assert_eq!(command_buffer.apply(&mut world, &mut resources), Ok(()));
    assert_eq!(world.get(reserved, TYPE_U32), Some(11));
}

#[test]
fn bundle_last_write_wins_within_one_bundle() {
    let mut world = World::default();
    let mut resources = Resources::default();
    let mut command_buffer = Commands::default();
    let e = command_buffer.spawn(bundle(&[(TYPE_U32, 1), (TYPE_U32, 2)]));
    assert_eq!(command_buffer.apply(&mut world, &mut resources), Ok(()));
    assert_eq!(world.get(e, TYPE_U32), Some(2));
}

#[test]
fn spawn_replaces_row_on_colliding_identifier() {
    let mut world = World::default();
    let mut resources = Resources::default();
    let mut command_buffer = Commands::default();
    let e = Entity::with_id(3);
    command_buffer.spawn_as_entity(e, bundle(&[(TYPE_U32, 1), (TYPE_U64, 2)]));
    command_buffer.spawn_as_entity(e, bundle(&[(TYPE_U32, 9)]));
    assert_eq!(command_buffer.apply(&mut world, &mut resources), Ok(()));
    // The second spawn makes the row exactly its bundle.
    assert_eq!(world.get(e, TYPE_U32), Some(9));
    assert_eq!(world.get(e, TYPE_U64), None);
}

#[test]
fn world_spawn_allocates_sequential_identifiers() {
    let mut world = World::default();
    let a = world.spawn(bundle(&[(TYPE_U32, 1)]));
    let b = world.spawn(bundle(&[(TYPE_U32, 2)]));
    assert_eq!(a, Entity::with_id(0));
    assert_eq!(b, Entity::with_id(1));
    assert!(world.contains(a));
    assert!(world.contains(b));
    assert_eq!(world.get(a, TYPE_U32), Some(1));
    assert_eq!(world.get(b, TYPE_U32), Some(2));
}

#[test]
fn resources_registry_reads_back_writes() {
    let mut resources = Resources::default();
    resources.insert(ResourceValue { type_key: TYPE_U64, value: 44 });
    resources.insert_local(SystemId { id: 9 }, ResourceValue { type_key: TYPE_U64, value: 45 });
    assert_eq!(resources.get(TYPE_U64), Some(44));
    assert_eq!(resources.get_local(SystemId { id: 9 }, TYPE_U64), Some(45));
    assert_eq!(resources.get_local(SystemId { id: 8 }, TYPE_U64), None);
    assert_eq!(resources.get(TYPE_U32), None);
}
