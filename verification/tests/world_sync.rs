//! Capturing, restoring and migrating worlds, with values encoded by bincode.

use world_sync::entity::EntityMap;
use world_sync::migration::GgrsMigration;
use world_sync::registry::WorldSyncRegistry;
use world_sync::snapshot::{SnapshotError, WorldSyncSnapshot};
use world_sync::wire::IoError;
use world_sync::world::{
    EntityRow, GgrsPaused, RollbackFrameCount, RollbackId, RollbackOrdered, World,
};

const HEALTH: u64 = 1;
const POSITION: u64 = 2;
const OWNER: u64 = 3;
const SCORE: u64 = 10;
const GAME_TIME: u64 = 11;
const MARKER: u64 = 12;

#[derive(Clone, PartialEq, Debug)]
enum Value {
    Health(f32),
    Position(f32, f32),
    Owner(u64),
    Score(u32),
    GameTime(f64),
    Marker,
}

fn encode(_kind: u64, value: &Value) -> Option<Vec<u8>> {
    match value {
        Value::Health(health) => bincode::serialize(health).ok(),
        Value::Position(x, y) => bincode::serialize(&(*x, *y)).ok(),
        Value::Owner(entity) => bincode::serialize(entity).ok(),
        Value::Score(score) => bincode::serialize(score).ok(),
        Value::GameTime(time) => bincode::serialize(time).ok(),
        Value::Marker => bincode::serialize(&()).ok(),
    }
}

fn decode(kind: u64, bytes: &Vec<u8>) -> Option<Value> {
    match kind {
        HEALTH => bincode::deserialize(bytes).ok().map(Value::Health),
        POSITION => {
            let pair: Option<(f32, f32)> = bincode::deserialize(bytes).ok();
            pair.map(|(x, y)| Value::Position(x, y))
        }
        OWNER => bincode::deserialize(bytes).ok().map(Value::Owner),
        SCORE => bincode::deserialize(bytes).ok().map(Value::Score),
        GAME_TIME => bincode::deserialize(bytes).ok().map(Value::GameTime),
        MARKER => Some(Value::Marker),
        _ => None,
    }
}

fn remap(_kind: u64, value: &Value, map: &EntityMap) -> Value {
    match value {
        Value::Owner(entity) => Value::Owner(map.get_mapped(*entity)),
        other => other.clone(),
    }
}

/// A world as the snapshot plugin sets it up, with entities told apart.
struct App {
    world: World<Value>,
    next_entity: u64,
    next_id: u64,
}

fn test_app() -> App {
    let mut world = World::new();
    world.frame = Some(RollbackFrameCount(0));
    world.ordered = Some(RollbackOrdered::default());
    App { world, next_entity: 0x1_0000_0001, next_id: 1 }
}

impl App {
    /// Spawns an entity with the rollback marker, which is given the next
    /// identifier.
    fn spawn(&mut self, components: Vec<(u64, Value)>) -> u64 {
        let entity = self.next_entity;
        let id = RollbackId::from_bits(self.next_id);
        self.next_entity += 1;
        self.next_id += 1;
        self.world.spawn(EntityRow { entity, rollback: true, id: Some(id) });
        let mut ids = self.world.ordered.as_ref().unwrap().iter_sorted().clone();
        ids.push(id);
        self.world.ordered = Some(RollbackOrdered::from_sorted_ids(ids));
        for (kind, value) in components {
            self.world.insert_component(kind, entity, value);
        }
        entity
    }

    fn capture(&self) -> WorldSyncSnapshot {
        WorldSyncSnapshot::capture(&self.world, &encode)
    }

    /// Entities that nothing in the world has yet.
    fn fresh(&mut self, count: usize) -> Vec<u64> {
        let fresh: Vec<u64> = (0..count as u64).map(|i| self.next_entity + i).collect();
        self.next_entity += count as u64;
        fresh
    }

    fn restore(&mut self, snapshot: &WorldSyncSnapshot) -> Vec<u64> {
        assert!(snapshot.entities_valid());
        let fresh = self.fresh(snapshot.spawn_ids().len());
        snapshot.restore(&mut self.world, &fresh, &decode, &remap);
        fresh
    }

    fn finish(&mut self, snapshot: WorldSyncSnapshot) {
        assert!(snapshot.entities_valid());
        let fresh = self.fresh(snapshot.spawn_ids().len());
        GgrsMigration::finish(&mut self.world, snapshot, &fresh, &decode, &remap);
    }

    fn marked(&self) -> Vec<EntityRow> {
        self.world.entities.iter().filter(|row| row.rollback).copied().collect()
    }

    fn health(&self, entity: u64) -> Option<f32> {
        match self.world.component(HEALTH, entity) {
            Some(Value::Health(health)) => Some(*health),
            _ => None,
        }
    }

    fn position(&self, entity: u64) -> Option<(f32, f32)> {
        match self.world.component(POSITION, entity) {
            Some(Value::Position(x, y)) => Some((*x, *y)),
            _ => None,
        }
    }

    fn with_health_and_position(&self) -> Vec<(RollbackId, f32, (f32, f32))> {
        let mut found = Vec::new();
        for row in &self.world.entities {
            if let (Some(id), Some(health), Some(position)) =
                (row.id, self.health(row.entity), self.position(row.entity))
            {
                found.push((id, health, position));
            }
        }
        found
    }

    fn score(&self) -> Option<u32> {
        match self.world.resource(SCORE) {
            Some(Value::Score(score)) => Some(*score),
            _ => None,
        }
    }

    fn game_time(&self) -> Option<f64> {
        match self.world.resource(GAME_TIME) {
            Some(Value::GameTime(time)) => Some(*time),
            _ => None,
        }
    }
}

fn test_app_with_components() -> App {
    let mut app = test_app();
    let mut registry = WorldSyncRegistry::default();
    registry.register_component(HEALTH);
    registry.register_component(POSITION);
    app.world.registry = Some(registry);
    app
}

fn test_app_with_resources() -> App {
    let mut app = test_app();
    let mut registry = WorldSyncRegistry::default();
    registry.register_resource(SCORE);
    registry.register_resource(GAME_TIME);
    app.world.registry = Some(registry);
    app
}

#[test]
fn bytes_roundtrip_preserves_all_fields() {
    let mut app = test_app();
    app.world.frame = Some(RollbackFrameCount(42));
    app.spawn(vec![]);
    app.spawn(vec![]);

    let original = app.capture();
    let bytes = original.to_bytes();
    let restored = WorldSyncSnapshot::from_bytes(&bytes).unwrap();

    assert_eq!(original.frame, restored.frame);
    assert_eq!(original.entity_data, restored.entity_data);
    assert_eq!(original.ordered_data, restored.ordered_data);
    assert_eq!(restored.frame, 42);
}

#[test]
fn entity_count_matches_spawned_entities() {
    let mut app = test_app();
    app.spawn(vec![]);
    app.spawn(vec![]);
    app.spawn(vec![]);

    let snapshot = app.capture();
    assert_eq!(snapshot.entity_count(), 3);
}

#[test]
fn same_world_produces_identical_bytes() {
    let mut app = test_app();
    app.spawn(vec![]);
    app.world.frame = Some(RollbackFrameCount(100));

    let bytes1 = app.capture().to_bytes();
    let bytes2 = app.capture().to_bytes();
    assert_eq!(bytes1, bytes2);
}

#[test]
fn restore_sets_frame_count() {
    let mut app = test_app();
    app.world.frame = Some(RollbackFrameCount(99));
    let snapshot = app.capture();

    let mut target = test_app();
    target.world.frame = Some(RollbackFrameCount(0));
    target.restore(&snapshot);

    assert_eq!(target.world.frame.unwrap().0, 99);
}

#[test]
fn restore_despawns_old_and_spawns_new_entities() {
    let mut app = test_app();
    app.spawn(vec![]);
    app.spawn(vec![]);
    let snapshot = app.capture();
    assert_eq!(snapshot.entity_count(), 2);

    let mut target = test_app();
    target.spawn(vec![]);
    target.spawn(vec![]);
    target.spawn(vec![]);
    target.spawn(vec![]);

    assert_eq!(target.marked().len(), 4);

    target.restore(&snapshot);

    assert_eq!(target.marked().len(), 2);
}

#[test]
fn restore_preserves_rollback_ordered() {
    let mut app = test_app();
    let e1 = app.spawn(vec![]);
    let e2 = app.spawn(vec![]);

    let rid1 = app.world.id_of(e1).unwrap().to_bits();
    let rid2 = app.world.id_of(e2).unwrap().to_bits();

    let snapshot = app.capture();

    let mut target = test_app();
    target.restore(&snapshot);

    let ordered = target.world.ordered.unwrap();
    let restored_ids: Vec<u64> = ordered.iter_sorted().iter().map(|id| id.to_bits()).collect();
    assert_eq!(restored_ids, vec![rid1, rid2]);
}

#[test]
fn restore_gives_entities_exact_rollback_ids() {
    let mut app = test_app();
    let e1 = app.spawn(vec![]);
    let e2 = app.spawn(vec![]);

    let rid1 = app.world.id_of(e1).unwrap();
    let rid2 = app.world.id_of(e2).unwrap();

    let snapshot = app.capture();

    let mut target = test_app();
    target.restore(&snapshot);

    let restored_rids: Vec<RollbackId> =
        target.world.entities.iter().filter_map(|row| row.id).collect();

    assert_eq!(restored_rids.len(), 2);
    assert!(restored_rids.contains(&rid1));
    assert!(restored_rids.contains(&rid2));
}

#[test]
fn capture_and_restore_component_data() {
    let mut app = test_app_with_components();
    let e1 = app.spawn(vec![
        (HEALTH, Value::Health(100.0)),
        (POSITION, Value::Position(1.0, 2.0)),
    ]);
    let e2 = app.spawn(vec![
        (HEALTH, Value::Health(50.0)),
        (POSITION, Value::Position(3.0, 4.0)),
    ]);

    let rid1 = app.world.id_of(e1).unwrap();
    let rid2 = app.world.id_of(e2).unwrap();

    let snapshot = app.capture();

    let mut target = test_app_with_components();
    target.restore(&snapshot);

    let results = target.with_health_and_position();
    assert_eq!(results.len(), 2);

    for (rid, health, position) in results {
        if rid == rid1 {
            assert_eq!(health, 100.0);
            assert_eq!(position.0, 1.0);
            assert_eq!(position.1, 2.0);
        } else if rid == rid2 {
            assert_eq!(health, 50.0);
            assert_eq!(position.0, 3.0);
            assert_eq!(position.1, 4.0);
        } else {
            panic!("an identifier that was not captured");
        }
    }
}

#[test]
fn component_data_survives_bytes_roundtrip() {
    let mut app = test_app_with_components();
    app.spawn(vec![
        (HEALTH, Value::Health(75.0)),
        (POSITION, Value::Position(10.0, 20.0)),
    ]);

    let snapshot = app.capture();
    let bytes = snapshot.to_bytes();
    let restored = WorldSyncSnapshot::from_bytes(&bytes).unwrap();

    let mut target = test_app_with_components();
    target.restore(&restored);

    let results = target.with_health_and_position();
    assert_eq!(results.len(), 1);
    assert_eq!(results[0].1, 75.0);
    assert_eq!(results[0].2 .0, 10.0);
    assert_eq!(results[0].2 .1, 20.0);
}

#[test]
fn capture_and_restore_resource_data() {
    let mut app = test_app_with_resources();
    app.world.insert_resource(SCORE, Value::Score(42));
    app.world.insert_resource(GAME_TIME, Value::GameTime(123.456));

    let snapshot = app.capture();

    let mut target = test_app_with_resources();
    target.restore(&snapshot);

    assert_eq!(target.score(), Some(42));
    assert_eq!(target.game_time(), Some(123.456));
}

#[test]
fn absent_resource_is_removed_on_restore() {
    let mut source = test_app_with_resources();
    source.world.insert_resource(GAME_TIME, Value::GameTime(1.0));

    let snapshot = source.capture();

    let mut target = test_app_with_resources();
    target.world.insert_resource(SCORE, Value::Score(999));
    target.world.insert_resource(GAME_TIME, Value::GameTime(0.0));

    target.restore(&snapshot);

    assert!(target.world.resource(SCORE).is_none());
    assert_eq!(target.game_time(), Some(1.0));
}

#[test]
fn resource_data_survives_bytes_roundtrip() {
    let mut app = test_app_with_resources();
    app.world.insert_resource(SCORE, Value::Score(1337));
    app.world.insert_resource(GAME_TIME, Value::GameTime(99.99));

    let snapshot = app.capture();
    let bytes = snapshot.to_bytes();
    let restored = WorldSyncSnapshot::from_bytes(&bytes).unwrap();

    let mut target = test_app_with_resources();
    target.restore(&restored);

    assert_eq!(target.score(), Some(1337));
    assert_eq!(target.game_time(), Some(99.99));
}

fn full_registry() -> WorldSyncRegistry {
    let mut registry = WorldSyncRegistry::default();
    registry.register_component(HEALTH);
    registry.register_component(POSITION);
    registry.register_resource(SCORE);
    registry
}

#[test]
fn full_snapshot_roundtrip_with_components_and_resources() {
    let mut app = test_app();
    app.world.registry = Some(full_registry());

    app.world.insert_resource(SCORE, Value::Score(500));
    app.spawn(vec![
        (HEALTH, Value::Health(100.0)),
        (POSITION, Value::Position(5.0, 10.0)),
    ]);
    app.spawn(vec![
        (HEALTH, Value::Health(25.0)),
        (POSITION, Value::Position(-3.0, 7.0)),
    ]);

    let snapshot = app.capture();
    let bytes = snapshot.to_bytes();

    let mut target = test_app();
    target.world.registry = Some(full_registry());

    let restored = WorldSyncSnapshot::from_bytes(&bytes).unwrap();
    target.restore(&restored);

    assert_eq!(target.marked().len(), 2);
    assert_eq!(target.with_health_and_position().len(), 2);
    assert_eq!(target.score(), Some(500));
}

#[test]
fn capture_empty_world() {
    let app = test_app();
    let snapshot = app.capture();
    assert_eq!(snapshot.entity_count(), 0);
    assert_eq!(snapshot.frame, 0);
}

#[test]
fn from_bytes_with_truncated_data_returns_error() {
    let result = WorldSyncSnapshot::from_bytes(&[0u8; 4]);
    assert!(result.is_err());
}

#[test]
fn from_bytes_with_empty_data_returns_error() {
    let result = WorldSyncSnapshot::from_bytes(&[]);
    assert!(result.is_err());
}

#[test]
fn restore_into_world_with_different_entities() {
    let mut source = test_app_with_components();
    source.spawn(vec![
        (HEALTH, Value::Health(10.0)),
        (POSITION, Value::Position(1.0, 1.0)),
    ]);

    let snapshot = source.capture();

    let mut target = test_app_with_components();
    target.spawn(vec![
        (HEALTH, Value::Health(999.0)),
        (POSITION, Value::Position(99.0, 99.0)),
    ]);
    target.spawn(vec![
        (HEALTH, Value::Health(888.0)),
        (POSITION, Value::Position(88.0, 88.0)),
    ]);
    target.spawn(vec![(HEALTH, Value::Health(777.0))]);

    target.restore(&snapshot);

    let results = target.with_health_and_position();
    assert_eq!(results.len(), 1);
    assert_eq!(results[0].1, 10.0);
    assert_eq!(results[0].2 .0, 1.0);
}

#[test]
fn entity_with_partial_components_restores_correctly() {
    let mut app = test_app_with_components();
    app.spawn(vec![(HEALTH, Value::Health(42.0))]);
    app.spawn(vec![(POSITION, Value::Position(5.0, 6.0))]);
    app.spawn(vec![
        (HEALTH, Value::Health(100.0)),
        (POSITION, Value::Position(10.0, 20.0)),
    ]);

    let snapshot = app.capture();
    let bytes = snapshot.to_bytes();
    let restored = WorldSyncSnapshot::from_bytes(&bytes).unwrap();

    let mut target = test_app_with_components();
    target.restore(&restored);

    let results: Vec<(bool, bool)> = target
        .world
        .entities
        .iter()
        .filter(|row| row.id.is_some())
        .map(|row| {
            (
                target.health(row.entity).is_some(),
                target.position(row.entity).is_some(),
            )
        })
        .collect();
    assert_eq!(results.len(), 3);

    let health_only = results.iter().filter(|(h, p)| *h && !*p).count();
    let pos_only = results.iter().filter(|(h, p)| !*h && *p).count();
    let both = results.iter().filter(|(h, p)| *h && *p).count();

    assert_eq!(health_only, 1);
    assert_eq!(pos_only, 1);
    assert_eq!(both, 1);
}

#[test]
fn migration_prepare_pauses_session() {
    let mut app = test_app();
    app.world.paused = Some(GgrsPaused(false));

    let _migration = GgrsMigration::prepare(&mut app.world, &encode);

    assert!(app.world.paused.unwrap().0);
}

#[test]
fn migration_finish_resumes_session() {
    let mut app = test_app();
    app.world.paused = Some(GgrsPaused(false));

    let migration = GgrsMigration::prepare(&mut app.world, &encode);
    let snapshot = migration.into_snapshot();

    app.finish(snapshot);

    assert!(!app.world.paused.unwrap().0);
}

#[test]
fn migration_preserves_entities_through_roundtrip() {
    let mut app = test_app_with_components();
    app.world.paused = Some(GgrsPaused(false));
    app.world.insert_resource(SCORE, Value::Score(100));
    app.spawn(vec![
        (HEALTH, Value::Health(75.0)),
        (POSITION, Value::Position(3.0, 7.0)),
    ]);
    app.spawn(vec![
        (HEALTH, Value::Health(50.0)),
        (POSITION, Value::Position(-1.0, 2.0)),
    ]);

    let migration = GgrsMigration::prepare(&mut app.world, &encode);
    assert!(app.world.paused.unwrap().0);

    let snapshot = migration.into_snapshot();
    assert_eq!(snapshot.entity_count(), 2);
    assert_eq!(snapshot.frame, 0);

    app.finish(snapshot);
    assert!(!app.world.paused.unwrap().0);

    let results = app.with_health_and_position();
    assert_eq!(results.len(), 2);
    assert_eq!(results[0].1, 75.0);
    assert_eq!(results[0].2, (3.0, 7.0));
    assert_eq!(results[1].1, 50.0);
    assert_eq!(results[1].2, (-1.0, 2.0));

    assert_eq!(app.score(), Some(100));
}

#[test]
fn migration_snapshot_serializable_for_network() {
    let mut app = test_app_with_components();
    app.world.paused = Some(GgrsPaused(false));
    app.spawn(vec![(HEALTH, Value::Health(99.0))]);

    let migration = GgrsMigration::prepare(&mut app.world, &encode);
    let bytes = migration.snapshot().to_bytes();
    assert!(!bytes.is_empty());

    let restored = WorldSyncSnapshot::from_bytes(&bytes).unwrap();
    assert_eq!(restored.entity_count(), 1);

    let mut target = test_app_with_components();
    target.finish(restored);

    let healths: Vec<f32> = target
        .world
        .entities
        .iter()
        .filter_map(|row| target.health(row.entity))
        .collect();
    assert_eq!(healths, vec![99.0]);
}

#[test]
fn snapshot_is_laid_out_as_documented() {
    let snapshot = WorldSyncSnapshot {
        frame: -2,
        entity_data: vec![7, 8],
        ordered_data: vec![9],
        component_sections: vec![vec![1, 2, 3], vec![]],
        resource_sections: vec![vec![4]],
    };
    assert_eq!(
        snapshot.to_bytes(),
        vec![
            0xfe, 0xff, 0xff, 0xff, // frame
            2, 0, 0, 0, 7, 8, // entity data behind its length
            1, 0, 0, 0, 9, // ordered data behind its length
            2, 0, 0, 0, // component sections
            3, 0, 0, 0, 1, 2, 3, // first
            0, 0, 0, 0, // second
            1, 0, 0, 0, // resource sections
            1, 0, 0, 0, 4, // first
        ]
    );
    let read = WorldSyncSnapshot::from_bytes(&snapshot.to_bytes()).unwrap();
    assert_eq!(read.frame, -2);
    assert_eq!(read.entity_data, vec![7, 8]);
    assert_eq!(read.ordered_data, vec![9]);
    assert_eq!(read.component_sections, vec![vec![1, 2, 3], vec![]]);
    assert_eq!(read.resource_sections, vec![vec![4u8]]);
}

#[test]
fn captured_sections_are_laid_out_as_documented() {
    let mut app = test_app();
    let mut registry = WorldSyncRegistry::default();
    registry.register_component(HEALTH);
    registry.register_resource(SCORE);
    registry.register_resource(GAME_TIME);
    app.world.registry = Some(registry);
    app.next_entity = 0x2_0000_0005;
    app.next_id = 0x0102;
    app.world.insert_resource(SCORE, Value::Score(258));
    app.spawn(vec![(HEALTH, Value::Health(1.0))]);

    let snapshot = app.capture();
    assert_eq!(
        snapshot.entity_data,
        vec![1, 0, 0, 0, 2, 1, 0, 0, 0, 0, 0, 0, 5, 0, 0, 0, 2, 0, 0, 0]
    );
    assert_eq!(snapshot.ordered_data, vec![1, 0, 0, 0, 2, 1, 0, 0, 0, 0, 0, 0]);
    // One component: its identifier, the length, and 1.0 in four bytes.
    assert_eq!(
        snapshot.component_sections,
        vec![vec![1, 0, 0, 0, 2, 1, 0, 0, 0, 0, 0, 0, 4, 0, 0, 0, 0, 0, 0x80, 0x3f]]
    );
    // A score behind its length, and a time that is absent.
    assert_eq!(
        snapshot.resource_sections,
        vec![vec![4, 0, 0, 0, 2, 1, 0, 0], vec![0, 0, 0, 0]]
    );
}

#[test]
fn every_truncation_is_rejected() {
    let mut app = test_app();
    app.world.registry = Some(full_registry());
    app.world.insert_resource(SCORE, Value::Score(1));
    app.spawn(vec![(HEALTH, Value::Health(2.0))]);
    let bytes = app.capture().to_bytes();
    for n in 0..bytes.len() {
        match WorldSyncSnapshot::from_bytes(&bytes[..n]) {
            Err(SnapshotError::Io(IoError::UnexpectedEof)) => {}
            _ => panic!("bytes cut off at {n} were accepted"),
        }
    }
    assert!(WorldSyncSnapshot::from_bytes(&bytes).is_ok());
}

#[test]
fn bytes_behind_a_snapshot_are_ignored() {
    let mut app = test_app();
    app.spawn(vec![]);
    let mut bytes = app.capture().to_bytes();
    let whole = WorldSyncSnapshot::from_bytes(&bytes).unwrap();
    bytes.push(77);
    let longer = WorldSyncSnapshot::from_bytes(&bytes).unwrap();
    assert_eq!(whole.to_bytes(), longer.to_bytes());
}

#[test]
fn errors_say_what_happened() {
    let error = WorldSyncSnapshot::from_bytes(&[]).unwrap_err();
    assert_eq!(error.to_text(), "I/O error: failed to fill whole buffer");
    let error = SnapshotError::InvalidFormat("odd".to_string());
    assert_eq!(error.to_text(), "invalid format: odd");
    match SnapshotError::from(IoError::UnexpectedEof) {
        SnapshotError::Io(IoError::UnexpectedEof) => {}
        _ => panic!("another error"),
    }
}

#[test]
fn entity_references_are_remapped() {
    let mut app = test_app();
    let mut registry = WorldSyncRegistry::default();
    registry.register_component_with_remap(OWNER);
    app.world.registry = Some(registry);
    let outsider = 0x9_0000_0009;
    let first = app.spawn(vec![]);
    let second = app.spawn(vec![(OWNER, Value::Owner(first))]);
    let third = app.spawn(vec![(OWNER, Value::Owner(outsider))]);
    let id_second = app.world.id_of(second).unwrap();
    let id_third = app.world.id_of(third).unwrap();

    let snapshot = app.capture();
    let fresh = app.restore(&snapshot);
    assert_eq!(fresh.len(), 3);

    let second = app.world.entity_with(id_second).unwrap();
    let third = app.world.entity_with(id_third).unwrap();
    assert_eq!(second, fresh[1]);
    assert_eq!(app.world.component(OWNER, second), Some(&Value::Owner(fresh[0])));
    assert_eq!(app.world.component(OWNER, third), Some(&Value::Owner(outsider)));
}

#[test]
fn entities_without_the_marker_stay() {
    let mut source = test_app_with_components();
    source.spawn(vec![(HEALTH, Value::Health(1.0))]);
    let snapshot = source.capture();

    let mut target = test_app_with_components();
    target.spawn(vec![(HEALTH, Value::Health(5.0))]);
    let plain = 0x7_0000_0001;
    target.world.spawn(EntityRow { entity: plain, rollback: false, id: None });
    target.world.insert_component(HEALTH, plain, Value::Health(6.0));
    target.restore(&snapshot);

    assert!(target.world.has_entity(plain));
    assert_eq!(target.health(plain), Some(6.0));
    assert_eq!(target.marked().len(), 1);
    assert_eq!(target.health(target.marked()[0].entity), Some(1.0));
}

#[test]
fn without_a_registry_only_entities_are_captured() {
    let mut app = test_app();
    app.spawn(vec![(HEALTH, Value::Health(3.0))]);
    let snapshot = app.capture();
    assert_eq!(snapshot.entity_count(), 1);
    assert!(snapshot.component_sections.is_empty());
    assert!(snapshot.resource_sections.is_empty());

    let mut target = test_app();
    target.restore(&snapshot);
    assert_eq!(target.marked().len(), 1);
    assert_eq!(target.health(target.marked()[0].entity), None);
}

#[test]
fn a_world_without_frame_or_order_is_captured_as_empty() {
    let world: World<Value> = World::new();
    let snapshot = WorldSyncSnapshot::capture(&world, &encode);
    assert_eq!(snapshot.frame, 0);
    assert_eq!(snapshot.ordered_data, vec![0, 0, 0, 0]);
    let mut target = test_app();
    target.restore(&snapshot);
    assert!(target.world.ordered.unwrap().iter_sorted().is_empty());
}

#[test]
fn values_that_do_not_decode_are_skipped() {
    let mut source = test_app_with_components();
    source.spawn(vec![(POSITION, Value::Position(1.0, 2.0))]);
    let snapshot = source.capture();
    // The receiver takes the sections for the other type each.
    let mut target = test_app();
    let mut registry = WorldSyncRegistry::default();
    registry.register_component(HEALTH);
    registry.register_component(77);
    target.world.registry = Some(registry);
    target.restore(&snapshot);
    assert_eq!(target.marked().len(), 1);
    assert!(target.world.components.is_empty());
}

#[test]
fn values_that_do_not_encode_leave_no_bytes() {
    let mut app = test_app_with_components();
    app.spawn(vec![(HEALTH, Value::Health(1.0))]);
    let fails = |_kind: u64, _value: &Value| -> Option<Vec<u8>> { None };
    let snapshot = WorldSyncSnapshot::capture(&app.world, &fails);
    assert_eq!(
        snapshot.component_sections[0],
        vec![1, 0, 0, 0, 1, 0, 0, 0, 0, 0, 0, 0, 0, 0, 0, 0]
    );
}

#[test]
fn a_resource_without_bytes_survives() {
    let mut app = test_app();
    let mut registry = WorldSyncRegistry::default();
    registry.register_resource(MARKER);
    app.world.registry = Some(registry);
    app.world.insert_resource(MARKER, Value::Marker);
    let present = app.capture();
    assert_eq!(present.resource_sections, vec![vec![0, 0, 0, 0, 1]]);
    app.world.remove_resource(MARKER);
    let absent = app.capture();
    assert_eq!(absent.resource_sections, vec![vec![0, 0, 0, 0]]);

    app.restore(&present);
    assert_eq!(app.world.resource(MARKER), Some(&Value::Marker));
    app.restore(&absent);
    assert!(app.world.resource(MARKER).is_none());
}

#[test]
fn a_zero_length_without_the_mark_removes_the_resource() {
    let mut app = test_app();
    let mut registry = WorldSyncRegistry::default();
    registry.register_resource(MARKER);
    app.world.registry = Some(registry);
    let mut snapshot = app.capture();
    for behind in [vec![], vec![7], vec![0], vec![1, 1], vec![1, 0]] {
        app.world.insert_resource(MARKER, Value::Marker);
        let mut section = vec![0, 0, 0, 0];
        section.extend(behind);
        snapshot.resource_sections = vec![section];
        app.restore(&snapshot);
        assert!(app.world.resource(MARKER).is_none());
    }
}

#[test]
fn a_codec_that_keeps_types_apart_brings_the_world_back() {
    // Each type is encoded as itself, and as nothing else.
    let encode = |kind: u64, value: &Value| match (kind, value) {
        (HEALTH, Value::Health(_)) | (POSITION, Value::Position(..)) | (SCORE, Value::Score(_)) => {
            encode(kind, value)
        }
        _ => None,
    };
    assert!(encode(POSITION, &Value::Health(1.5)).is_none());
    let mut source = test_app();
    source.world.registry = Some(full_registry());
    source.world.insert_resource(SCORE, Value::Score(7));
    source.spawn(vec![(HEALTH, Value::Health(1.5)), (POSITION, Value::Position(2.0, 3.0))]);
    let snapshot = WorldSyncSnapshot::capture(&source.world, &encode);

    let mut target = test_app();
    target.world.registry = Some(full_registry());
    let fresh = target.restore(&snapshot);
    assert_eq!(target.world.component(HEALTH, fresh[0]), Some(&Value::Health(1.5)));
    assert_eq!(target.world.component(POSITION, fresh[0]), Some(&Value::Position(2.0, 3.0)));
    assert_eq!(target.world.resource(SCORE), Some(&Value::Score(7)));
}

#[test]
fn only_types_registered_for_it_are_remapped() {
    let mut app = test_app();
    let mut registry = WorldSyncRegistry::default();
    registry.register_component(HEALTH);
    registry.register_component_with_remap(OWNER);
    app.world.registry = Some(registry);
    let first = app.spawn(vec![(HEALTH, Value::Health(1.0))]);
    app.spawn(vec![(OWNER, Value::Owner(first))]);
    let snapshot = app.capture();
    let fresh = app.fresh(2);
    let strict = |kind: u64, value: &Value, map: &EntityMap| match (kind, value) {
        (OWNER, Value::Owner(entity)) => Value::Owner(map.get_mapped(*entity)),
        _ => panic!("not registered for remapping"),
    };
    snapshot.restore(&mut app.world, &fresh, &decode, &strict);
    assert_eq!(app.world.component(HEALTH, fresh[0]), Some(&Value::Health(1.0)));
    assert_eq!(app.world.component(OWNER, fresh[1]), Some(&Value::Owner(fresh[0])));
}

#[test]
fn restored_components_are_told() {
    let mut app = test_app();
    app.world.registry = Some(full_registry());
    app.spawn(vec![(HEALTH, Value::Health(1.0))]);
    app.spawn(vec![(POSITION, Value::Position(2.0, 3.0))]);
    let snapshot = app.capture();
    let bystander = app.fresh(1)[0];
    app.world.spawn(EntityRow { entity: bystander, rollback: false, id: None });
    app.world.insert_component(HEALTH, bystander, Value::Health(9.0));

    let fresh = app.restore(&snapshot);
    let mut places = snapshot.restored_components(&app.world);
    places.sort();
    let mut expected = vec![(HEALTH, fresh[0]), (POSITION, fresh[1])];
    expected.sort();
    assert_eq!(places, expected);
    assert_eq!(app.world.component(HEALTH, bystander), Some(&Value::Health(9.0)));

    app.world.registry = None;
    assert!(snapshot.restored_components(&app.world).is_empty());
}

#[test]
fn a_cut_order_is_restored_as_far_as_it_goes() {
    let mut app = test_app();
    app.spawn(vec![]);
    app.spawn(vec![]);
    let mut snapshot = app.capture();
    let whole = snapshot.ordered_data.clone();
    assert_eq!(whole.len(), 20);
    for (n, ids) in [(20, vec![1, 2]), (19, vec![1]), (12, vec![1]), (11, vec![]), (3, vec![])] {
        snapshot.ordered_data = whole[..n].to_vec();
        app.restore(&snapshot);
        let ordered = app.world.ordered.as_ref().unwrap();
        let found: Vec<u64> = ordered.iter_sorted().iter().map(|id| id.to_bits()).collect();
        assert_eq!(found, ids);
    }
}

#[test]
fn a_cut_entity_section_spawns_nothing() {
    let mut app = test_app();
    app.spawn(vec![]);
    let mut snapshot = app.capture();
    snapshot.entity_data.truncate(3);
    assert!(app.restore(&snapshot).is_empty());
    assert!(app.world.entities.is_empty());
}

#[test]
fn a_value_that_cannot_be_encoded_is_left_out() {
    let mut app = test_app();
    let mut registry = WorldSyncRegistry::default();
    registry.register_component(HEALTH);
    registry.register_resource(SCORE);
    app.world.registry = Some(registry);
    app.spawn(vec![(HEALTH, Value::Health(1.5))]);
    app.world.insert_resource(SCORE, Value::Score(7));

    let snapshot = WorldSyncSnapshot::capture(&app.world, &|_kind: u64, _value: &Value| None);
    assert_eq!(snapshot.resource_sections, vec![vec![0, 0, 0, 0]]);
    assert_eq!(snapshot.component_sections.len(), 1);
    let section = &snapshot.component_sections[0];
    assert_eq!(section[..4], [1, 0, 0, 0]);
    assert_eq!(section[section.len() - 4..], [0, 0, 0, 0]);

    app.restore(&snapshot);
    assert!(app.world.resource(SCORE).is_none());
    assert!(app.world.components.is_empty());
}

#[test]
fn a_captured_world_is_captured_the_same_after_a_restore() {
    let mut app = test_app();
    app.world.registry = Some(full_registry());
    app.world.frame = Some(RollbackFrameCount(12));
    app.world.insert_resource(SCORE, Value::Score(7));
    app.spawn(vec![(HEALTH, Value::Health(1.5))]);
    app.spawn(vec![(POSITION, Value::Position(2.0, 3.0))]);
    let snapshot = app.capture();

    let mut target = test_app();
    target.world.registry = Some(full_registry());
    target.spawn(vec![(HEALTH, Value::Health(9.0))]);
    for _ in 0..2 {
        target.restore(&snapshot);
        let again = target.capture();
        assert_eq!(again.frame, snapshot.frame);
        assert_eq!(again.ordered_data, snapshot.ordered_data);
        assert_eq!(again.entity_count(), snapshot.entity_count());
        assert_eq!(again.component_sections, snapshot.component_sections);
        assert_eq!(again.resource_sections, snapshot.resource_sections);
    }
}

#[test]
fn a_component_reaches_whoever_carries_its_identifier() {
    let mut source = test_app_with_components();
    source.spawn(vec![(HEALTH, Value::Health(4.0))]);
    let mut snapshot = source.capture();
    // Only the components are taken over, so nothing is spawned.
    snapshot.entity_data = vec![0, 0, 0, 0];

    let mut target = test_app_with_components();
    let first = 0x7_0000_0001;
    let second = 0x7_0000_0002;
    target.world.spawn(EntityRow { entity: first, rollback: false, id: Some(RollbackId(1)) });
    target.world.spawn(EntityRow { entity: second, rollback: false, id: Some(RollbackId(2)) });
    target.world.insert_component(HEALTH, second, Value::Health(8.0));
    target.restore(&snapshot);
    assert_eq!(target.health(first), Some(4.0));
    assert_eq!(target.health(second), Some(8.0));
}

#[test]
fn sections_that_are_cut_short_change_what_is_there() {
    let mut app = test_app_with_resources();
    app.world.insert_resource(SCORE, Value::Score(8));
    let snapshot = WorldSyncSnapshot {
        frame: 3,
        entity_data: vec![2, 0, 0, 0, 1, 0, 0, 0, 0, 0, 0, 0, 9, 0, 0, 0, 1, 0, 0, 0, 5],
        ordered_data: vec![],
        component_sections: vec![],
        resource_sections: vec![vec![4, 0, 0, 0, 1], vec![1]],
    };
    assert_eq!(snapshot.entity_count(), 2);
    assert_eq!(snapshot.spawn_ids(), vec![RollbackId(1)]);
    app.restore(&snapshot);
    assert_eq!(app.marked().len(), 1);
    assert_eq!(app.score(), Some(8));
    assert!(app.world.ordered.unwrap().iter_sorted().is_empty());
    assert_eq!(app.world.frame, Some(RollbackFrameCount(3)));
}

#[test]
fn entities_with_an_empty_index_are_no_entities() {
    let mut snapshot = test_app().capture();
    assert!(snapshot.entities_valid());
    // One record whose entity has nothing but zeros in its low half.
    snapshot.entity_data = vec![1, 0, 0, 0, 1, 0, 0, 0, 0, 0, 0, 0, 0, 0, 0, 0, 3, 0, 0, 0];
    assert!(!snapshot.entities_valid());
    snapshot.entity_data[12] = 1;
    assert!(snapshot.entities_valid());
    assert!(!world_sync::entity::entity_bits_valid(0));
    assert!(!world_sync::entity::entity_bits_valid(0x3_0000_0000));
    assert!(world_sync::entity::entity_bits_valid(0x3_0000_0001));
    assert!(world_sync::entity::entity_bits_valid(1));
    assert_eq!(world_sync::entity::read_entity(0x3_0000_0001), 0x3_0000_0001);
}

#[test]
fn a_world_without_a_pause_switch_keeps_none() {
    let mut app = test_app();
    let migration = GgrsMigration::prepare(&mut app.world, &encode);
    assert!(app.world.paused.is_none());
    app.finish(migration.into_snapshot());
    assert!(app.world.paused.is_none());
}
