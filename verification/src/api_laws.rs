//! What callers can count on, function by function and call after call.

use crate::component_history::{GgrsComponentSnapshot, GgrsComponentSnapshots};
use crate::component_snapshot::{
    ComponentSnapshotPlugin, ImmutableComponentSnapshotPlugin, LoadCommand, LoadRow,
};
use crate::entity::EntityMap;
use crate::migration::GgrsMigration;
use crate::registry::WorldSyncRegistry;
use crate::snapshot::{SnapshotError, WorldSyncSnapshot};
use crate::strategy::Strategy;
use crate::sync::{
    finish_step, run_mid_session_sync, ConnectedPeers, GgrsSyncState, IsHost, Phase,
    SessionConfigData, SyncInbox, SyncOutbox, SyncStateView, SyncStep, SyncView, SyncWorld,
    WorldSnapshot,
};
use crate::world::{
    Component, EntityRow, GgrsPaused, RollbackFrameCount, RollbackId, RollbackOrdered, World,
    WorldView,
};
use std::hash::Hash;
use vstd::prelude::*;

verus! {

/// Registering puts a type behind those that are registered, for what it is
/// registered for and for nothing else.
pub proof fn law_registering()
    ensures
        forall|registry: &mut WorldSyncRegistry, kind: u64| #[trigger]
            call_ensures(WorldSyncRegistry::register_component, (registry, kind), ()) ==> {
                &&& final(registry)@.components == registry@.components.push(kind)
                &&& final(registry)@.resources == registry@.resources
                &&& final(registry)@.remaps == registry@.remaps
            },
        forall|registry: &mut WorldSyncRegistry, kind: u64| #[trigger]
            call_ensures(WorldSyncRegistry::register_resource, (registry, kind), ()) ==> {
                &&& final(registry)@.components == registry@.components
                &&& final(registry)@.resources == registry@.resources.push(kind)
                &&& final(registry)@.remaps == registry@.remaps
            },
        forall|registry: &mut WorldSyncRegistry, kind: u64| #[trigger]
            call_ensures(
                WorldSyncRegistry::register_component_with_remap,
                (registry, kind),
                (),
            ) ==> {
                &&& final(registry)@.components == registry@.components.push(kind)
                &&& final(registry)@.resources == registry@.resources
                &&& final(registry)@.remaps == registry@.remaps.push(kind)
            },
        forall|registry: WorldSyncRegistry| #[trigger]
            call_ensures(WorldSyncRegistry::default, (), registry) ==> {
                &&& registry@.components.len() == 0
                &&& registry@.resources.len() == 0
                &&& registry@.remaps.len() == 0
            },
        forall|registry: WorldSyncRegistry, kinds: &Vec<u64>| #[trigger]
            call_ensures(WorldSyncRegistry::components, (&registry,), kinds) ==> kinds@
                == registry@.components,
        forall|registry: WorldSyncRegistry, kinds: &Vec<u64>| #[trigger]
            call_ensures(WorldSyncRegistry::resources, (&registry,), kinds) ==> kinds@
                == registry@.resources,
        forall|registry: WorldSyncRegistry, kinds: &Vec<u64>| #[trigger]
            call_ensures(WorldSyncRegistry::remaps, (&registry,), kinds) ==> kinds@
                == registry@.remaps,
{
}

/// A snapshot that is turned into bytes and read again is the same snapshot.
pub proof fn law_bytes_give_the_snapshot_back(
    snapshot: WorldSyncSnapshot,
    bytes: Vec<u8>,
    slice: &[u8],
    read: Result<WorldSyncSnapshot, SnapshotError>,
)
    requires
        call_ensures(WorldSyncSnapshot::to_bytes, (&snapshot,), bytes),
        slice@ == bytes@,
        call_ensures(WorldSyncSnapshot::from_bytes, (slice,), read),
        snapshot.entity_data@.len() < 0x1_0000_0000,
        snapshot.ordered_data@.len() < 0x1_0000_0000,
        snapshot.component_sections@.len() < 0x1_0000_0000,
        snapshot.resource_sections@.len() < 0x1_0000_0000,
        forall|i: int|
            0 <= i < snapshot.component_sections@.len() ==> (
            #[trigger] snapshot.component_sections@[i])@.len() < 0x1_0000_0000,
        forall|i: int|
            0 <= i < snapshot.resource_sections@.len() ==> (
            #[trigger] snapshot.resource_sections@[i])@.len() < 0x1_0000_0000,
    ensures
        read matches Ok(found) && {
            &&& found.frame == snapshot.frame
            &&& found.entity_data@ == snapshot.entity_data@
            &&& found.ordered_data@ == snapshot.ordered_data@
            &&& found.component_sections@.len() == snapshot.component_sections@.len()
            &&& forall|i: int|
                0 <= i < found.component_sections@.len() ==> (
                #[trigger] found.component_sections@[i])@ == snapshot.component_sections@[i]@
            &&& found.resource_sections@.len() == snapshot.resource_sections@.len()
            &&& forall|i: int|
                0 <= i < found.resource_sections@.len() ==> (
                #[trigger] found.resource_sections@[i])@ == snapshot.resource_sections@[i]@
        },
{
    let none = Seq::<u8>::empty();
    let written = crate::snapshot::snapshot_bytes(snapshot@);
    assert(written + none =~= written);
    crate::layout_laws::law_snapshot_is_its_fields(snapshot);
    assert forall|i: int| 0 <= i < snapshot@.component_sections.len() implies (
    #[trigger] snapshot@.component_sections[i]).len() < 0x1_0000_0000 by {
        assert(snapshot.component_sections@[i]@.len() < 0x1_0000_0000);
    }
    assert forall|i: int| 0 <= i < snapshot@.resource_sections.len() implies (
    #[trigger] snapshot@.resource_sections[i]).len() < 0x1_0000_0000 by {
        assert(snapshot.resource_sections@[i]@.len() < 0x1_0000_0000);
    }
    crate::layout_laws::law_every_snapshot_survives_its_bytes(snapshot@, none);
    let found = read->Ok_0;
    crate::layout_laws::law_snapshot_is_its_fields(found);
    assert forall|i: int| 0 <= i < found.component_sections@.len() implies (
    #[trigger] found.component_sections@[i])@ == snapshot.component_sections@[i]@ by {
        assert(found@.component_sections[i] == snapshot@.component_sections[i]);
    }
    assert forall|i: int| 0 <= i < found.resource_sections@.len() implies (
    #[trigger] found.resource_sections@[i])@ == snapshot.resource_sections@[i]@ by {
        assert(found@.resource_sections[i] == snapshot@.resource_sections[i]);
    }
}

/// A snapshot is written as its layout says, byte by byte, and bytes that are
/// not those of a snapshot are refused as ending too early.
pub proof fn law_bytes_are_laid_out(
    snapshot: WorldSyncSnapshot,
    bytes: Vec<u8>,
    slice: &[u8],
    read: Result<WorldSyncSnapshot, SnapshotError>,
)
    requires
        call_ensures(WorldSyncSnapshot::to_bytes, (&snapshot,), bytes),
        call_ensures(WorldSyncSnapshot::from_bytes, (slice,), read),
    ensures
        bytes@ == crate::snapshot::snapshot_bytes(snapshot@),
        read matches Ok(found) ==> exists|rest: Seq<u8>| #[trigger]
            (crate::snapshot::snapshot_bytes(found@) + rest) == slice@,
        read matches Err(error) ==> error == SnapshotError::Io(
            crate::wire::IoError::UnexpectedEof,
        ),
{
    crate::layout_laws::law_only_snapshots_are_read(slice@);
    if let Some((found, rest)) = crate::snapshot::take_snapshot(slice@) {
        assert(crate::snapshot::snapshot_bytes(found) + rest == slice@);
    }
}

/// The number of entities is what the first four bytes of their section say.
pub proof fn law_entities_are_counted(snapshot: WorldSyncSnapshot, count: usize)
    requires
        call_ensures(WorldSyncSnapshot::entity_count, (&snapshot,), count),
    ensures
        snapshot.entity_data@.len() < 4 ==> count == 0,
        snapshot.entity_data@.len() >= 4 ==> count == crate::layout_laws::four_at(
            snapshot.entity_data@,
            0,
        ),
{
    crate::layout_laws::law_reading_four_bytes(snapshot.entity_data@);
}

/// What is to be spawned are the identifiers of the snapshot's entities, in
/// their order, and entities are valid one by one.
pub proof fn law_what_is_to_be_spawned(
    snapshot: WorldSyncSnapshot,
    ids: Vec<RollbackId>,
    valid: bool,
)
    requires
        call_ensures(WorldSyncSnapshot::spawn_ids, (&snapshot,), ids),
        call_ensures(WorldSyncSnapshot::entities_valid, (&snapshot,), valid),
    ensures
        ids@.len() == crate::sections::entity_records(snapshot.entity_data@).len(),
        forall|i: int|
            0 <= i < ids@.len() ==> (#[trigger] ids@[i]).0 == crate::layout_laws::eight_at(
                snapshot.entity_data@,
                4 + 16 * i,
            ),
        valid <==> forall|i: int|
            0 <= i < ids@.len() ==> crate::layout_laws::eight_at(
                snapshot.entity_data@,
                #[trigger] (12 + 16 * i),
            ) % 0x1_0000_0000 != 0,
{
    let data = snapshot.entity_data@;
    let records = crate::sections::entity_records(data);
    crate::layout_laws::law_reading_entities(data);
    crate::world_laws::law_valid_records(records);
    if valid {
        assert forall|i: int| 0 <= i < ids@.len() implies crate::layout_laws::eight_at(
            data,
            #[trigger] (12 + 16 * i),
        ) % 0x1_0000_0000 != 0 by {
            assert(records[i].1 % 0x1_0000_0000 != 0);
        }
    } else {
        let i = choose|i: int|
            0 <= i < records.len() && !((#[trigger] records[i]).1 % 0x1_0000_0000 != 0);
        assert(crate::layout_laws::eight_at(data, 12 + 16 * i) % 0x1_0000_0000 == 0);
    }
}

/// Capturing a world and restoring the snapshot into another, order and frame:
/// the other ends with the captured ones, whatever it had.
pub proof fn law_captured_order_is_restored<
    V,
    E: Fn(u64, &V) -> Option<Vec<u8>>,
    D: Fn(u64, &Vec<u8>) -> Option<V>,
    M: Fn(u64, &V, &EntityMap) -> V,
>(
    source: World<V>,
    encode: E,
    snapshot: WorldSyncSnapshot,
    fresh: Vec<u64>,
    decode: D,
    remap: M,
)
    requires
        call_ensures(WorldSyncSnapshot::capture::<V, E>, (&source, &encode), snapshot),
    ensures
        source.frame matches Some(frame) ==> snapshot.frame == frame.0,
        source.ordered matches Some(ordered) ==> snapshot.ordered_data@ == crate::layout_laws::four(
            ordered@.len() as int,
        ) + ordered@.map_values(|id: RollbackId| crate::layout_laws::eight(id.0)).flatten(),
        forall|target: &mut World<V>| #[trigger]
            call_ensures(
                WorldSyncSnapshot::restore::<V, D, M>,
                (&snapshot, target, &fresh, &decode, &remap),
                (),
            ) ==> {
                &&& source.frame is Some ==> final(target).frame == source.frame
                &&& source.ordered matches Some(ordered) ==> (ordered@.len() < 0x1_0000_0000
                    ==> final(target)@.ordered == Some(ordered@))
            },
{
    crate::transfer_laws::law_captured_frame(encode, source@, snapshot@);
    crate::transfer_laws::law_captured_order(encode, source@, snapshot@);
    assert forall|target: &mut World<V>| #[trigger]
        call_ensures(
            WorldSyncSnapshot::restore::<V, D, M>,
            (&snapshot, target, &fresh, &decode, &remap),
            (),
        ) implies {
        &&& source.frame is Some ==> final(target).frame == source.frame
        &&& source.ordered matches Some(ordered) ==> (ordered@.len() < 0x1_0000_0000
            ==> final(target)@.ordered == Some(ordered@))
    } by {
        crate::transfer_laws::law_order_and_frame_come_back(
            encode,
            decode,
            remap,
            source@,
            snapshot@,
            fresh@,
            target@,
            final(target)@,
        );
    }
}

/// Restoring goes by the registry of the world that is restored into: by all of
/// its component types, all of its resource types, and all of its types for
/// remapping. Pause switch and registry stay.
pub proof fn law_restoring_goes_by_the_registry<
    V,
    D: Fn(u64, &Vec<u8>) -> Option<V>,
    M: Fn(u64, &V, &EntityMap) -> V,
>(snapshot: WorldSyncSnapshot, fresh: Vec<u64>, decode: D, remap: M)
    ensures
        forall|target: &mut World<V>| #[trigger]
            call_ensures(
                WorldSyncSnapshot::restore::<V, D, M>,
                (&snapshot, target, &fresh, &decode, &remap),
                (),
            ) ==> {
                &&& final(target)@.paused == target@.paused
                &&& final(target)@.registry == target@.registry
                &&& final(target)@.frame == Some(RollbackFrameCount(snapshot.frame))
                &&& target@.registry matches Some(registry) ==> {
                    &&& crate::transfer_laws::comes_by_registry(
                        registry,
                        snapshot@,
                        decode,
                        remap,
                        fresh@,
                        target@,
                        final(target)@,
                    )
                    &&& crate::transfer_laws::resources_come_by_registry(
                        registry,
                        snapshot@,
                        decode,
                        target@,
                        final(target)@,
                    )
                }
                &&& target@.registry is None ==> final(target)@.resources == target@.resources
            },
{
    assert forall|target: &mut World<V>| #[trigger]
        call_ensures(
            WorldSyncSnapshot::restore::<V, D, M>,
            (&snapshot, target, &fresh, &decode, &remap),
            (),
        ) implies (target@.registry matches Some(registry) ==> {
        &&& crate::transfer_laws::comes_by_registry(
            registry,
            snapshot@,
            decode,
            remap,
            fresh@,
            target@,
            final(target)@,
        )
        &&& crate::transfer_laws::resources_come_by_registry(
            registry,
            snapshot@,
            decode,
            target@,
            final(target)@,
        )
    }) by {
        if let Some(registry) = target@.registry {
            crate::transfer_laws::law_restored_components(
                snapshot@,
                decode,
                remap,
                fresh@,
                target@,
                final(target)@,
                registry,
            );
            crate::transfer_laws::law_restored_resources(
                snapshot@,
                decode,
                remap,
                fresh@,
                target@,
                final(target)@,
                registry,
            );
        }
    }
}

/// A component type that is registered for remapping once has each of its
/// components remapped by a restore: `remap` made what is there now of what was
/// put there, with a map that leads every captured entity to the one that was
/// spawned for it. That holds at every place in the list of such types.
pub proof fn law_every_remapped_type_is_remapped<
    V,
    D: Fn(u64, &Vec<u8>) -> Option<V>,
    M: Fn(u64, &V, &EntityMap) -> V,
>(
    snapshot: WorldSyncSnapshot,
    decode: D,
    remap: M,
    fresh: Seq<u64>,
    before: WorldView<V>,
    after: WorldView<V>,
    registry: crate::registry::RegistryView,
    at: int,
)
    requires
        crate::restore::restored(snapshot@, decode, remap, fresh, before, after),
        before.registry == Some(registry),
        0 <= at < registry.remaps.len(),
        forall|m: int|
            0 <= m < registry.remaps.len() && m != at ==> #[trigger] registry.remaps[m]
                != registry.remaps[at],
    ensures
        exists|laid: Seq<Component<V>>, map: EntityMap|
            {
                &&& crate::transfer_laws::leads_to_spawned(
                    map@,
                    crate::sections::entity_records(snapshot.entity_data@),
                    fresh,
                )
                &&& #[trigger] went_through(
                    remap,
                    map,
                    registry.remaps[at],
                    laid,
                    after.components,
                )
            },
{
    broadcast use vstd::seq_lib::group_to_multiset_ensures;

    crate::transfer_laws::law_restored_components(
        snapshot@,
        decode,
        remap,
        fresh,
        before,
        after,
        registry,
    );
    let kind = registry.remaps[at];
    let (stages, map) = choose|stages: Seq<Seq<Component<V>>>, map: EntityMap|
        {
            &&& #[trigger] crate::transfer_laws::restored_in_turn(
                decode,
                after.entities,
                registry.components,
                snapshot@.component_sections,
                stages,
            )
            &&& crate::transfer_laws::leads_to_spawned(
                map@,
                crate::sections::entity_records(snapshot.entity_data@),
                fresh,
            )
            &&& #[trigger] crate::transfer_laws::all_remapped(
                remap,
                map,
                registry.remaps,
                stages.last(),
                after.components,
            )
        };
    let laid = stages.last();
    lemma_stands_once(registry.remaps, at);
    assert forall|i: int| 0 <= i < laid.len() && (#[trigger] laid[i]).kind == kind implies
        remap.ensures((kind, &laid[i].value, &map), after.components[i].value) by {
        assert(after.components[i].kind == laid[i].kind);
        let chain = choose|chain: Seq<V>|
            {
                &&& #[trigger] chain.len() == 2
                &&& chain[0] == laid[i].value
                &&& chain[1] == after.components[i].value
                &&& forall|c: int|
                    0 <= c < 1 ==> #[trigger] crate::transfer_laws::remap_link(
                        remap,
                        map,
                        kind,
                        chain,
                        c,
                    )
            };
        assert(crate::transfer_laws::remap_link(remap, map, kind, chain, 0));
    }
    assert(went_through(remap, map, kind, laid, after.components));
}

/// Every component of a type is what `remap` made of the one at its place.
pub open spec fn went_through<V, M: Fn(u64, &V, &EntityMap) -> V>(
    remap: M,
    map: EntityMap,
    kind: u64,
    before: Seq<Component<V>>,
    after: Seq<Component<V>>,
) -> bool {
    &&& after.len() == before.len()
    &&& forall|i: int|
        0 <= i < before.len() ==> (#[trigger] after[i]).kind == before[i].kind && after[i].entity
            == before[i].entity
    &&& forall|i: int|
        0 <= i < before.len() && (#[trigger] before[i]).kind == kind ==> remap.ensures(
            (kind, &before[i].value, &map),
            after[i].value,
        )
}

/// What stands at one place only stands there once.
proof fn lemma_stands_once(kinds: Seq<u64>, at: int)
    requires
        0 <= at < kinds.len(),
        forall|m: int| 0 <= m < kinds.len() && m != at ==> #[trigger] kinds[m] != kinds[at],
    ensures
        crate::transfer_laws::times(kinds, kinds[at]) == 1,
    decreases kinds.len(),
{
    broadcast use vstd::seq_lib::group_to_multiset_ensures;

    let front = kinds.drop_last();
    let last = kinds.len() - 1;
    let kind = kinds[at];
    assert(kinds =~= front.push(kinds[last]));
    assert(kinds.to_multiset() =~= front.to_multiset().insert(kinds[last]));
    if at == last {
        if front.to_multiset().count(kind) > 0 {
            assert(front.contains(kind));
            let m = choose|m: int| 0 <= m < front.len() && front[m] == kind;
            assert(kinds[m] == kind);
        }
    } else {
        assert forall|m: int| 0 <= m < front.len() && m != at implies #[trigger] front[m]
            != front[at] by {
            assert(kinds[m] != kinds[at]);
        }
        lemma_stands_once(front, at);
        assert(kinds[last] != kind);
    }
}

/// Preparing a migration pauses and captures, and leaves the rest of the world
/// alone. Finishing it restores and resumes. A world that cannot pause is not
/// given a switch.
pub proof fn law_migrating<
    V,
    E: Fn(u64, &V) -> Option<Vec<u8>>,
    D: Fn(u64, &Vec<u8>) -> Option<V>,
    M: Fn(u64, &V, &EntityMap) -> V,
>(
    encode: E,
    migration: GgrsMigration,
    snapshot: WorldSyncSnapshot,
    fresh: Vec<u64>,
    decode: D,
    remap: M,
)
    ensures
        forall|world: &mut World<V>| #[trigger]
            call_ensures(GgrsMigration::prepare::<V, E>, (world, &encode), migration) ==> {
                &&& world@.paused is Some ==> final(world)@.paused == Some(GgrsPaused(true))
                &&& world@.paused is None ==> final(world)@.paused is None
                &&& final(world)@ == (WorldView { paused: final(world)@.paused, ..world@ })
                &&& crate::capture::captured(encode, world@, migration@)
            },
        forall|world: &mut World<V>| #[trigger]
            call_ensures(
                GgrsMigration::finish::<V, D, M>,
                (world, snapshot, &fresh, &decode, &remap),
                (),
            ) ==> {
                &&& world@.paused is Some ==> final(world)@.paused == Some(GgrsPaused(false))
                &&& world@.paused is None ==> final(world)@.paused is None
                &&& crate::restore::restored(
                    snapshot@,
                    decode,
                    remap,
                    fresh@,
                    world@,
                    (WorldView { paused: world@.paused, ..final(world)@ }),
                )
            },
        forall|held: &WorldSyncSnapshot| #[trigger]
            call_ensures(GgrsMigration::snapshot, (&migration,), held) ==> held@ == migration@,
        forall|held: WorldSyncSnapshot| #[trigger]
            call_ensures(GgrsMigration::into_snapshot, (migration,), held) ==> held@ == migration@,
{
}

/// A peer starts with what it is given, and without what it is not given: no
/// sync under way, nothing in its boxes, nobody connected, and not as the host.
pub proof fn law_peer_starts_with_what_it_is_given<A: Eq + Hash + Clone>(
    state: Option<GgrsSyncState<A>>,
    snapshot: Option<WorldSnapshot>,
    config: Option<SessionConfigData>,
    inbox: Option<SyncInbox<A>>,
    outbox: Option<SyncOutbox<A>>,
    connected: Option<ConnectedPeers<A>>,
    is_host: Option<IsHost>,
    has_session: bool,
    paused: GgrsPaused,
    frame: RollbackFrameCount,
    world: SyncWorld<A>,
    peer: A,
)
    requires
        call_ensures(
            SyncWorld::<A>::from_resources,
            (
                state,
                snapshot,
                config,
                inbox,
                outbox,
                connected,
                is_host,
                has_session,
                paused,
                frame,
            ),
            world,
        ),
    ensures
        state matches Some(state) ==> world@.state == state@,
        state is None ==> {
            &&& world@.state.phase is Idle
            &&& !world@.state.session_peers.contains(peer)
            &&& world@.state.new_peer is None
            &&& world@.state.host_addr is None
        },
        snapshot matches Some(snapshot) ==> world@.snapshot == snapshot.0@,
        snapshot is None ==> world@.snapshot.len() == 0,
        config matches Some(config) ==> world@.config == config.0@,
        config is None ==> world@.config.len() == 0,
        inbox matches Some(inbox) ==> world@.inbox == inbox.0@.map_values(
            |message: (A, Vec<u8>)| (message.0, message.1@),
        ),
        inbox is None ==> world@.inbox.len() == 0,
        outbox matches Some(outbox) ==> world@.outbox == outbox.0@.map_values(
            |message: (A, Vec<u8>)| (message.0, message.1@),
        ),
        outbox is None ==> world@.outbox.len() == 0,
        connected matches Some(connected) ==> world@.connected == connected.0@,
        connected is None ==> world@.connected.len() == 0,
        is_host matches Some(is_host) ==> world@.is_host == is_host.0,
        is_host is None ==> !world@.is_host,
        world@.has_session == has_session,
        world@.paused == paused.0,
        world@.frame == frame.0,
        !world@.reset_timestep,
{
    if let Some(inbox) = inbox {
        assert(world@.inbox =~= inbox.0@.map_values(
            |message: (A, Vec<u8>)| (message.0, message.1@),
        ));
    }
    if let Some(outbox) = outbox {
        assert(world@.outbox =~= outbox.0@.map_values(
            |message: (A, Vec<u8>)| (message.0, message.1@),
        ));
    }
}

/// A host in a session with everyone who is connected plays on: it does not
/// pause, tells nobody anything and asks for nothing.
pub proof fn law_host_with_nobody_new_plays_on<A: Eq + Hash + Clone>()
    ensures
        forall|world: &mut SyncWorld<A>, step: Option<SyncStep<A>>, member: A|
            {
                &&& #[trigger] call_ensures(run_mid_session_sync::<A>, (world,), step)
                &&& world@.state.phase is Idle
                &&& world@.has_session
                &&& world@.is_host
                &&& #[trigger] world@.state.session_peers.contains(member)
                &&& forall|i: int|
                    0 <= i < world@.connected.len() ==> world@.state.session_peers.contains(
                        #[trigger] world@.connected[i],
                    )
            } ==> {
                &&& step is None
                &&& final(world)@ == (SyncView { inbox: Seq::empty(), ..world@ })
            },
{
    assert forall|world: &mut SyncWorld<A>, step: Option<SyncStep<A>>, member: A|
        {
            &&& #[trigger] call_ensures(run_mid_session_sync::<A>, (world,), step)
            &&& world@.state.phase is Idle
            &&& world@.has_session
            &&& world@.is_host
            &&& #[trigger] world@.state.session_peers.contains(member)
            &&& forall|i: int|
                0 <= i < world@.connected.len() ==> world@.state.session_peers.contains(
                    #[trigger] world@.connected[i],
                )
        } implies {
        &&& step is None
        &&& final(world)@ == (SyncView { inbox: Seq::empty(), ..world@ })
    } by {
        let peers = choose|peers: Seq<A>| #[trigger]
            crate::sync::tells(world@, peers) && (final(world)@, step) == crate::sync::stepped(
                world@,
                peers,
            );
        crate::step_laws::law_running_host_is_left_alone(world@, peers, member);
    }
}

/// A client without messages is left as it is, unless a snapshot that it took is
/// still to be loaded.
pub proof fn law_nothing_happens_without_a_message<A: Eq + Hash + Clone>()
    ensures
        forall|world: &mut SyncWorld<A>, step: Option<SyncStep<A>>|
            {
                &&& #[trigger] call_ensures(run_mid_session_sync::<A>, (world,), step)
                &&& world@.inbox.len() == 0
                &&& !world@.is_host
                &&& !(world@.state.phase is ClientDeserializing)
                &&& !(world@.state.phase is HostWaitingReady)
            } ==> step is None && final(world)@ == world@,
{
    assert forall|world: &mut SyncWorld<A>, step: Option<SyncStep<A>>|
        {
            &&& #[trigger] call_ensures(run_mid_session_sync::<A>, (world,), step)
            &&& world@.inbox.len() == 0
            &&& !world@.is_host
            &&& !(world@.state.phase is ClientDeserializing)
            &&& !(world@.state.phase is HostWaitingReady)
        } implies step is None && final(world)@ == world@ by {
        let peers = choose|peers: Seq<A>| #[trigger]
            crate::sync::tells(world@, peers) && (final(world)@, step) == crate::sync::stepped(
                world@,
                peers,
            );
        assert(world@.inbox =~= Seq::empty());
        if world@.state.phase is Idle {
            if world@.has_session {
                crate::step_laws::law_idle_client_plays_on(world@, peers);
            } else {
                crate::step_laws::law_joiner_waits_for_a_snapshot(world@, peers);
            }
        } else {
            crate::step_laws::law_waiting_client_waits_on(world@, peers);
        }
        assert(final(world)@.inbox =~= world@.inbox);
    }
}

/// A step is the one that the phase and the messages call for; what is told to
/// everyone in a session is told in some order.
pub proof fn law_step_is_taken<A: Eq + Hash + Clone>()
    ensures
        forall|world: &mut SyncWorld<A>, step: Option<SyncStep<A>>| #[trigger]
            call_ensures(run_mid_session_sync::<A>, (world,), step) ==> exists|peers: Seq<A>| {
                &&& #[trigger] crate::sync::tells(world@, peers)
                &&& final(world)@ == crate::sync::stepped(world@, peers).0
                &&& step == crate::sync::stepped(world@, peers).1
            },
        forall|world: &mut SyncWorld<A>, step: SyncStep<A>| #[trigger]
            call_ensures(finish_step::<A>, (world, step), ()) ==> final(world)@
                == crate::sync::finished(world@, step),
{
}

/// When the host has rebuilt its session, it remembers everyone who was in it
/// and the new peer, as far as they are connected, however many they are.
pub proof fn law_rebuilt_host_remembers_everyone<A: Eq + Hash + Clone>()
    ensures
        forall|world: &mut SyncWorld<A>, peer: A|
            {
                &&& #[trigger] call_ensures(finish_step::<A>, (world, SyncStep::HostRebuild), ())
                &&& #[trigger] crate::step_laws::listed(world@.connected, peer)
                &&& world@.state.session_peers.contains(peer) || world@.state.new_peer == Some(peer)
            } ==> final(world)@.state.session_peers.contains(peer),
        forall|world: &mut SyncWorld<A>, peer: A|
            {
                &&& #[trigger] call_ensures(finish_step::<A>, (world, SyncStep::HostRebuild), ())
                &&& #[trigger] final(world)@.state.session_peers.contains(peer)
            } ==> {
                &&& crate::step_laws::listed(world@.connected, peer)
                &&& world@.state.session_peers.contains(peer) || world@.state.new_peer == Some(peer)
            },
{
    assert forall|world: &mut SyncWorld<A>, peer: A|
        {
            &&& #[trigger] call_ensures(finish_step::<A>, (world, SyncStep::HostRebuild), ())
            &&& #[trigger] crate::step_laws::listed(world@.connected, peer)
            &&& world@.state.session_peers.contains(peer) || world@.state.new_peer == Some(peer)
        } implies final(world)@.state.session_peers.contains(peer) by {
        crate::step_laws::law_rebuilt_session_has_everyone(world@);
    }
    assert forall|world: &mut SyncWorld<A>, peer: A|
        {
            &&& #[trigger] call_ensures(finish_step::<A>, (world, SyncStep::HostRebuild), ())
            &&& #[trigger] final(world)@.state.session_peers.contains(peer)
        } implies {
        &&& crate::step_laws::listed(world@.connected, peer)
        &&& world@.state.session_peers.contains(peer) || world@.state.new_peer == Some(peer)
    } by {
        crate::step_laws::law_rebuilt_session_has_everyone(world@);
    }
}

/// An order holds the identifiers that it was made of, as they stood.
pub proof fn law_order_is_kept(ids: Vec<RollbackId>, ordered: RollbackOrdered)
    requires
        call_ensures(RollbackOrdered::from_sorted_ids, (ids,), ordered),
    ensures
        ordered@ == ids@,
        forall|sorted: &Vec<RollbackId>| #[trigger]
            call_ensures(RollbackOrdered::iter_sorted, (&ordered,), sorted) ==> sorted@ == ids@,
        forall|bits: u64, id: RollbackId| #[trigger]
            call_ensures(RollbackId::from_bits, (bits,), id) ==> id.0 == bits,
        forall|bits: u64, id: RollbackId| #[trigger]
            call_ensures(RollbackId::to_bits, (id,), bits) ==> id.0 == bits,
{
}

/// A map of entities leads where it was told to last, and leaves an entity that
/// it was told nothing of where it is.
pub proof fn law_map_leads_where_it_was_told(entity: u64)
    ensures
        forall|map: EntityMap, target: u64|
            #[trigger] call_ensures(EntityMap::get_mapped, (&map, entity), target)
                && map@.contains_key(entity) ==> target == map@[entity],
        forall|map: EntityMap, target: u64|
            #[trigger] call_ensures(EntityMap::get_mapped, (&map, entity), target)
                && !map@.contains_key(entity) ==> target == entity,
        forall|map: EntityMap| #[trigger]
            call_ensures(EntityMap::new, (), map) ==> !map@.contains_key(entity),
        forall|map: &mut EntityMap, from: u64, target: u64| #[trigger]
            call_ensures(EntityMap::insert, (map, from, target), ()) ==> final(map)@
                == map@.insert(from, target),
        forall|bits: u64, valid: bool| #[trigger]
            call_ensures(crate::entity::entity_bits_valid, (bits,), valid) ==> (valid <==> bits
                % 0x1_0000_0000 != 0),
        forall|bits: u64, read: u64| #[trigger]
            call_ensures(crate::entity::read_entity, (bits,), read) ==> read == bits,
{
    assert forall|bits: u64, valid: bool| #[trigger]
        call_ensures(crate::entity::entity_bits_valid, (bits,), valid) implies (valid <==> bits
        % 0x1_0000_0000 != 0) by {
        crate::world_laws::law_bits_of_entities(bits);
    }
}

/// A world has what was put in it and nothing else.
pub proof fn law_world_has_what_was_put_in<V>()
    ensures
        forall|world: World<V>| #[trigger]
            call_ensures(World::<V>::new, (), world) ==> {
                &&& world@.frame is None
                &&& world@.ordered is None
                &&& world@.paused is None
                &&& world@.registry is None
                &&& world@.entities.len() == 0
                &&& world@.components.len() == 0
                &&& forall|kind: u64| !#[trigger] world@.resources.contains_key(kind)
            },
        forall|world: &mut World<V>, row: EntityRow| #[trigger]
            call_ensures(World::<V>::spawn, (world, row), ()) ==> final(world)@ == (WorldView {
                entities: world@.entities.push(row),
                ..world@
            }),
        forall|world: &mut World<V>, kind: u64, value: V| #[trigger]
            call_ensures(World::<V>::insert_resource, (world, kind, value), ()) ==> final(world)@
                == (WorldView { resources: world@.resources.insert(kind, value), ..world@ }),
        forall|world: &mut World<V>, kind: u64| #[trigger]
            call_ensures(World::<V>::remove_resource, (world, kind), ()) ==> final(world)@
                == (WorldView { resources: world@.resources.remove(kind), ..world@ }),
        forall|world: World<V>, kind: u64, found: Option<&V>| #[trigger]
            call_ensures(World::<V>::resource, (&world, kind), found) ==> match found {
                Some(value) => world@.resources.contains_key(kind) && world@.resources[kind]
                    == *value,
                None => !world@.resources.contains_key(kind),
            },
        forall|world: World<V>, entity: u64, found: bool| #[trigger]
            call_ensures(World::<V>::has_entity, (&world, entity), found) ==> (found
                <==> crate::world_laws::is_there(world@.entities, entity)),
        forall|world: &mut World<V>, kind: u64, entity: u64, value: V| #[trigger]
            call_ensures(World::<V>::insert_component, (world, kind, entity, value), ())
                ==> final(world)@ == (WorldView {
                components: crate::world::with_component(world@.components, kind, entity, value),
                ..world@
            }),
        forall|world: &mut World<V>| #[trigger]
            call_ensures(World::<V>::despawn_all_rollback, (world,), ()) ==> final(world)@
                == (WorldView {
                entities: crate::world::unmarked(world@.entities),
                components: crate::world::components_on(
                    crate::world::unmarked(world@.entities),
                    world@.components,
                ),
                ..world@
            }),
        forall|world: World<V>, records: Vec<(RollbackId, u64)>| #[trigger]
            call_ensures(World::<V>::identified, (&world,), records) ==> records@
                == crate::world::identified(world@.entities),
        forall|world: World<V>, entity: u64, id: Option<RollbackId>| #[trigger]
            call_ensures(World::<V>::id_of, (&world, entity), id) ==> id == crate::world::id_of(
                world@.entities,
                entity,
            ),
        forall|world: World<V>, id: RollbackId, entity: Option<u64>| #[trigger]
            call_ensures(World::<V>::entity_with, (&world, id), entity) ==> entity
                == crate::world::entity_with(world@.entities, id),
        forall|world: World<V>, kind: u64, entity: u64, value: Option<&V>| #[trigger]
            call_ensures(World::<V>::component, (&world, kind, entity), value) ==> match value {
                Some(value) => crate::world::component_of(world@.components, kind, entity) == Some(
                    *value,
                ),
                None => crate::world::component_of(world@.components, kind, entity) is None,
            },
{
    assert forall|world: World<V>, entity: u64, found: bool| #[trigger]
        call_ensures(World::<V>::has_entity, (&world, entity), found) implies (found
        <==> crate::world_laws::is_there(world@.entities, entity)) by {
        crate::world::lemma_contains_entity(world@.entities, entity);
    }
}

/// A snapshot of components holds the last entry for each identifier, and one
/// that shares it or is asked for an entry holds and finds the same.
pub proof fn law_snapshot_of_components<C, As>(
    components: Vec<(RollbackId, As)>,
    snapshot: GgrsComponentSnapshot<C, As>,
    i: int,
)
    requires
        call_ensures(GgrsComponentSnapshot::<C, As>::new, (components,), snapshot),
        0 <= i < components@.len(),
        forall|j: int| i < j < components@.len() ==> (#[trigger] components@[j]).0
            != components@[i].0,
    ensures
        snapshot@.contains_key(components@[i].0),
        snapshot@[components@[i].0] == components@[i].1,
        forall|id: RollbackId| #[trigger]
            snapshot@.contains_key(id) ==> exists|j: int|
                0 <= j < components@.len() && (#[trigger] components@[j]).0 == id,
        forall|shared: GgrsComponentSnapshot<C, As>| #[trigger]
            call_ensures(GgrsComponentSnapshot::<C, As>::share_arc_from, (&snapshot,), shared)
                ==> shared@ == snapshot@,
        forall|n: usize| #[trigger]
            call_ensures(GgrsComponentSnapshot::<C, As>::len, (&snapshot,), n) ==> n
                == snapshot@.len(),
        forall|id: RollbackId, found: Option<&As>| #[trigger]
            call_ensures(GgrsComponentSnapshot::<C, As>::get, (&snapshot, &id), found)
                ==> match found {
                Some(value) => snapshot@.contains_key(id) && snapshot@[id] == *value,
                None => !snapshot@.contains_key(id),
            },
{
    crate::rollback_laws::law_last_entry_counts(Map::empty(), components@, i);
    assert forall|id: RollbackId| #[trigger] snapshot@.contains_key(id) implies exists|j: int|
        0 <= j < components@.len() && (#[trigger] components@[j]).0 == id by {
        if forall|j: int| 0 <= j < components@.len() ==> (#[trigger] components@[j]).0 != id {
            crate::rollback_laws::law_other_identifiers_stay(Map::empty(), components@, id);
        }
    }
}

/// The history grows at its end and is read from its end. It is cut behind the
/// latest snapshot of a frame on a rollback, and in front of what is kept.
pub proof fn law_history_of_snapshots<C, As>()
    ensures
        forall|
            history: &mut GgrsComponentSnapshots<C, As>,
            frame: i32,
            snapshot: GgrsComponentSnapshot<C, As>,
        | #[trigger]
            call_ensures(
                GgrsComponentSnapshots::<C, As>::push,
                (history, frame, snapshot),
                (),
            ) ==> final(history)@ == history@.push((frame, snapshot@)),
        forall|
            history: GgrsComponentSnapshots<C, As>,
            found: Option<&GgrsComponentSnapshot<C, As>>,
        | #[trigger]
            call_ensures(GgrsComponentSnapshots::<C, As>::peek_latest, (&history,), found)
                ==> match found {
                Some(snapshot) => history@.len() > 0 && snapshot@ == history@[history@.len()
                    - 1].1,
                None => history@.len() == 0,
            },
        forall|history: GgrsComponentSnapshots<C, As>, found: &GgrsComponentSnapshot<C, As>|
            #[trigger] call_ensures(GgrsComponentSnapshots::<C, As>::get, (&history,), found)
                ==> found@ == history@[history@.len() - 1].1,
        forall|history: &mut GgrsComponentSnapshots<C, As>, depth: usize| #[trigger]
            call_ensures(GgrsComponentSnapshots::<C, As>::sync_depth, (history, depth), ()) ==> {
                &&& history@.len() <= depth ==> final(history)@ == history@
                &&& history@.len() > depth ==> final(history)@ == history@.subrange(
                    history@.len() - depth,
                    history@.len() as int,
                )
            },
        forall|history: &mut GgrsComponentSnapshots<C, As>, confirmed: i32, n: int|
            {
                &&& #[trigger] call_ensures(
                    GgrsComponentSnapshots::<C, As>::discard_old_snapshots,
                    (history, confirmed),
                    (),
                )
                &&& 0 <= n <= history@.len()
                &&& forall|i: int| 0 <= i < n ==> (#[trigger] history@[i]).0 < confirmed
                &&& n < history@.len() ==> history@[n].0 >= confirmed
            } ==> final(history)@ == #[trigger] history@.skip(n),
        forall|history: &mut GgrsComponentSnapshots<C, As>, frame: i32, at: int|
            {
                &&& #[trigger] call_ensures(
                    GgrsComponentSnapshots::<C, As>::rollback,
                    (history, frame),
                    (),
                )
                &&& 0 <= at < history@.len()
                &&& (#[trigger] history@[at]).0 == frame
                &&& forall|i: int| at < i < history@.len() ==> (#[trigger] history@[i]).0 != frame
            } ==> final(history)@ == history@.take(at + 1),
        forall|history: GgrsComponentSnapshots<C, As>, frame: i32, found: bool| #[trigger]
            call_ensures(GgrsComponentSnapshots::<C, As>::has_frame, (&history, frame), found)
                ==> (found <==> exists|i: int|
                0 <= i < history@.len() && (#[trigger] history@[i]).0 == frame),
{
    assert forall|history: &mut GgrsComponentSnapshots<C, As>, confirmed: i32, n: int|
        {
            &&& #[trigger] call_ensures(
                GgrsComponentSnapshots::<C, As>::discard_old_snapshots,
                (history, confirmed),
                (),
            )
            &&& 0 <= n <= history@.len()
            &&& forall|i: int| 0 <= i < n ==> (#[trigger] history@[i]).0 < confirmed
            &&& n < history@.len() ==> history@[n].0 >= confirmed
        } implies final(history)@ == #[trigger] history@.skip(n) by {
        crate::rollback_laws::law_discarding_drops_what_is_too_old(history@, confirmed, n);
    }
    assert forall|history: &mut GgrsComponentSnapshots<C, As>, frame: i32, at: int|
        {
            &&& #[trigger] call_ensures(
                GgrsComponentSnapshots::<C, As>::rollback,
                (history, frame),
                (),
            )
            &&& 0 <= at < history@.len()
            &&& (#[trigger] history@[at]).0 == frame
            &&& forall|i: int| at < i < history@.len() ==> (#[trigger] history@[i]).0 != frame
        } implies final(history)@ == history@.take(at + 1) by {
        crate::rollback_laws::law_latest_of_a_frame(history@, frame, at);
    }
    assert forall|history: GgrsComponentSnapshots<C, As>, frame: i32, found: bool| #[trigger]
        call_ensures(
            GgrsComponentSnapshots::<C, As>::has_frame,
            (&history, frame),
            found,
        ) implies (found <==> exists|i: int|
        0 <= i < history@.len() && (#[trigger] history@[i]).0 == frame) by {
        lemma_frame_is_found(history@, frame);
    }
}

/// A frame is found exactly when a snapshot of it was saved.
proof fn lemma_frame_is_found<As>(history: Seq<(i32, Map<RollbackId, As>)>, frame: i32)
    ensures
        crate::component_history::latest_index(history, frame) >= 0 <==> exists|i: int|
            0 <= i < history.len() && (#[trigger] history[i]).0 == frame,
    decreases history.len(),
{
    if history.len() > 0 {
        let front = history.drop_last();
        lemma_frame_is_found(front, frame);
        if exists|i: int| 0 <= i < front.len() && (#[trigger] front[i]).0 == frame {
            let i = choose|i: int| 0 <= i < front.len() && (#[trigger] front[i]).0 == frame;
            assert(history[i].0 == frame);
        }
        if exists|i: int| 0 <= i < history.len() && (#[trigger] history[i]).0 == frame {
            let i = choose|i: int| 0 <= i < history.len() && (#[trigger] history[i]).0 == frame;
            if i < front.len() {
                assert(front[i].0 == frame);
            }
        }
        if history[history.len() - 1].0 == frame {
            assert(history[history.len() - 1].0 == frame);
        }
    }
}

/// A save adds one snapshot, of its frame, at the end of the history. One that
/// is made anew holds all rows.
pub proof fn law_saves_add_a_snapshot<S: Strategy>(
    frame: RollbackFrameCount,
    rows: Vec<(RollbackId, &S::Target)>,
)
    ensures
        forall|history: &mut GgrsComponentSnapshots<S::Target, S::Stored>| #[trigger]
            call_ensures(
                ComponentSnapshotPlugin::<S>::save_reflect,
                (history, &frame, &rows),
                (),
            ) ==> {
                &&& final(history)@.len() == history@.len() + 1
                &&& final(history)@.drop_last() == history@
                &&& final(history)@.last().0 == frame.0
                &&& crate::rollback_laws::holds_rows::<S>(rows@, final(history)@.last().1)
            },
{
    assert forall|history: &mut GgrsComponentSnapshots<S::Target, S::Stored>| #[trigger]
        call_ensures(
            ComponentSnapshotPlugin::<S>::save_reflect,
            (history, &frame, &rows),
            (),
        ) implies crate::rollback_laws::holds_rows::<S>(rows@, final(history)@.last().1) by {
        crate::rollback_laws::law_new_snapshot_holds_all_rows::<S>(
            rows@,
            final(history)@.last().1,
        );
    }
}

/// A save of cloneable components adds one snapshot, of its frame, at the end of
/// the history. It is the one before where nothing changed.
pub proof fn law_clone_saves_add_a_snapshot<
    'a,
    S: Strategy,
    F: FnOnce() -> Vec<(RollbackId, &'a S::Target)>,
>(
    frame: RollbackFrameCount,
    changed: Vec<(RollbackId, &S::Target)>,
    removed: bool,
    full: F,
) where S::Stored: Clone, S::Target: 'a
    ensures
        forall|history: &mut GgrsComponentSnapshots<S::Target, S::Stored>| #[trigger]
            call_ensures(
                ComponentSnapshotPlugin::<S>::save_cloneable::<F>,
                (history, &frame, &changed, removed, full),
                (),
            ) ==> {
                &&& final(history)@.len() == history@.len() + 1
                &&& final(history)@.drop_last() == history@
                &&& final(history)@.last().0 == frame.0
                &&& crate::component_snapshot::saved::<S, F>(
                    crate::component_history::latest(history@),
                    changed@,
                    removed,
                    full,
                    final(history)@.last().1,
                )
                &&& history@.len() > 0 && changed@.len() == 0 && !removed
                    ==> final(history)@.last().1 == history@.last().1
            },
{
    assert forall|history: &mut GgrsComponentSnapshots<S::Target, S::Stored>|
        {
            &&& #[trigger] call_ensures(
                ComponentSnapshotPlugin::<S>::save_cloneable::<F>,
                (history, &frame, &changed, removed, full),
                (),
            )
            &&& history@.len() > 0
            &&& changed@.len() == 0
            &&& !removed
        } implies final(history)@.last().1 == history@.last().1 by {
        crate::rollback_laws::law_unchanged_save_is_the_same::<S, F>(
            history@,
            changed@,
            full,
            final(history)@.last().1,
        );
    }
}

/// A load goes back to the latest snapshot of its frame and gives every row what
/// is due: a component in place where there was one, an insertion where there
/// was none, a removal where the snapshot has none. Every command is handed
/// back, for each row in its turn.
pub proof fn law_loads_do_what_is_due<S: Strategy>(frame: RollbackFrameCount)
    ensures
        forall|
            history: &mut GgrsComponentSnapshots<S::Target, S::Stored>,
            rows: Vec<LoadRow<'_, S::Target>>,
            commands: Vec<LoadCommand<S::Target>>,
            at: int,
        |
            {
                &&& #[trigger] call_ensures(
                    ComponentSnapshotPlugin::<S>::load,
                    (history, &frame, rows),
                    commands,
                )
                &&& 0 <= at < history@.len()
                &&& (#[trigger] history@[at]).0 == frame.0
                &&& forall|i: int| at < i < history@.len() ==> (#[trigger] history@[i]).0 != frame.0
            } ==> {
                &&& final(history)@ == history@.take(at + 1)
                &&& exists|after: Seq<Option<S::Target>>, from: Seq<int>| #[trigger]
                    crate::rollback_laws::commands_for::<S>(
                        rows@,
                        history@[at].1,
                        after,
                        commands@,
                        from,
                    )
                &&& forall|i: int|
                    0 <= i < rows@.len() ==> ((#[trigger] rows@[i]).component matches Some(
                        component,
                    ) ==> if history@[at].1.contains_key(rows@[i].rollback) {
                        S::updates(*component, history@[at].1[rows@[i].rollback], *final(component))
                    } else {
                        *final(component) == *component
                    })
            },
{
    assert forall|
        history: &mut GgrsComponentSnapshots<S::Target, S::Stored>,
        rows: Vec<LoadRow<'_, S::Target>>,
        commands: Vec<LoadCommand<S::Target>>,
        at: int,
    |
        {
            &&& #[trigger] call_ensures(
                ComponentSnapshotPlugin::<S>::load,
                (history, &frame, rows),
                commands,
            )
            &&& 0 <= at < history@.len()
            &&& (#[trigger] history@[at]).0 == frame.0
            &&& forall|i: int| at < i < history@.len() ==> (#[trigger] history@[i]).0 != frame.0
        } implies {
        &&& final(history)@ == history@.take(at + 1)
        &&& exists|after: Seq<Option<S::Target>>, from: Seq<int>| #[trigger]
            crate::rollback_laws::commands_for::<S>(
                rows@,
                history@[at].1,
                after,
                commands@,
                from,
            )
        &&& forall|i: int|
            0 <= i < rows@.len() ==> ((#[trigger] rows@[i]).component matches Some(component)
                ==> if history@[at].1.contains_key(rows@[i].rollback) {
                S::updates(*component, history@[at].1[rows@[i].rollback], *final(component))
            } else {
                *final(component) == *component
            })
    } by {
        crate::rollback_laws::law_latest_of_a_frame(history@, frame.0, at);
        let map = final(history)@.last().1;
        assert(map == history@[at].1);
        let after = choose|after: Seq<Option<S::Target>>|
            {
                &&& #[trigger] crate::component_snapshot::rows_brought_back::<S>(rows@, map, after)
                &&& commands@ == crate::component_snapshot::load_commands(rows@, after)
                &&& forall|i: int|
                    0 <= i < rows@.len() ==> ((#[trigger] rows@[i]).component matches Some(
                        component,
                    ) ==> *final(component) == (match after[i] {
                        Some(value) => value,
                        None => *component,
                    }))
            };
        crate::rollback_laws::law_load_leaves_nothing_out::<S>(rows@, map, after);
        assert forall|i: int| 0 <= i < rows@.len() implies ((
        #[trigger] rows@[i]).component matches Some(component) ==> if map.contains_key(
            rows@[i].rollback,
        ) {
            S::updates(*component, map[rows@[i].rollback], *final(component))
        } else {
            *final(component) == *component
        }) by {
            assert(crate::component_snapshot::brought_back::<S>(
                crate::component_snapshot::component_in(rows@[i]),
                crate::component_snapshot::stored_for(map, rows@[i].rollback),
                after[i],
            ));
        }
    }
}

/// So does a load of components that cannot be changed in place, with every
/// component inserted anew.
pub proof fn law_reloads_do_what_is_due<S: Strategy>(
    frame: RollbackFrameCount,
    rows: Vec<(u64, RollbackId, bool)>,
    commands: Vec<LoadCommand<S::Target>>,
)
    ensures
        forall|history: &mut GgrsComponentSnapshots<S::Target, S::Stored>, at: int|
            {
                &&& #[trigger] call_ensures(
                    ImmutableComponentSnapshotPlugin::<S>::load,
                    (history, &frame, &rows),
                    commands,
                )
                &&& 0 <= at < history@.len()
                &&& (#[trigger] history@[at]).0 == frame.0
                &&& forall|i: int| at < i < history@.len() ==> (#[trigger] history@[i]).0 != frame.0
            } ==> {
                &&& final(history)@ == history@.take(at + 1)
                &&& exists|after: Seq<Option<S::Target>>, from: Seq<int>| #[trigger]
                    crate::rollback_laws::commands_anew_for::<S>(
                        rows@,
                        history@[at].1,
                        after,
                        commands@,
                        from,
                    )
            },
{
    assert forall|history: &mut GgrsComponentSnapshots<S::Target, S::Stored>, at: int|
        {
            &&& #[trigger] call_ensures(
                ImmutableComponentSnapshotPlugin::<S>::load,
                (history, &frame, &rows),
                commands,
            )
            &&& 0 <= at < history@.len()
            &&& (#[trigger] history@[at]).0 == frame.0
            &&& forall|i: int| at < i < history@.len() ==> (#[trigger] history@[i]).0 != frame.0
        } implies {
        &&& final(history)@ == history@.take(at + 1)
        &&& exists|after: Seq<Option<S::Target>>, from: Seq<int>| #[trigger]
            crate::rollback_laws::commands_anew_for::<S>(
                rows@,
                history@[at].1,
                after,
                commands@,
                from,
            )
    } by {
        crate::rollback_laws::law_latest_of_a_frame(history@, frame.0, at);
        let map = final(history)@.last().1;
        assert(map == history@[at].1);
        let after = choose|after: Seq<Option<S::Target>>|
            {
                &&& #[trigger] crate::component_snapshot::all_reloaded::<S>(rows@, map, after)
                &&& commands@ == crate::component_snapshot::reload_commands(rows@, after)
            };
        crate::rollback_laws::law_reload_leaves_nothing_out::<S>(rows@, map, after);
    }
}

/// What is made by default is empty, and nobody is the host by default.
pub proof fn law_defaults_are_empty<A: Eq + Hash + Clone, C, As>(peer: A)
    ensures
        forall|made: WorldSnapshot| #[trigger]
            call_ensures(WorldSnapshot::default, (), made) ==> made.0@.len() == 0,
        forall|made: SessionConfigData| #[trigger]
            call_ensures(SessionConfigData::default, (), made) ==> made.0@.len() == 0,
        forall|made: SyncInbox<A>| #[trigger]
            call_ensures(SyncInbox::<A>::default, (), made) ==> made.0@.len() == 0,
        forall|made: SyncOutbox<A>| #[trigger]
            call_ensures(SyncOutbox::<A>::default, (), made) ==> made.0@.len() == 0,
        forall|made: ConnectedPeers<A>| #[trigger]
            call_ensures(ConnectedPeers::<A>::default, (), made) ==> made.0@.len() == 0,
        forall|made: IsHost| #[trigger] call_ensures(IsHost::default, (), made) ==> !made.0,
        forall|made: Phase| #[trigger] call_ensures(Phase::default, (), made) ==> made is Idle,
        forall|made: GgrsSyncState<A>| #[trigger]
            call_ensures(GgrsSyncState::<A>::default, (), made) ==> {
                &&& made@.phase is Idle
                &&& !made@.session_peers.contains(peer)
                &&& made@.new_peer is None
                &&& made@.host_addr is None
            },
        forall|made: RollbackOrdered| #[trigger]
            call_ensures(RollbackOrdered::default, (), made) ==> made@.len() == 0,
        forall|made: GgrsComponentSnapshots<C, As>| #[trigger]
            call_ensures(GgrsComponentSnapshots::<C, As>::default, (), made) ==> made@.len() == 0,
{
}

/// An error says in words what is wrong.
pub proof fn law_errors_are_told(message: String)
    ensures
        forall|text: String| #[trigger]
            call_ensures(
                SnapshotError::to_text,
                (&SnapshotError::InvalidFormat(message),),
                text,
            ) ==> text@ == "invalid format: "@ + message@,
        forall|text: String| #[trigger]
            call_ensures(
                SnapshotError::to_text,
                (&SnapshotError::Io(crate::wire::IoError::UnexpectedEof),),
                text,
            ) ==> text@ == "I/O error: failed to fill whole buffer"@,
{
}

/// The places of restored components are those that a section speaks of: one
/// that stands where the type stands in the registry, and has a record for the
/// identifier by which the entity is found.
pub proof fn law_places_of_restored_components<V>(
    snapshot: WorldSyncSnapshot,
    world: World<V>,
    registry: crate::registry::RegistryView,
    places: Vec<(u64, u64)>,
    kind: u64,
    entity: u64,
)
    requires
        call_ensures(
            WorldSyncSnapshot::restored_components::<V>,
            (&snapshot, &world),
            places,
        ),
        world@.registry == Some(registry),
    ensures
        places@.contains((kind, entity)) <==> exists|j: int, p: int|
            {
                &&& 0 <= j < registry.components.len()
                &&& j < snapshot.component_sections@.len()
                &&& #[trigger] registry.components[j] == kind
                &&& 0 <= p < crate::sections::component_records(
                    snapshot@.component_sections[j],
                ).len()
                &&& crate::world::entity_with(
                    world@.entities,
                    (#[trigger] crate::sections::component_records(
                        snapshot@.component_sections[j],
                    )[p]).0,
                ) == Some(entity)
            },
{
    crate::transfer_laws::law_what_sections_speak_of(
        world@.entities,
        registry.components,
        snapshot@.component_sections,
        kind,
        entity,
    );
}

/// A patch puts the last change for each identifier in place and leaves clones
/// of the rest.
pub proof fn law_patch_keeps_the_rest<C, As: Clone>(changes: Vec<(RollbackId, As)>)
    ensures
        forall|snapshot: &mut GgrsComponentSnapshot<C, As>, i: int|
            {
                &&& #[trigger] call_ensures(
                    GgrsComponentSnapshot::<C, As>::patch,
                    (snapshot, changes),
                    (),
                )
                &&& 0 <= i < changes@.len()
                &&& forall|j: int|
                    i < j < changes@.len() ==> (#[trigger] changes@[j]).0 != changes@[i].0
            } ==> final(snapshot)@.contains_key((#[trigger] changes@[i]).0)
                && final(snapshot)@[changes@[i].0] == changes@[i].1,
        forall|snapshot: &mut GgrsComponentSnapshot<C, As>, id: RollbackId|
            {
                &&& #[trigger] call_ensures(
                    GgrsComponentSnapshot::<C, As>::patch,
                    (snapshot, changes),
                    (),
                )
                &&& forall|j: int| 0 <= j < changes@.len() ==> (#[trigger] changes@[j]).0 != id
            } ==> (#[trigger] final(snapshot)@.contains_key(id) <==> snapshot@.contains_key(id))
                && (snapshot@.contains_key(id) ==> cloned(snapshot@[id], final(snapshot)@[id])),
{
    assert forall|snapshot: &mut GgrsComponentSnapshot<C, As>, i: int|
        {
            &&& #[trigger] call_ensures(
                GgrsComponentSnapshot::<C, As>::patch,
                (snapshot, changes),
                (),
            )
            &&& 0 <= i < changes@.len()
            &&& forall|j: int|
                i < j < changes@.len() ==> (#[trigger] changes@[j]).0 != changes@[i].0
        } implies final(snapshot)@.contains_key((#[trigger] changes@[i]).0)
        && final(snapshot)@[changes@[i].0] == changes@[i].1 by {
        let copy = choose|copy: Map<RollbackId, As>| #[trigger]
            crate::component_history::copied(snapshot@, copy) && final(snapshot)@
                == crate::component_history::overlaid(copy, changes@);
        crate::rollback_laws::law_last_entry_counts(copy, changes@, i);
    }
    assert forall|snapshot: &mut GgrsComponentSnapshot<C, As>, id: RollbackId|
        {
            &&& #[trigger] call_ensures(
                GgrsComponentSnapshot::<C, As>::patch,
                (snapshot, changes),
                (),
            )
            &&& forall|j: int| 0 <= j < changes@.len() ==> (#[trigger] changes@[j]).0 != id
        } implies (#[trigger] final(snapshot)@.contains_key(id) <==> snapshot@.contains_key(id))
        && (snapshot@.contains_key(id) ==> cloned(snapshot@[id], final(snapshot)@[id])) by {
        let copy = choose|copy: Map<RollbackId, As>| #[trigger]
            crate::component_history::copied(snapshot@, copy) && final(snapshot)@
                == crate::component_history::overlaid(copy, changes@);
        crate::rollback_laws::law_other_identifiers_stay(copy, changes@, id);
        assert(copy.dom().contains(id) == snapshot@.dom().contains(id));
    }
}

/// Sections are written as they are laid out and read from there.
pub proof fn law_sections_are_written_and_read()
    ensures
        forall|records: Vec<(RollbackId, u64)>, data: Vec<u8>| #[trigger]
            call_ensures(crate::sections::write_entities, (&records,), data) ==> data@
                == crate::sections::entity_section(records@),
        forall|records: Vec<(RollbackId, u64)>, data: Vec<u8>| #[trigger]
            call_ensures(crate::sections::read_entities, (&data,), records) ==> records@
                == crate::sections::entity_records(data@),
        forall|ids: Vec<RollbackId>, data: Vec<u8>| #[trigger]
            call_ensures(crate::sections::write_ordered, (&ids,), data) ==> data@
                == crate::sections::ordered_section(ids@),
        forall|ids: Vec<RollbackId>, data: Vec<u8>| #[trigger]
            call_ensures(crate::sections::read_ordered, (&data,), ids) ==> ids@
                == crate::sections::ordered_ids(data@),
        forall|records: Vec<(RollbackId, Vec<u8>)>, buf: &mut Vec<u8>| #[trigger]
            call_ensures(crate::sections::write_components, (&records, buf), ()) ==> final(buf)@
                == buf@ + crate::sections::component_section(
                crate::sections::record_views(records@),
            ),
        forall|records: Vec<(RollbackId, Vec<u8>)>, data: Vec<u8>| #[trigger]
            call_ensures(crate::sections::read_components, (&data,), records)
                ==> crate::sections::record_views(records@) == crate::sections::component_records(
                data@,
            ),
        forall|buf: &mut Vec<u8>| #[trigger]
            call_ensures(crate::sections::write_resource, (&None, buf), ()) ==> final(buf)@ == buf@
                + crate::sections::resource_section(None),
        forall|bytes: Vec<u8>, buf: &mut Vec<u8>| #[trigger]
            call_ensures(crate::sections::write_resource, (&Some(bytes), buf), ()) ==> final(buf)@
                == buf@ + crate::sections::resource_section(Some(bytes@)),
        forall|data: Vec<u8>, change: crate::sections::ResourceChange| #[trigger]
            call_ensures(crate::sections::read_resource, (&data,), change) ==> change@
                == crate::sections::resource_order(data@),
{
}

} // verus!
