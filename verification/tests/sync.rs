//! Bringing a new player into a running session.

use world_sync::sync::{
    finish_step, run_mid_session_sync, ConnectedPeers, GgrsSyncState, IsHost, Phase,
    SessionConfigData, SyncInbox, SyncOutbox, SyncStep, SyncWorld, WorldSnapshot, TAG_PAUSE,
    TAG_READY, TAG_RESUME, TAG_SYNC_DATA,
};
use world_sync::world::{GgrsPaused, RollbackFrameCount};

fn peer(has_session: bool, is_host: bool, connected: Vec<u64>) -> SyncWorld<u64> {
    SyncWorld::from_resources(
        None,
        None,
        None,
        None,
        None,
        Some(ConnectedPeers(connected)),
        Some(IsHost(is_host)),
        has_session,
        GgrsPaused(false),
        RollbackFrameCount(50),
    )
}

/// A host whose session has the peers `members`.
fn host(members: Vec<u64>) -> SyncWorld<u64> {
    let mut world = peer(true, true, members);
    assert!(run_mid_session_sync(&mut world).is_none());
    assert!(!world.paused.0);
    world
}

fn outgoing(world: &mut SyncWorld<u64>) -> Vec<(u64, Vec<u8>)> {
    std::mem::take(&mut world.outbox.0)
}

#[test]
fn tags_are_what_peers_agreed_on() {
    assert_eq!([TAG_PAUSE, TAG_SYNC_DATA, TAG_READY, TAG_RESUME], [0x10, 0x11, 0x12, 0x13]);
}

#[test]
fn missing_resources_get_their_defaults() {
    let world: SyncWorld<u64> = SyncWorld::from_resources(
        None,
        None,
        None,
        None,
        None,
        None,
        None,
        false,
        GgrsPaused(true),
        RollbackFrameCount(3),
    );
    assert!(world.snapshot.0.is_empty());
    assert!(world.config.0.is_empty());
    assert!(world.inbox.0.is_empty());
    assert!(world.outbox.0.is_empty());
    assert!(world.connected.0.is_empty());
    assert!(!world.is_host.0);
    assert!(world.paused.0);
    assert_eq!(world.frame, RollbackFrameCount(3));
    assert_eq!(Phase::default(), Phase::Idle);
    let kept = SyncWorld::<u64>::from_resources(
        Some(GgrsSyncState::default()),
        Some(WorldSnapshot(vec![1])),
        Some(SessionConfigData(vec![2])),
        Some(SyncInbox(vec![(1, vec![3])])),
        Some(SyncOutbox(vec![(2, vec![4])])),
        Some(ConnectedPeers(vec![5])),
        Some(IsHost(true)),
        true,
        GgrsPaused(false),
        RollbackFrameCount(6),
    );
    assert_eq!(kept.snapshot.0, vec![1]);
    assert_eq!(kept.config.0, vec![2]);
    assert_eq!(kept.inbox.0, vec![(1, vec![3])]);
    assert_eq!(kept.outbox.0, vec![(2, vec![4])]);
    assert_eq!(kept.connected.0, vec![5]);
    assert!(kept.is_host.0 && kept.has_session);
}

#[test]
fn new_player_is_synced() {
    let mut host_world = host(vec![1, 2]);
    host_world.connected.0.push(3);

    // The host pauses and has its world serialized.
    let step = run_mid_session_sync(&mut host_world).unwrap();
    assert!(matches!(step, SyncStep::Serialize(3)));
    assert!(host_world.paused.0);
    assert!(host_world.reset_timestep);
    host_world.snapshot = WorldSnapshot(vec![9, 8, 7]);
    finish_step(&mut host_world, step);
    let mut sent = outgoing(&mut host_world);
    assert_eq!(sent.pop(), Some((3, vec![TAG_SYNC_DATA, 9, 8, 7])));
    sent.sort();
    assert_eq!(sent, vec![(1, vec![TAG_PAUSE]), (2, vec![TAG_PAUSE])]);

    // An existing client pauses.
    let mut existing = peer(true, false, vec![0, 2]);
    existing.inbox = SyncInbox(vec![(0, vec![TAG_PAUSE])]);
    assert!(run_mid_session_sync(&mut existing).is_none());
    assert!(existing.paused.0 && existing.reset_timestep);

    // The new client takes the world and says that it is ready.
    let mut joiner = peer(false, false, vec![0]);
    joiner.inbox = SyncInbox(vec![(0, vec![TAG_SYNC_DATA, 9, 8, 7])]);
    assert!(run_mid_session_sync(&mut joiner).is_none());
    assert_eq!(joiner.snapshot.0, vec![9, 8, 7]);
    assert!(joiner.paused.0 && !joiner.reset_timestep);
    let step = run_mid_session_sync(&mut joiner).unwrap();
    assert!(matches!(step, SyncStep::Deserialize));
    finish_step(&mut joiner, step);
    assert_eq!(outgoing(&mut joiner), vec![(0, vec![TAG_READY])]);

    // The host waits for it, rebuilds the session and resumes.
    assert!(run_mid_session_sync(&mut host_world).is_none());
    host_world.inbox = SyncInbox(vec![(3, vec![TAG_READY])]);
    let step = run_mid_session_sync(&mut host_world).unwrap();
    assert!(matches!(step, SyncStep::HostRebuild));
    host_world.config = SessionConfigData(vec![5, 6]);
    finish_step(&mut host_world, step);
    let resume = vec![TAG_RESUME, 5, 6];
    assert_eq!(
        outgoing(&mut host_world),
        vec![(1, resume.clone()), (2, resume.clone()), (3, resume.clone())]
    );
    assert!(!host_world.paused.0);
    assert_eq!(host_world.frame, RollbackFrameCount(0));

    // Everyone resumes with the same config.
    for client in [&mut existing, &mut joiner] {
        client.has_session = true;
        client.inbox = SyncInbox(vec![(0, resume.clone())]);
        let step = run_mid_session_sync(client).unwrap();
        assert!(matches!(step, SyncStep::Resume));
        assert_eq!(client.config.0, vec![5, 6]);
        assert!(client.paused.0);
        finish_step(client, step);
        assert!(!client.paused.0);
        assert_eq!(client.frame, RollbackFrameCount(0));
    }

    // The new peer is not synced again.
    assert!(run_mid_session_sync(&mut host_world).is_none());
    assert!(outgoing(&mut host_world).is_empty());
}

#[test]
fn first_peers_are_taken_for_the_session() {
    let mut world = host(vec![4, 5]);
    assert!(outgoing(&mut world).is_empty());
    world.connected.0 = vec![4, 5, 6];
    assert!(matches!(run_mid_session_sync(&mut world), Some(SyncStep::Serialize(6))));
    let mut alone = host(vec![]);
    alone.connected.0 = vec![7];
    assert!(run_mid_session_sync(&mut alone).is_none());
}

#[test]
fn first_new_peer_is_synced_first() {
    let mut world = host(vec![1]);
    world.connected.0 = vec![1, 9, 8];
    assert!(matches!(run_mid_session_sync(&mut world), Some(SyncStep::Serialize(9))));
}

#[test]
fn a_peer_that_connects_during_a_sync_is_synced_next() {
    let mut world = host(vec![1]);
    world.connected.0.push(3);
    let step = run_mid_session_sync(&mut world).unwrap();
    finish_step(&mut world, step);
    world.connected.0.push(4);
    world.inbox = SyncInbox(vec![(3, vec![TAG_READY])]);
    let step = run_mid_session_sync(&mut world).unwrap();
    assert!(matches!(step, SyncStep::HostRebuild));
    finish_step(&mut world, step);
    assert!(!world.paused.0);
    outgoing(&mut world);

    let step = run_mid_session_sync(&mut world).unwrap();
    assert!(matches!(step, SyncStep::Serialize(4)));
    finish_step(&mut world, step);
    let mut told: Vec<u64> = outgoing(&mut world)
        .into_iter()
        .filter(|(_, message)| *message == vec![TAG_PAUSE])
        .map(|(to, _)| to)
        .collect();
    told.sort();
    assert_eq!(told, vec![1, 3]);
}

#[test]
fn a_peer_that_left_is_not_in_the_session() {
    let mut world = host(vec![1, 2]);
    world.connected.0.push(3);
    let step = run_mid_session_sync(&mut world).unwrap();
    finish_step(&mut world, step);
    world.connected.0 = vec![2, 3];
    world.inbox = SyncInbox(vec![(3, vec![TAG_READY])]);
    let step = run_mid_session_sync(&mut world).unwrap();
    finish_step(&mut world, step);
    assert!(run_mid_session_sync(&mut world).is_none());
    // When it comes back it is synced like any other.
    world.connected.0 = vec![2, 3, 1];
    assert!(matches!(run_mid_session_sync(&mut world), Some(SyncStep::Serialize(1))));
}

#[test]
fn waiting_clients_resume_alike() {
    let mut existing = peer(true, false, vec![0]);
    existing.inbox = SyncInbox(vec![(0, vec![TAG_PAUSE])]);
    assert!(run_mid_session_sync(&mut existing).is_none());
    let mut joiner = peer(false, false, vec![0]);
    joiner.inbox = SyncInbox(vec![(0, vec![TAG_SYNC_DATA])]);
    assert!(run_mid_session_sync(&mut joiner).is_none());
    let step = run_mid_session_sync(&mut joiner).unwrap();
    finish_step(&mut joiner, step);
    for client in [&mut existing, &mut joiner] {
        client.inbox = SyncInbox(vec![(0, vec![TAG_READY]), (0, vec![])]);
        assert!(run_mid_session_sync(client).is_none());
        assert!(client.inbox.0.is_empty() && client.paused.0);
        client.inbox = SyncInbox(vec![(0, vec![TAG_RESUME]), (0, vec![TAG_RESUME, 9])]);
        let step = run_mid_session_sync(client).unwrap();
        finish_step(client, step);
        assert!(client.config.0.is_empty());
        assert!(!client.paused.0);
        assert_eq!(client.frame, RollbackFrameCount(0));
    }
}

#[test]
fn only_the_new_peer_can_be_ready() {
    let mut world = host(vec![1]);
    world.connected.0.push(2);
    let step = run_mid_session_sync(&mut world).unwrap();
    finish_step(&mut world, step);
    world.inbox = SyncInbox(vec![(1, vec![TAG_READY]), (2, vec![]), (2, vec![TAG_PAUSE])]);
    assert!(run_mid_session_sync(&mut world).is_none());
    assert!(world.inbox.0.is_empty());
    assert!(world.paused.0);
    world.inbox = SyncInbox(vec![(1, vec![TAG_READY]), (2, vec![TAG_READY])]);
    assert!(matches!(run_mid_session_sync(&mut world), Some(SyncStep::HostRebuild)));
}

#[test]
fn other_messages_are_dropped() {
    let mut client = peer(true, false, vec![0]);
    client.inbox = SyncInbox(vec![(0, vec![]), (0, vec![0x77]), (0, vec![TAG_SYNC_DATA, 1])]);
    assert!(run_mid_session_sync(&mut client).is_none());
    assert!(client.inbox.0.is_empty());
    assert!(client.snapshot.0.is_empty());
    assert!(!client.paused.0);

    let mut joiner = peer(false, false, vec![0]);
    joiner.inbox = SyncInbox(vec![(0, vec![TAG_PAUSE]), (0, vec![TAG_RESUME, 1])]);
    assert!(run_mid_session_sync(&mut joiner).is_none());
    assert!(!joiner.paused.0);
    assert!(joiner.config.0.is_empty());
}

#[test]
fn idle_client_can_be_told_to_resume() {
    let mut client = peer(true, false, vec![0]);
    client.inbox = SyncInbox(vec![(0, vec![TAG_RESUME]), (0, vec![TAG_PAUSE])]);
    let step = run_mid_session_sync(&mut client).unwrap();
    assert!(matches!(step, SyncStep::Resume));
    finish_step(&mut client, step);
    assert_eq!(client.frame, RollbackFrameCount(0));
    assert!(!client.paused.0);
}

#[test]
fn messages_wait_while_the_world_is_loaded() {
    let mut joiner = peer(false, false, vec![0]);
    joiner.inbox = SyncInbox(vec![(0, vec![TAG_SYNC_DATA])]);
    assert!(run_mid_session_sync(&mut joiner).is_none());
    joiner.inbox = SyncInbox(vec![(0, vec![TAG_RESUME, 3])]);
    let step = run_mid_session_sync(&mut joiner).unwrap();
    assert_eq!(joiner.inbox.0.len(), 1);
    finish_step(&mut joiner, step);
    assert!(matches!(run_mid_session_sync(&mut joiner), Some(SyncStep::Resume)));
    assert_eq!(joiner.config.0, vec![3]);
}

#[test]
fn other_messages_do_not_keep_a_client_from_resuming() {
    let mut client = peer(true, false, vec![0]);
    let noise = [(8, vec![]), (8, vec![TAG_READY]), (8, vec![99])];
    client.inbox.0 = noise.to_vec();
    client.inbox.0.push((0, vec![TAG_PAUSE]));
    client.inbox.0.push((0, vec![TAG_RESUME, 1]));
    assert!(run_mid_session_sync(&mut client).is_none());
    assert!(client.paused.0);
    assert!(client.inbox.0.is_empty());

    client.inbox.0 = noise.to_vec();
    client.inbox.0.push((0, vec![TAG_RESUME, 4, 5]));
    client.inbox.0.push((0, vec![TAG_RESUME, 6]));
    let step = run_mid_session_sync(&mut client).unwrap();
    assert!(matches!(step, SyncStep::Resume));
    assert_eq!(client.config.0, vec![4, 5]);
    finish_step(&mut client, step);
    assert!(!client.paused.0);
    assert_eq!(client.frame, RollbackFrameCount(0));
}
