//! What each step of a sync does to a peer, field by field.

use crate::sync::{Phase, SyncStateView, SyncStep, SyncView, SyncWorld};
use std::hash::Hash;
use vstd::prelude::*;

verus! {

/// A message begins with a tag.
pub open spec fn begins<A>(message: (A, Seq<u8>), tag: u8) -> bool {
    message.1.len() > 0 && message.1[0] == tag
}

/// Some peer in the list is this one.
pub open spec fn listed<A>(peers: Seq<A>, peer: A) -> bool {
    exists|i: int| 0 <= i < peers.len() && #[trigger] peers[i] == peer
}

/// Peers of different builds agree on the tags.
pub proof fn law_tags()
    ensures
        crate::sync::TAG_PAUSE == 0x10,
        crate::sync::TAG_SYNC_DATA == 0x11,
        crate::sync::TAG_READY == 0x12,
        crate::sync::TAG_RESUME == 0x13,
{
}

/// What contracts say of a sync world, they say of what is in its fields.
pub proof fn law_sync_world_is_its_fields<A>(world: SyncWorld<A>)
    ensures
        world@.state == world.state@,
        world@.snapshot == world.snapshot.0@,
        world@.config == world.config.0@,
        world@.connected == world.connected.0@,
        world@.is_host == world.is_host.0,
        world@.has_session == world.has_session,
        world@.paused == world.paused.0,
        world@.frame == world.frame.0,
        world@.reset_timestep == world.reset_timestep,
        world@.inbox.len() == world.inbox.0.len(),
        forall|i: int|
            0 <= i < world.inbox.0.len() ==> (#[trigger] world@.inbox[i]).0 == world.inbox.0[i].0
                && world@.inbox[i].1 == world.inbox.0[i].1@,
        world@.outbox.len() == world.outbox.0.len(),
        forall|i: int|
            0 <= i < world.outbox.0.len() ==> (#[trigger] world@.outbox[i]).0
                == world.outbox.0[i].0 && world@.outbox[i].1 == world.outbox.0[i].1@,
{
}

/// A peer begins without a sync, without peers and without a host.
pub proof fn law_fresh_state_is_blank<A>(peer: A)
    ensures
        crate::sync::fresh_state::<A>().phase is Idle,
        !crate::sync::fresh_state::<A>().session_peers.contains(peer),
        crate::sync::fresh_state::<A>().new_peer is None,
        crate::sync::fresh_state::<A>().host_addr is None,
{
}

/// An idle host whose connected peers are all in its session is left as it is,
/// but for its inbox, which is emptied.
pub proof fn law_running_host_is_left_alone<A>(world: SyncView<A>, peers: Seq<A>, member: A)
    requires
        world.state.phase is Idle,
        world.has_session,
        world.is_host,
        world.state.session_peers.contains(member),
        forall|i: int|
            0 <= i < world.connected.len() ==> world.state.session_peers.contains(
                #[trigger] world.connected[i],
            ),
    ensures
        crate::sync::stepped(world, peers).1 is None,
        crate::sync::stepped(world, peers).0.paused == world.paused,
        crate::sync::stepped(world, peers).0.outbox == world.outbox,
        crate::sync::stepped(world, peers).0 == (SyncView { inbox: Seq::empty(), ..world }),
{
    assert(!world.state.session_peers.is_empty());
    let ask = crate::sync::not_in(world.state.session_peers);
    crate::seqs::lemma_first_index(world.connected, ask);
}

/// An idle host that knows of no peer takes those who are connected for its
/// session, and changes nothing else but its inbox, which is emptied.
pub proof fn law_first_step_takes_everyone<A>(world: SyncView<A>, peers: Seq<A>)
    requires
        world.state.phase is Idle,
        world.has_session,
        world.is_host,
        forall|peer: A| !#[trigger] world.state.session_peers.contains(peer),
    ensures
        ({
            let (after, step) = crate::sync::stepped(world, peers);
            &&& step is None
            &&& forall|peer: A| #[trigger]
                after.state.session_peers.contains(peer) <==> listed(world.connected, peer)
            &&& after == (SyncView {
                inbox: Seq::empty(),
                state: SyncStateView {
                    session_peers: after.state.session_peers,
                    ..world.state
                },
                ..world
            })
        }),
{
    assert(world.state.session_peers =~= Set::empty());
    assert(world.state.session_peers.is_empty());
    let ask = crate::sync::not_in(world.connected.to_set());
    crate::seqs::lemma_first_index(world.connected, ask);
    let at = crate::seqs::first_index(world.connected, ask);
    if at < world.connected.len() {
        assert(world.connected.contains(world.connected[at]));
    }
}

/// An idle host pauses for the first connected peer that is not in its session:
/// it tells everyone in the session to pause, once each and nobody else, and
/// asks for the world to be serialized for that peer. Nothing else changes.
pub proof fn law_host_pauses_for_a_newcomer<A>(
    world: SyncView<A>,
    peers: Seq<A>,
    member: A,
    at: int,
)
    requires
        crate::sync::tells(world, peers),
        world.state.phase is Idle,
        world.has_session,
        world.is_host,
        world.state.session_peers.contains(member),
        0 <= at < world.connected.len(),
        !world.state.session_peers.contains(world.connected[at]),
        forall|i: int|
            0 <= i < at ==> world.state.session_peers.contains(#[trigger] world.connected[i]),
    ensures
        ({
            let (after, step) = crate::sync::stepped(world, peers);
            let sent = after.outbox.skip(world.outbox.len() as int);
            &&& step == Some(SyncStep::Serialize(world.connected[at]))
            &&& after == (SyncView {
                inbox: Seq::empty(),
                paused: true,
                reset_timestep: true,
                outbox: world.outbox + sent,
                ..world
            })
            &&& forall|i: int|
                0 <= i < sent.len() ==> world.state.session_peers.contains((#[trigger] sent[i]).0)
                    && sent[i].1 == seq![0x10u8]
            &&& forall|i: int, j: int|
                0 <= i < j < sent.len() ==> (#[trigger] sent[i]).0 != (#[trigger] sent[j]).0
            &&& forall|peer: A| #[trigger]
                world.state.session_peers.contains(peer) ==> sent.contains((peer, seq![0x10u8]))
        }),
{
    assert(!world.state.session_peers.is_empty());
    let ask = crate::sync::not_in(world.state.session_peers);
    crate::seqs::lemma_is_first_index(world.connected, ask, at);
    crate::sync_laws::law_session_peers_are_told_to_pause(world, peers);
    let after = crate::sync::stepped(world, peers).0;
    let sent = after.outbox.skip(world.outbox.len() as int);
    assert(after.outbox =~= world.outbox + sent);
}

/// An idle client heeds the first message to pause or to resume. Told to pause,
/// it pauses, waits, and remembers who told it.
pub proof fn law_idle_client_pauses<A>(world: SyncView<A>, peers: Seq<A>, at: int)
    requires
        world.state.phase is Idle,
        world.has_session,
        !world.is_host,
        0 <= at < world.inbox.len(),
        begins(world.inbox[at], 0x10),
        forall|i: int|
            0 <= i < at ==> !begins(#[trigger] world.inbox[i], 0x10) && !begins(
                world.inbox[i],
                0x13,
            ),
    ensures
        crate::sync::stepped(world, peers).1 is None,
        crate::sync::stepped(world, peers).0 == (SyncView {
            inbox: Seq::empty(),
            paused: true,
            reset_timestep: true,
            state: SyncStateView {
                phase: Phase::ExistingWaitingResume,
                host_addr: Some(world.inbox[at].0),
                ..world.state
            },
            ..world
        }),
{
    crate::seqs::lemma_is_first_index(world.inbox, crate::sync::for_client(), at);
}

/// Told to resume, it takes everything behind the tag for the session config,
/// and asks for the session to be rebuilt.
pub proof fn law_idle_client_resumes<A>(world: SyncView<A>, peers: Seq<A>, at: int)
    requires
        world.state.phase is Idle,
        world.has_session,
        !world.is_host,
        0 <= at < world.inbox.len(),
        begins(world.inbox[at], 0x13),
        forall|i: int|
            0 <= i < at ==> !begins(#[trigger] world.inbox[i], 0x10) && !begins(
                world.inbox[i],
                0x13,
            ),
    ensures
        crate::sync::stepped(world, peers).1 == Some(SyncStep::<A>::Resume),
        crate::sync::stepped(world, peers).0 == (SyncView {
            inbox: Seq::empty(),
            config: world.inbox[at].1.skip(1),
            ..world
        }),
{
    crate::seqs::lemma_is_first_index(world.inbox, crate::sync::for_client(), at);
}

/// Without such a message an idle client is left as it is, but for its inbox.
pub proof fn law_idle_client_plays_on<A>(world: SyncView<A>, peers: Seq<A>)
    requires
        world.state.phase is Idle,
        world.has_session,
        !world.is_host,
        forall|i: int|
            0 <= i < world.inbox.len() ==> !begins(#[trigger] world.inbox[i], 0x10) && !begins(
                world.inbox[i],
                0x13,
            ),
    ensures
        crate::sync::stepped(world, peers).1 is None,
        crate::sync::stepped(world, peers).0 == (SyncView { inbox: Seq::empty(), ..world }),
{
    crate::seqs::lemma_first_index(world.inbox, crate::sync::for_client());
}

/// A peer without a session takes everything behind the tag of the first
/// snapshot that comes for the world, pauses, and remembers who sent it.
pub proof fn law_joiner_takes_the_snapshot<A>(world: SyncView<A>, peers: Seq<A>, at: int)
    requires
        world.state.phase is Idle,
        !world.has_session,
        0 <= at < world.inbox.len(),
        begins(world.inbox[at], 0x11),
        forall|i: int| 0 <= i < at ==> !begins(#[trigger] world.inbox[i], 0x11),
    ensures
        crate::sync::stepped(world, peers).1 is None,
        crate::sync::stepped(world, peers).0 == (SyncView {
            inbox: Seq::empty(),
            snapshot: world.inbox[at].1.skip(1),
            paused: true,
            state: SyncStateView {
                phase: Phase::ClientDeserializing,
                host_addr: Some(world.inbox[at].0),
                ..world.state
            },
            ..world
        }),
{
    crate::seqs::lemma_is_first_index(world.inbox, crate::sync::has_tag(0x11), at);
}

/// Without a snapshot it waits, whatever else came.
pub proof fn law_joiner_waits_for_a_snapshot<A>(world: SyncView<A>, peers: Seq<A>)
    requires
        world.state.phase is Idle,
        !world.has_session,
        forall|i: int| 0 <= i < world.inbox.len() ==> !begins(#[trigger] world.inbox[i], 0x11),
    ensures
        crate::sync::stepped(world, peers).1 is None,
        crate::sync::stepped(world, peers).0 == (SyncView { inbox: Seq::empty(), ..world }),
{
    crate::seqs::lemma_first_index(world.inbox, crate::sync::has_tag(0x11));
}

/// A host that sent the world goes on exactly when the new peer, and not some
/// other, says that it is ready. Until the session is rebuilt nothing changes
/// but the inbox.
pub proof fn law_host_waits_for_the_new_peer<A>(world: SyncView<A>, peers: Seq<A>)
    requires
        world.state.phase is HostWaitingReady,
    ensures
        crate::sync::stepped(world, peers).1 is None || crate::sync::stepped(world, peers).1
            == Some(SyncStep::<A>::HostRebuild),
        crate::sync::stepped(world, peers).1 is Some <==> exists|i: int|
            0 <= i < world.inbox.len() && begins(#[trigger] world.inbox[i], 0x12)
                && world.state.new_peer == Some(world.inbox[i].0),
        crate::sync::stepped(world, peers).0 == (SyncView { inbox: Seq::empty(), ..world }),
{
    let ask = crate::sync::ready_from(world.state.new_peer);
    crate::seqs::lemma_first_index(world.inbox, ask);
    let at = crate::seqs::first_index(world.inbox, ask);
    if at < world.inbox.len() {
        assert(begins(world.inbox[at], 0x12));
    }
    if exists|i: int|
        0 <= i < world.inbox.len() && begins(#[trigger] world.inbox[i], 0x12)
            && world.state.new_peer == Some(world.inbox[i].0) {
        let i = choose|i: int|
            0 <= i < world.inbox.len() && begins(#[trigger] world.inbox[i], 0x12)
                && world.state.new_peer == Some(world.inbox[i].0);
        assert(ask(world.inbox[i]));
    }
}

/// A client that has a snapshot asks for it to be loaded, and leaves everything
/// as it is, its inbox too.
pub proof fn law_joiner_asks_for_the_load<A>(world: SyncView<A>, peers: Seq<A>)
    requires
        world.state.phase is ClientDeserializing,
    ensures
        crate::sync::stepped(world, peers) == (world, Some(SyncStep::<A>::Deserialize)),
{
}

/// A waiting client, new or not, takes everything behind the tag of the first
/// message to resume for the session config, and asks for the session to be
/// rebuilt.
pub proof fn law_waiting_client_resumes<A>(world: SyncView<A>, peers: Seq<A>, at: int)
    requires
        world.state.phase is ClientWaitingResume || world.state.phase is ExistingWaitingResume,
        0 <= at < world.inbox.len(),
        begins(world.inbox[at], 0x13),
        forall|i: int| 0 <= i < at ==> !begins(#[trigger] world.inbox[i], 0x13),
    ensures
        crate::sync::stepped(world, peers).1 == Some(SyncStep::<A>::Resume),
        crate::sync::stepped(world, peers).0 == (SyncView {
            inbox: Seq::empty(),
            config: world.inbox[at].1.skip(1),
            ..world
        }),
{
    crate::seqs::lemma_is_first_index(world.inbox, crate::sync::has_tag(0x13), at);
}

/// Without such a message it waits on, whatever else came.
pub proof fn law_waiting_client_waits_on<A>(world: SyncView<A>, peers: Seq<A>)
    requires
        world.state.phase is ClientWaitingResume || world.state.phase is ExistingWaitingResume,
        forall|i: int| 0 <= i < world.inbox.len() ==> !begins(#[trigger] world.inbox[i], 0x13),
    ensures
        crate::sync::stepped(world, peers).1 is None,
        crate::sync::stepped(world, peers).0 == (SyncView { inbox: Seq::empty(), ..world }),
{
    crate::seqs::lemma_first_index(world.inbox, crate::sync::has_tag(0x13));
}

/// Once the world is serialized, one message more goes out: the world, whole,
/// behind its tag, to the new peer. The host waits for that peer.
pub proof fn law_world_goes_to_the_new_peer<A>(world: SyncView<A>, peer: A)
    ensures
        ({
            let after = crate::sync::finished(world, SyncStep::Serialize(peer));
            let (to, message) = after.outbox.last();
            &&& after.outbox.len() == world.outbox.len() + 1
            &&& after.outbox.drop_last() == world.outbox
            &&& to == peer
            &&& message.len() == world.snapshot.len() + 1
            &&& message[0] == 0x11
            &&& message.skip(1) == world.snapshot
            &&& after == (SyncView {
                outbox: after.outbox,
                state: SyncStateView {
                    phase: Phase::HostWaitingReady,
                    new_peer: Some(peer),
                    ..world.state
                },
                ..world
            })
        }),
{
    let after = crate::sync::finished(world, SyncStep::Serialize(peer));
    assert(after.outbox.drop_last() =~= world.outbox);
    assert(after.outbox.last().1.skip(1) =~= world.snapshot);
}

/// Once the session is rebuilt on the host, everyone who was in it is in it, and
/// so is the new peer, if they are still connected; nobody else is. The config,
/// whole and behind its tag, goes to everyone who is connected, in turn. The
/// session runs from frame zero, and the host waits for nobody.
pub proof fn law_rebuilt_session_has_everyone<A>(world: SyncView<A>)
    ensures
        ({
            let after = crate::sync::finished(world, SyncStep::HostRebuild);
            let sent = after.outbox.skip(world.outbox.len() as int);
            &&& forall|peer: A| #[trigger]
                after.state.session_peers.contains(peer) <==> (
                world.state.session_peers.contains(peer) || world.state.new_peer == Some(peer))
                    && listed(world.connected, peer)
            &&& after.outbox == world.outbox + sent
            &&& sent.len() == world.connected.len()
            &&& forall|i: int|
                0 <= i < sent.len() ==> {
                    &&& (#[trigger] sent[i]).0 == world.connected[i]
                    &&& sent[i].1.len() == world.config.len() + 1
                    &&& sent[i].1[0] == 0x13
                    &&& sent[i].1.skip(1) == world.config
                }
            &&& after == (SyncView {
                frame: 0,
                paused: false,
                reset_timestep: true,
                outbox: after.outbox,
                state: SyncStateView {
                    phase: Phase::Idle,
                    session_peers: after.state.session_peers,
                    new_peer: None,
                    ..world.state
                },
                ..world
            })
        }),
{
    let after = crate::sync::finished(world, SyncStep::HostRebuild);
    let notices = crate::sync::resume_notices(world.connected, world.config);
    let sent = after.outbox.skip(world.outbox.len() as int);
    assert(sent =~= notices);
    assert forall|i: int| 0 <= i < sent.len() implies (#[trigger] sent[i]).1.skip(1)
        == world.config by {
        assert(sent[i].1.skip(1) =~= world.config);
    }
    assert forall|peer: A| #[trigger] after.state.session_peers.contains(peer) <==> (
    world.state.session_peers.contains(peer) || world.state.new_peer == Some(peer)) && listed(
        world.connected,
        peer,
    ) by {
        assert(world.connected.to_set().contains(peer) <==> listed(world.connected, peer)) by {
            if world.connected.contains(peer) {
                let i = choose|i: int| 0 <= i < world.connected.len() && world.connected[i] == peer;
                assert(world.connected[i] == peer);
            }
            if listed(world.connected, peer) {
                let i = choose|i: int|
                    0 <= i < world.connected.len() && #[trigger] world.connected[i] == peer;
                assert(world.connected.contains(peer));
            }
        }
    }
}

/// After a sync in which nobody else connected, the host starts no other: its
/// next idle step finds everyone in the session and changes nothing but the
/// inbox. `world` is the host when its session is rebuilt.
pub proof fn law_host_plays_on_after_a_sync<A>(
    world: SyncView<A>,
    later: SyncView<A>,
    peers: Seq<A>,
)
    requires
        world.has_session,
        world.is_host,
        world.connected.len() > 0,
        forall|i: int|
            0 <= i < world.connected.len() ==> world.state.session_peers.contains(
                #[trigger] world.connected[i],
            ) || world.state.new_peer == Some(world.connected[i]),
        later == (SyncView {
            inbox: later.inbox,
            ..crate::sync::finished(world, SyncStep::HostRebuild)
        }),
    ensures
        crate::sync::stepped(later, peers).1 is None,
        crate::sync::stepped(later, peers).0 == (SyncView { inbox: Seq::empty(), ..later }),
{
    law_rebuilt_session_has_everyone(world);
    assert forall|i: int| 0 <= i < later.connected.len() implies later.state.session_peers.contains(
        #[trigger] later.connected[i],
    ) by {
        assert(listed(world.connected, later.connected[i]));
    }
    law_running_host_is_left_alone(later, peers, later.connected[0]);
}

/// Once the world is loaded the client says that it is ready, to the host it
/// heard from and to nobody else, and waits to resume.
pub proof fn law_loaded_client_is_ready<A>(world: SyncView<A>)
    ensures
        ({
            let after = crate::sync::finished(world, SyncStep::Deserialize);
            &&& world.state.host_addr matches Some(host) ==> {
                &&& after.outbox.len() == world.outbox.len() + 1
                &&& after.outbox.drop_last() == world.outbox
                &&& after.outbox.last().0 == host
                &&& after.outbox.last().1.len() == 1
                &&& after.outbox.last().1[0] == 0x12
            }
            &&& world.state.host_addr is None ==> after.outbox == world.outbox
            &&& after == (SyncView {
                outbox: after.outbox,
                state: SyncStateView { phase: Phase::ClientWaitingResume, ..world.state },
                ..world
            })
        }),
{
    let after = crate::sync::finished(world, SyncStep::Deserialize);
    if world.state.host_addr is Some {
        assert(after.outbox.drop_last() =~= world.outbox);
    }
}

/// Once the session is rebuilt on a client, it runs from frame zero with
/// everyone in it who is connected.
pub proof fn law_resumed_client_runs<A>(world: SyncView<A>)
    ensures
        ({
            let after = crate::sync::finished(world, SyncStep::Resume);
            &&& forall|peer: A| #[trigger]
                after.state.session_peers.contains(peer) <==> listed(world.connected, peer)
            &&& after == (SyncView {
                frame: 0,
                paused: false,
                reset_timestep: true,
                state: SyncStateView {
                    phase: Phase::Idle,
                    session_peers: after.state.session_peers,
                    ..world.state
                },
                ..world
            })
        }),
{
}

/// Addresses that hash and compare as they should, and whose clones are equal
/// to them, are all that a step asks for.
pub proof fn law_plain_addresses_are_enough<A: Eq + Hash + Clone>()
    requires
        vstd::std_specs::hash::obeys_key_model::<A>(),
        vstd::laws_eq::obeys_concrete_eq::<A>(),
        forall|a: A, b: A| #[trigger] cloned(a, b) ==> a == b,
    ensures
        crate::sync::plain_addresses::<A>(),
{
}

} // verus!
