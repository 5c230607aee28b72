//! What holds of syncing players in the middle of a session.

use crate::sync::{
    Phase, SyncStep, SyncView, TAG_PAUSE, TAG_READY, TAG_RESUME, TAG_SYNC_DATA,
};
use vstd::prelude::*;

verus! {

/// A message keeps its tag and its payload.
pub proof fn law_message_keeps_payload(tag: u8, payload: Seq<u8>)
    ensures
        crate::sync::tagged(tag, payload).len() > 0,
        crate::sync::tagged(tag, payload)[0] == tag,
        crate::sync::tagged(tag, payload).skip(1) == payload,
{
    assert(crate::sync::tagged(tag, payload).skip(1) =~= payload);
}

/// A sync is started by an idle host, for the first connected peer that is
/// not in the session, and by nobody else.
pub proof fn law_sync_is_for_newcomers<A>(world: SyncView<A>, peers: Seq<A>)
    ensures
        crate::sync::stepped(world, peers).1 matches Some(SyncStep::Serialize(peer)) ==> {
            &&& world.state.phase is Idle
            &&& world.has_session
            &&& world.is_host
            &&& world.connected.contains(peer)
            &&& !crate::sync::known_peers(world).contains(peer)
        },
        forall|peer: A|
            world.state.phase is Idle && world.has_session && world.is_host
                && #[trigger] world.connected.contains(peer) && !crate::sync::known_peers(
                world,
            ).contains(peer) ==> crate::sync::stepped(world, peers).1 matches Some(
                SyncStep::Serialize(_),
            ),
{
    let ask = crate::sync::not_in(crate::sync::known_peers(world));
    let at = crate::seqs::first_index(world.connected, ask);
    crate::seqs::lemma_first_index(world.connected, ask);
    assert forall|peer: A|
        world.state.phase is Idle && world.has_session && world.is_host
            && #[trigger] world.connected.contains(peer) && !crate::sync::known_peers(
            world,
        ).contains(peer) implies crate::sync::stepped(world, peers).1 matches Some(
        SyncStep::Serialize(_),
    ) by {
        let i = choose|i: int| 0 <= i < world.connected.len() && world.connected[i] == peer;
        assert(ask(world.connected[i]));
    }
}

/// A host that knows of no peer in its session takes everyone who is connected
/// for one, and starts no sync for them.
pub proof fn law_first_peers_are_not_synced<A>(world: SyncView<A>, peers: Seq<A>)
    requires
        world.state.phase is Idle,
        world.has_session,
        world.is_host,
        world.state.session_peers.is_empty(),
    ensures
        crate::sync::stepped(world, peers).1 is None,
        crate::sync::stepped(world, peers).0.state.session_peers == world.connected.to_set(),
        crate::sync::stepped(world, peers).0.paused == world.paused,
{
    let ask = crate::sync::not_in(crate::sync::known_peers(world));
    crate::seqs::lemma_first_index(world.connected, ask);
    let at = crate::seqs::first_index(world.connected, ask);
    if at < world.connected.len() {
        assert(world.connected.contains(world.connected[at]));
    }
}

/// What is so in every phase: a host that waits knows for whom, and that peer
/// is not in the session yet; a client that waits knows its host; and whoever
/// waits is paused.
pub open spec fn in_step<A>(world: SyncView<A>) -> bool {
    &&& match world.state.phase {
        Phase::Idle => true,
        Phase::HostWaitingReady => world.state.new_peer matches Some(peer)
            && !world.state.session_peers.contains(peer),
        _ => world.state.host_addr is Some,
    }
    &&& !(world.state.phase is Idle) ==> world.paused
}

/// A peer starts in step.
pub proof fn law_fresh_state_is_in_step<A>(world: SyncView<A>)
    requires
        world.state == crate::sync::fresh_state::<A>(),
    ensures
        in_step(world),
{
}

/// Steps keep peers in step, whatever messages come, as long as the game
/// leaves alone what a peer remembers of the sync and whether it is paused.
pub proof fn law_steps_stay_in_step<A>(world: SyncView<A>, peers: Seq<A>, run: SyncView<A>)
    requires
        in_step(world),
        run.state == crate::sync::stepped(world, peers).0.state,
        run.paused == crate::sync::stepped(world, peers).0.paused,
    ensures
        in_step(crate::sync::stepped(world, peers).0),
        crate::sync::stepped(world, peers).1 matches Some(step) ==> in_step(
            crate::sync::finished(run, step),
        ),
{
    law_sync_is_for_newcomers(world, peers);
}

/// Messages that nobody waits for are dropped and change nothing else. A host
/// with a session may still find a new peer, so nothing is said of it here.
pub proof fn law_other_messages_are_dropped<A>(world: SyncView<A>, peers: Seq<A>)
    requires
        forall|i: int|
            0 <= i < world.inbox.len() ==> (#[trigger] world.inbox[i]).1.len() == 0 || (
            world.inbox[i].1[0] != TAG_PAUSE && world.inbox[i].1[0] != TAG_SYNC_DATA
                && world.inbox[i].1[0] != TAG_READY && world.inbox[i].1[0] != TAG_RESUME),
        !(world.state.phase is ClientDeserializing),
        world.state.phase is Idle ==> !world.has_session || !world.is_host,
    ensures
        crate::sync::stepped(world, peers) == (
            crate::sync::drained(world),
            None::<SyncStep<A>>,
        ),
{
    crate::seqs::lemma_first_index(world.inbox, crate::sync::for_client());
    crate::seqs::lemma_first_index(world.inbox, crate::sync::has_tag(TAG_SYNC_DATA));
    crate::seqs::lemma_first_index(world.inbox, crate::sync::has_tag(TAG_RESUME));
    crate::seqs::lemma_first_index(
        world.inbox,
        crate::sync::ready_from(world.state.new_peer),
    );
}

/// Every step but the one that deserializes empties the inbox.
pub proof fn law_steps_empty_the_inbox<A>(world: SyncView<A>, peers: Seq<A>)
    ensures
        world.state.phase is ClientDeserializing || crate::sync::stepped(world, peers).0.inbox
            == Seq::<(A, Seq<u8>)>::empty(),
{
}

/// When a sync starts, each peer in the session is told to pause, once, and
/// the new one is not.
pub proof fn law_session_peers_are_told_to_pause<A>(world: SyncView<A>, peers: Seq<A>)
    requires
        crate::sync::tells(world, peers),
        world.state.phase is Idle,
        world.has_session,
        world.is_host,
        crate::sync::newcomer(world) is Some,
    ensures
        ({
            let after = crate::sync::stepped(world, peers).0;
            let sent = after.outbox.skip(world.outbox.len() as int);
            &&& after.paused
            &&& after.outbox.take(world.outbox.len() as int) == world.outbox
            &&& forall|i: int|
                0 <= i < sent.len() ==> crate::sync::known_peers(world).contains(
                    (#[trigger] sent[i]).0,
                ) && sent[i].1 == seq![TAG_PAUSE]
            &&& forall|i: int, j: int|
                0 <= i < j < sent.len() ==> (#[trigger] sent[i]).0 != (#[trigger] sent[j]).0
            &&& forall|peer: A| #[trigger]
                crate::sync::known_peers(world).contains(peer) ==> sent.contains(
                    (peer, seq![TAG_PAUSE]),
                )
        }),
{
    let after = crate::sync::stepped(world, peers).0;
    let notices = crate::sync::pause_notices(peers);
    let sent = after.outbox.skip(world.outbox.len() as int);
    assert(sent =~= notices);
    assert(after.outbox.take(world.outbox.len() as int) =~= world.outbox);
    assert forall|i: int| 0 <= i < sent.len() implies crate::sync::known_peers(world).contains(
        (#[trigger] sent[i]).0,
    ) && sent[i].1 == seq![TAG_PAUSE] by {
        assert(peers.contains(peers[i]));
        assert(peers.to_set().contains(peers[i]));
    }
    assert forall|i: int, j: int| 0 <= i < j < sent.len() implies (#[trigger] sent[i]).0 != (
    #[trigger] sent[j]).0 by {
        assert(peers[i] != peers[j]);
    }
    assert forall|peer: A| #[trigger] crate::sync::known_peers(world).contains(peer) implies
        sent.contains((peer, seq![TAG_PAUSE])) by {
        assert(peers.to_set().contains(peer));
        let i = choose|i: int| 0 <= i < peers.len() && peers[i] == peer;
        assert(sent[i] == (peer, seq![TAG_PAUSE]));
    }
}

/// `message` is the first in the inbox that meets a test. What else is there
/// does not matter.
pub open spec fn first_of_kind<A>(
    inbox: Seq<(A, Seq<u8>)>,
    ask: spec_fn((A, Seq<u8>)) -> bool,
    message: (A, Seq<u8>),
) -> bool {
    let at = crate::seqs::first_index(inbox, ask);
    at < inbox.len() && inbox[at] == message
}

/// An existing client pauses when the host says so, and when the host says to
/// resume, it has the session config from the message and, once the session is
/// rebuilt, runs from frame zero. Whatever else is in its inbox does not keep
/// it from this.
pub proof fn law_existing_client_pauses_and_resumes<A>(
    client: SyncView<A>,
    host: A,
    sender: A,
    config: Seq<u8>,
    later: SyncView<A>,
    rebuilt: SyncView<A>,
    peers: Seq<A>,
)
    requires
        client.state.phase is Idle,
        client.has_session,
        !client.is_host,
        first_of_kind(client.inbox, crate::sync::for_client(), (host, seq![TAG_PAUSE])),
        later.state == crate::sync::stepped(client, peers).0.state,
        first_of_kind(
            later.inbox,
            crate::sync::has_tag(TAG_RESUME),
            (sender, crate::sync::tagged(TAG_RESUME, config)),
        ),
        rebuilt.state == crate::sync::stepped(later, peers).0.state,
    ensures
        crate::sync::stepped(client, peers).0.paused,
        crate::sync::stepped(client, peers).0.state.phase is ExistingWaitingResume,
        crate::sync::stepped(client, peers).0.state.host_addr == Some(host),
        crate::sync::stepped(client, peers).1 is None,
        crate::sync::stepped(later, peers).0.config == config,
        crate::sync::stepped(later, peers).1 == Some(SyncStep::<A>::Resume),
        ({
            let end = crate::sync::finished(rebuilt, SyncStep::Resume);
            &&& end.state.phase is Idle
            &&& !end.paused
            &&& end.frame == 0
            &&& end.state.session_peers == rebuilt.connected.to_set()
        }),
{
    law_message_keeps_payload(TAG_RESUME, config);
}

/// A new player is brought into the session. The host pauses, has its world
/// serialized to `world` and sends that to the new peer. The new peer gets
/// exactly `world`, and says that it is ready. The host has the session rebuilt
/// with the session config `config` and sends that to everyone. The new peer
/// gets exactly `config`. In the end both run from frame zero, and the new
/// peer is in the session.
///
/// `joiner` is the new peer before it hears from the host, and `host_addr` is
/// where it hears the host from. `at_host` is what the host finds in its inbox
/// while it waits, and `at_joiner` what the new peer finds while it does.
pub proof fn law_new_player_is_synced<A>(
    host: SyncView<A>,
    peers: Seq<A>,
    peer: A,
    joiner: SyncView<A>,
    host_addr: A,
    world: Seq<u8>,
    config: Seq<u8>,
    at_host: Seq<(A, Seq<u8>)>,
    at_joiner: Seq<(A, Seq<u8>)>,
)
    requires
        host.state.phase is Idle,
        host.has_session,
        host.is_host,
        crate::sync::newcomer(host) == Some(peer),
        joiner.state.phase is Idle,
        !joiner.has_session,
        first_of_kind(
            joiner.inbox,
            crate::sync::has_tag(TAG_SYNC_DATA),
            (host_addr, crate::sync::tagged(TAG_SYNC_DATA, world)),
        ),
        first_of_kind(
            at_host,
            crate::sync::ready_from(Some(peer)),
            (peer, seq![TAG_READY]),
        ),
        first_of_kind(
            at_joiner,
            crate::sync::has_tag(TAG_RESUME),
            (host_addr, crate::sync::tagged(TAG_RESUME, config)),
        ),
    ensures
        ({
            let (paused, due) = crate::sync::stepped(host, peers);
            let sent = crate::sync::finished(
                (SyncView { snapshot: world, ..paused }),
                SyncStep::Serialize(peer),
            );
            let loading = crate::sync::stepped(joiner, peers).0;
            let ready = crate::sync::finished(loading, SyncStep::Deserialize);
            let (heard, rebuild) = crate::sync::stepped(
                (SyncView { inbox: at_host, ..sent }),
                peers,
            );
            let running = crate::sync::finished(
                (SyncView { config, ..heard }),
                SyncStep::HostRebuild,
            );
            let (resuming, resume) = crate::sync::stepped(
                (SyncView { inbox: at_joiner, ..ready }),
                peers,
            );
            let joined = crate::sync::finished(resuming, SyncStep::Resume);
            // The host sends the world.
            &&& due == Some(SyncStep::Serialize(peer))
            &&& paused.paused
            &&& sent.outbox.last() == (peer, crate::sync::tagged(TAG_SYNC_DATA, world))
            // The new peer has it, and says so.
            &&& loading.snapshot == world
            &&& loading.paused
            &&& crate::sync::stepped(loading, peers) == (
                loading,
                Some(SyncStep::<A>::Deserialize),
            )
            &&& ready.outbox == joiner.outbox.push((host_addr, seq![TAG_READY]))
            // The host goes on.
            &&& rebuild == Some(SyncStep::<A>::HostRebuild)
            &&& running.outbox.contains((peer, crate::sync::tagged(TAG_RESUME, config)))
            &&& running.state.phase is Idle
            &&& running.state.session_peers.contains(peer)
            &&& !running.paused
            &&& running.frame == 0
            // And so does the new peer.
            &&& resume == Some(SyncStep::<A>::Resume)
            &&& resuming.config == config
            &&& joined.state.phase is Idle
            &&& !joined.paused
            &&& joined.frame == 0
        }),
{
    law_message_keeps_payload(TAG_SYNC_DATA, world);
    law_message_keeps_payload(TAG_RESUME, config);
    let (paused, due) = crate::sync::stepped(host, peers);
    let sent = crate::sync::finished(
        (SyncView { snapshot: world, ..paused }),
        SyncStep::Serialize(peer),
    );
    let heard = crate::sync::stepped((SyncView { inbox: at_host, ..sent }), peers).0;
    let running = crate::sync::finished((SyncView { config, ..heard }), SyncStep::HostRebuild);
    let ask = crate::sync::not_in(crate::sync::known_peers(host));
    let at = crate::seqs::first_index(host.connected, ask);
    crate::seqs::lemma_first_index(host.connected, ask);
    assert(host.connected[at] == peer);
    assert(host.connected.to_set().contains(peer));
    let notices = crate::sync::resume_notices(host.connected, config);
    assert(notices[at] == (peer, crate::sync::tagged(TAG_RESUME, config)));
    assert(running.outbox[heard.outbox.len() + at] == notices[at]);
}

/// A peer that connected while another one was synced is not forgotten: the
/// next idle step of the host starts a sync for the first peer that was
/// neither in the session nor just synced. This is so as long as anyone is left
/// in the session; a host without anyone takes all who are connected for its
/// session.
pub proof fn law_waiting_peer_is_found_next<A>(
    rebuilt: SyncView<A>,
    later: SyncView<A>,
    peers: Seq<A>,
    peer: A,
)
    requires
        later.state == crate::sync::finished(rebuilt, SyncStep::HostRebuild).state,
        later.has_session,
        later.is_host,
        !crate::sync::rebuilt_peers(rebuilt).is_empty(),
        later.connected.contains(peer),
        !rebuilt.state.session_peers.contains(peer),
        rebuilt.state.new_peer != Some(peer),
    ensures
        crate::sync::stepped(later, peers).1 matches Some(SyncStep::Serialize(found))
            && later.connected.contains(found) && !crate::sync::rebuilt_peers(rebuilt).contains(
            found,
        ),
{
    law_sync_is_for_newcomers(later, peers);
    assert(!crate::sync::known_peers(later).contains(peer));
}

/// Once a sync is done the host starts no other as long as only peers are
/// connected who are in the session, the one just synced among them.
pub proof fn law_synced_peers_are_not_synced_again<A>(
    rebuilt: SyncView<A>,
    later: SyncView<A>,
    peers: Seq<A>,
)
    requires
        later.state == crate::sync::finished(rebuilt, SyncStep::HostRebuild).state,
        forall|peer: A| #[trigger]
            later.connected.contains(peer) ==> crate::sync::rebuilt_peers(rebuilt).contains(peer),
    ensures
        !(crate::sync::stepped(later, peers).1 matches Some(SyncStep::Serialize(_))),
{
    let ask = crate::sync::not_in(crate::sync::known_peers(later));
    crate::seqs::lemma_first_index(later.connected, ask);
    let at = crate::seqs::first_index(later.connected, ask);
    if at < later.connected.len() {
        assert(later.connected.contains(later.connected[at]));
        assert(later.connected.to_set().contains(later.connected[at]));
    }
}

/// A new client and an existing one that wait to resume do so alike: with the
/// same messages they take the same config and, once the session is rebuilt,
/// end in the same state. Without a message to resume both stay as they are,
/// but for the inbox.
pub proof fn law_waiting_clients_resume_alike<A>(
    existing: SyncView<A>,
    joiner: SyncView<A>,
    peers: Seq<A>,
)
    requires
        existing.state.phase is ExistingWaitingResume,
        joiner.state.phase is ClientWaitingResume,
        joiner == (SyncView { state: joiner.state, ..existing }),
        joiner.state == (crate::sync::SyncStateView {
            phase: Phase::ClientWaitingResume,
            ..existing.state
        }),
    ensures
        ({
            let at = crate::seqs::first_index(
                existing.inbox,
                crate::sync::has_tag(TAG_RESUME),
            );
            let (one, step_one) = crate::sync::stepped(existing, peers);
            let (two, step_two) = crate::sync::stepped(joiner, peers);
            &&& step_one == step_two
            &&& if at < existing.inbox.len() {
                let end = crate::sync::finished(one, SyncStep::Resume);
                &&& step_one == Some(SyncStep::<A>::Resume)
                &&& end == crate::sync::finished(two, SyncStep::Resume)
                &&& end.config == existing.inbox[at].1.skip(1)
                &&& end.state.phase is Idle
                &&& !end.paused
                &&& end.frame == 0
            } else {
                &&& step_one is None
                &&& one == crate::sync::drained(existing)
                &&& two == crate::sync::drained(joiner)
            }
        }),
{
}

/// The session config that the host ends up with is the one that each client
/// resumes with, byte for byte. `rebuilt` is the host once the game has rebuilt
/// its session, `message` one that it then sends, and `client` a waiting client
/// to which it is the first word to resume.
pub proof fn law_config_reaches_clients<A>(
    rebuilt: SyncView<A>,
    peer: A,
    message: Seq<u8>,
    client: SyncView<A>,
    host: A,
    peers: Seq<A>,
)
    requires
        rebuilt.connected.contains(peer),
        crate::sync::resume_notices(rebuilt.connected, rebuilt.config).contains((peer, message)),
        client.state.phase is ClientWaitingResume || client.state.phase is ExistingWaitingResume,
        first_of_kind(client.inbox, crate::sync::has_tag(TAG_RESUME), (host, message)),
    ensures
        ({
            let running = crate::sync::finished(rebuilt, SyncStep::HostRebuild);
            let (resuming, step) = crate::sync::stepped(client, peers);
            let joined = crate::sync::finished(resuming, SyncStep::Resume);
            &&& running.outbox.contains((peer, message))
            &&& step == Some(SyncStep::<A>::Resume)
            &&& joined.config == running.config
            &&& running.state.phase is Idle && joined.state.phase is Idle
            &&& running.frame == 0 && joined.frame == 0
            &&& !running.paused && !joined.paused
        }),
{
    let notices = crate::sync::resume_notices(rebuilt.connected, rebuilt.config);
    let running = crate::sync::finished(rebuilt, SyncStep::HostRebuild);
    let i = choose|i: int| 0 <= i < notices.len() && notices[i] == (peer, message);
    assert(message == crate::sync::tagged(TAG_RESUME, rebuilt.config));
    assert(running.outbox[rebuilt.outbox.len() + i] == (peer, message));
    law_message_keeps_payload(TAG_RESUME, rebuilt.config);
}

} // verus!
