//! Mid-session player sync for lockstep sessions.
//!
//! Handles adding new players to an existing session without restarting the
//! app. The socket always listens for connections. When a new peer is detected:
//!
//! 1. The host pauses, and existing clients pause on their own (lockstep waits
//!    for the host's inputs)
//! 2. The host notifies existing clients (`TAG_PAUSE`)
//! 3. The host serializes the world via [`SyncSerialize`] and sends it to the
//!    new client
//! 4. The new client deserializes it via [`SyncDeserialize`] and sends
//!    `TAG_READY`
//! 5. The host runs [`RebuildSession`] (the game creates a new session with
//!    the added player)
//! 6. The host sends `TAG_RESUME` with the session config to all clients
//! 7. All clients run [`RebuildSession`] and unpause
//!
//! The game runs the schedules. [`run_mid_session_sync`] says which one is
//! due, and [`finish_step`] goes on when it has been run.

use crate::seqs::position_where;
use crate::world::{GgrsPaused, RollbackFrameCount};
use std::collections::HashSet;
use std::hash::Hash;
use vstd::prelude::*;
use vstd::slice::{slice_subrange, slice_to_vec};

verus! {

broadcast use vstd::std_specs::hash::group_hash_axioms;

/// Host to existing clients: "new player joining, pause"
pub const TAG_PAUSE: u8 = 0x10;

/// Host to new client: "here's the world snapshot"
pub const TAG_SYNC_DATA: u8 = 0x11;

/// New client to host: "snapshot applied, ready to play"
pub const TAG_READY: u8 = 0x12;

/// Host to all clients: "rebuild session and resume"
pub const TAG_RESUME: u8 = 0x13;

/// Game systems: serialize world state into [`WorldSnapshot`].
#[derive(Clone, Copy, Debug, PartialEq, Eq, Hash)]
pub struct SyncSerialize;

/// Game systems: deserialize [`WorldSnapshot`] into the world.
#[derive(Clone, Copy, Debug, PartialEq, Eq, Hash)]
pub struct SyncDeserialize;

/// Game systems: rebuild the session using [`SessionConfigData`].
///
/// On the host: create a new session with the additional player, then write
/// the serialized session config to `SessionConfigData`, which is sent to all
/// clients.
///
/// On clients: read `SessionConfigData` and create a new session.
#[derive(Clone, Copy, Debug, PartialEq, Eq, Hash)]
pub struct RebuildSession;

/// Serialized world snapshot. Populated by the game's [`SyncSerialize`]
/// systems, consumed by the game's [`SyncDeserialize`] systems.
pub struct WorldSnapshot(pub Vec<u8>);

impl Default for WorldSnapshot {
    fn default() -> (snapshot: Self)
        ensures
            snapshot.0@ == Seq::<u8>::empty(),
    {
        WorldSnapshot(Vec::new())
    }
}

/// Serialized session config (handle map, player info, etc.).
///
/// On the host: populated by the game's [`RebuildSession`] systems.
/// On clients: populated from the payload of the resume message.
/// Consumed by the game's [`RebuildSession`] systems.
pub struct SessionConfigData(pub Vec<u8>);

impl Default for SessionConfigData {
    fn default() -> (config: Self)
        ensures
            config.0@ == Seq::<u8>::empty(),
    {
        SessionConfigData(Vec::new())
    }
}

/// Reliable message inbox. The game fills it from the socket before each step.
pub struct SyncInbox<A>(pub Vec<(A, Vec<u8>)>);

impl<A> Default for SyncInbox<A> {
    fn default() -> (inbox: Self)
        ensures
            inbox.0@ == Seq::<(A, Vec<u8>)>::empty(),
    {
        SyncInbox(Vec::new())
    }
}

/// Reliable message outbox. The game flushes it to the socket after each step.
pub struct SyncOutbox<A>(pub Vec<(A, Vec<u8>)>);

impl<A> Default for SyncOutbox<A> {
    fn default() -> (outbox: Self)
        ensures
            outbox.0@ == Seq::<(A, Vec<u8>)>::empty(),
    {
        SyncOutbox(Vec::new())
    }
}

/// Currently connected peer addresses. The game updates them before each step.
pub struct ConnectedPeers<A>(pub Vec<A>);

impl<A> Default for ConnectedPeers<A> {
    fn default() -> (connected: Self)
        ensures
            connected.0@ == Seq::<A>::empty(),
    {
        ConnectedPeers(Vec::new())
    }
}

/// Whether this peer is the session host (handle 0). The game sets this when
/// creating the initial session.
pub struct IsHost(pub bool);

impl Default for IsHost {
    fn default() -> (host: Self)
        ensures
            !host.0,
    {
        IsHost(false)
    }
}

/// How far a sync has come.
#[derive(Clone, Copy, PartialEq, Eq, Structural, Debug)]
pub enum Phase {
    /// No sync is under way.
    Idle,
    /// Host: sent snapshot, waiting for `TAG_READY` from new client.
    HostWaitingReady,
    /// Client: received snapshot, running `SyncDeserialize`.
    ClientDeserializing,
    /// Client: deserialized, sent `TAG_READY`, waiting for `TAG_RESUME`.
    ClientWaitingResume,
    /// Existing client: received `TAG_PAUSE`, waiting for `TAG_RESUME`.
    ExistingWaitingResume,
}

impl Default for Phase {
    fn default() -> (phase: Self)
        ensures
            phase == Phase::Idle,
    {
        Phase::Idle
    }
}

/// What a peer remembers of a sync from one step to the next.
pub struct GgrsSyncState<A> {
    phase: Phase,
    session_peers: HashSet<A>,
    new_peer: Option<A>,
    host_addr: Option<A>,
}

/// What a peer remembers of a sync.
#[verifier::ext_equal]
#[verifier::reject_recursive_types(A)]
pub struct SyncStateView<A> {
    /// How far the sync has come.
    pub phase: Phase,
    /// Peers currently in the session (not counting the new one being synced).
    pub session_peers: Set<A>,
    /// The new peer being synced (host only).
    pub new_peer: Option<A>,
    /// Host address (for clients to reply to).
    pub host_addr: Option<A>,
}

impl<A> View for GgrsSyncState<A> {
    type V = SyncStateView<A>;

    closed spec fn view(&self) -> SyncStateView<A> {
        SyncStateView {
            phase: self.phase,
            session_peers: self.session_peers@,
            new_peer: self.new_peer,
            host_addr: self.host_addr,
        }
    }
}

/// What a peer starts with: no sync, no peers.
pub open spec fn fresh_state<A>() -> SyncStateView<A> {
    SyncStateView {
        phase: Phase::Idle,
        session_peers: Set::empty(),
        new_peer: None,
        host_addr: None,
    }
}

impl<A: Eq + Hash + Clone> Default for GgrsSyncState<A> {
    fn default() -> (state: Self)
        ensures
            state@ == fresh_state::<A>(),
    {
        GgrsSyncState {
            phase: Phase::Idle,
            session_peers: HashSet::new(),
            new_peer: None,
            host_addr: None,
        }
    }
}

/// The part of a world that a sync step reads and writes.
pub struct SyncWorld<A> {
    /// What the peer remembers of a sync.
    pub state: GgrsSyncState<A>,
    /// The world snapshot that is sent or was received.
    pub snapshot: WorldSnapshot,
    /// The session config that is sent or was received.
    pub config: SessionConfigData,
    /// Messages that came in.
    pub inbox: SyncInbox<A>,
    /// Messages to go out.
    pub outbox: SyncOutbox<A>,
    /// The peers that are connected.
    pub connected: ConnectedPeers<A>,
    /// Whether this peer is the host.
    pub is_host: IsHost,
    /// Whether there is a session.
    pub has_session: bool,
    /// Whether the session is paused.
    pub paused: GgrsPaused,
    /// The frame that the simulation has reached.
    pub frame: RollbackFrameCount,
    /// Whether time that has piled up for the next frames is to be dropped.
    pub reset_timestep: bool,
}

/// The part of a world that a sync step reads and writes.
#[verifier::ext_equal]
#[verifier::reject_recursive_types(A)]
pub struct SyncView<A> {
    pub state: SyncStateView<A>,
    pub snapshot: Seq<u8>,
    pub config: Seq<u8>,
    pub inbox: Seq<(A, Seq<u8>)>,
    pub outbox: Seq<(A, Seq<u8>)>,
    pub connected: Seq<A>,
    pub is_host: bool,
    pub has_session: bool,
    pub paused: bool,
    pub frame: i32,
    pub reset_timestep: bool,
}

/// Messages with their bytes.
pub open spec fn message_views<A>(messages: Seq<(A, Vec<u8>)>) -> Seq<(A, Seq<u8>)> {
    messages.map_values(|message: (A, Vec<u8>)| (message.0, message.1@))
}

impl<A> View for SyncWorld<A> {
    type V = SyncView<A>;

    open spec fn view(&self) -> SyncView<A> {
        SyncView {
            state: self.state@,
            snapshot: self.snapshot.0@,
            config: self.config.0@,
            inbox: message_views(self.inbox.0@),
            outbox: message_views(self.outbox.0@),
            connected: self.connected.0@,
            is_host: self.is_host.0,
            has_session: self.has_session,
            paused: self.paused.0,
            frame: self.frame.0,
            reset_timestep: self.reset_timestep,
        }
    }
}

/// Addresses can be told apart by `==` and by hashing, and a clone of an
/// address is that address.
pub open spec fn plain_addresses<A: Eq + Hash + Clone>() -> bool {
    &&& vstd::std_specs::hash::obeys_key_model::<A>()
    &&& vstd::laws_eq::obeys_concrete_eq::<A>()
    &&& forall|a: A, b: A| #[trigger] cloned(a, b) ==> a == b
}

/// What the game has to run before a step can go on.
pub enum SyncStep<A> {
    /// Run [`SyncSerialize`]; the world is for this peer.
    Serialize(A),
    /// Run [`RebuildSession`] on the host.
    HostRebuild,
    /// Run [`SyncDeserialize`].
    Deserialize,
    /// Run [`RebuildSession`] on a client.
    Resume,
}

/// A message that begins with a tag.
pub open spec fn tagged(tag: u8, payload: Seq<u8>) -> Seq<u8> {
    seq![tag] + payload
}

/// The test for messages with a tag.
pub open spec fn has_tag<A>(tag: u8) -> spec_fn((A, Seq<u8>)) -> bool {
    |message: (A, Seq<u8>)| message.1.len() > 0 && message.1[0] == tag
}

/// The test for messages that an existing client heeds.
pub open spec fn for_client<A>() -> spec_fn((A, Seq<u8>)) -> bool {
    |message: (A, Seq<u8>)|
        message.1.len() > 0 && (message.1[0] == TAG_PAUSE || message.1[0] == TAG_RESUME)
}

/// The test for the word of a peer that it is ready.
pub open spec fn ready_from<A>(peer: Option<A>) -> spec_fn((A, Seq<u8>)) -> bool {
    |message: (A, Seq<u8>)|
        message.1.len() > 0 && message.1[0] == TAG_READY && Some(message.0) == peer
}

/// The peers in the session. A host that knows of none takes those that are
/// connected for them.
pub open spec fn known_peers<A>(world: SyncView<A>) -> Set<A> {
    if world.state.session_peers.is_empty() {
        world.connected.to_set()
    } else {
        world.state.session_peers
    }
}

/// The test for peers that are not in the session.
pub open spec fn not_in<A>(peers: Set<A>) -> spec_fn(A) -> bool {
    |peer: A| !peers.contains(peer)
}

/// The first connected peer that is not in the session.
pub open spec fn newcomer<A>(world: SyncView<A>) -> Option<A> {
    let at = crate::seqs::first_index(world.connected, not_in(known_peers(world)));
    if at < world.connected.len() {
        Some(world.connected[at])
    } else {
        None
    }
}

/// A pause message to each peer.
pub open spec fn pause_notices<A>(peers: Seq<A>) -> Seq<(A, Seq<u8>)> {
    peers.map_values(|peer: A| (peer, seq![TAG_PAUSE]))
}

/// `peers` lists a set: each member once, in whatever order.
pub open spec fn lists<A>(peers: Seq<A>, members: Set<A>) -> bool {
    peers.no_duplicates() && peers.to_set() == members
}

/// `peers` is an order in which an idle host tells the peers in the session to
/// pause. Where nobody has to be told, it can be anything.
pub open spec fn tells<A>(world: SyncView<A>, peers: Seq<A>) -> bool {
    world.state.phase is Idle && world.has_session && world.is_host && newcomer(world) is Some
        ==> lists(peers, known_peers(world))
}

/// The world with its inbox emptied.
pub open spec fn drained<A>(world: SyncView<A>) -> SyncView<A> {
    SyncView { inbox: Seq::empty(), ..world }
}

/// An idle host: where a new peer is connected, it pauses, tells the peers in
/// the session, listed as `peers`, and has the world serialized.
pub open spec fn host_idle<A>(
    world: SyncView<A>,
    peers: Seq<A>,
) -> (SyncView<A>, Option<SyncStep<A>>) {
    let known = SyncView {
        state: SyncStateView { session_peers: known_peers(world), ..world.state },
        ..drained(world)
    };
    match newcomer(world) {
        Some(peer) => (
            SyncView {
                paused: true,
                reset_timestep: true,
                outbox: world.outbox + pause_notices(peers),
                ..known
            },
            Some(SyncStep::Serialize(peer)),
        ),
        None => (known, None),
    }
}

/// An idle client in a session: it heeds the first message to pause or to
/// resume.
pub open spec fn client_idle<A>(world: SyncView<A>) -> (SyncView<A>, Option<SyncStep<A>>) {
    let at = crate::seqs::first_index(world.inbox, for_client());
    if at < world.inbox.len() {
        let (peer, message) = world.inbox[at];
        if message[0] == TAG_PAUSE {
            (
                SyncView {
                    paused: true,
                    reset_timestep: true,
                    state: SyncStateView {
                        phase: Phase::ExistingWaitingResume,
                        host_addr: Some(peer),
                        ..world.state
                    },
                    ..drained(world)
                },
                None,
            )
        } else {
            (
                SyncView { config: message.skip(1), ..drained(world) },
                Some(SyncStep::Resume),
            )
        }
    } else {
        (drained(world), None)
    }
}

/// An idle peer without a session: it takes the first snapshot that comes.
pub open spec fn joiner_idle<A>(world: SyncView<A>) -> (SyncView<A>, Option<SyncStep<A>>) {
    let at = crate::seqs::first_index(world.inbox, has_tag(TAG_SYNC_DATA));
    if at < world.inbox.len() {
        let (peer, message) = world.inbox[at];
        (
            SyncView {
                snapshot: message.skip(1),
                paused: true,
                state: SyncStateView {
                    phase: Phase::ClientDeserializing,
                    host_addr: Some(peer),
                    ..world.state
                },
                ..drained(world)
            },
            None,
        )
    } else {
        (drained(world), None)
    }
}

/// A host that waits for the new client: it rebuilds the session when the
/// client says that it is ready.
pub open spec fn host_waiting<A>(world: SyncView<A>) -> (SyncView<A>, Option<SyncStep<A>>) {
    let at = crate::seqs::first_index(world.inbox, ready_from(world.state.new_peer));
    if at < world.inbox.len() {
        (drained(world), Some(SyncStep::HostRebuild))
    } else {
        (drained(world), None)
    }
}

/// A client that waits to resume: it takes the config of the first message
/// that says so.
pub open spec fn client_waiting<A>(world: SyncView<A>) -> (SyncView<A>, Option<SyncStep<A>>) {
    let at = crate::seqs::first_index(world.inbox, has_tag(TAG_RESUME));
    if at < world.inbox.len() {
        (
            SyncView { config: world.inbox[at].1.skip(1), ..drained(world) },
            Some(SyncStep::Resume),
        )
    } else {
        (drained(world), None)
    }
}

/// What a step makes of a world, and what the game has to run next. `peers`
/// is the order in which the peers in the session are told to pause.
pub open spec fn stepped<A>(
    world: SyncView<A>,
    peers: Seq<A>,
) -> (SyncView<A>, Option<SyncStep<A>>) {
    match world.state.phase {
        Phase::Idle => if world.has_session && world.is_host {
            host_idle(world, peers)
        } else if world.has_session {
            client_idle(world)
        } else {
            joiner_idle(world)
        },
        Phase::HostWaitingReady => host_waiting(world),
        Phase::ClientDeserializing => (world, Some(SyncStep::Deserialize)),
        Phase::ClientWaitingResume => client_waiting(world),
        Phase::ExistingWaitingResume => client_waiting(world),
    }
}

/// A resume message to each peer.
pub open spec fn resume_notices<A>(peers: Seq<A>, config: Seq<u8>) -> Seq<(A, Seq<u8>)> {
    peers.map_values(|peer: A| (peer, tagged(TAG_RESUME, config)))
}

/// The world with the session running again, from frame zero, with `peers` in
/// it.
pub open spec fn resumed<A>(world: SyncView<A>, peers: Set<A>) -> SyncView<A> {
    SyncView {
        frame: 0,
        reset_timestep: true,
        paused: false,
        state: SyncStateView { session_peers: peers, phase: Phase::Idle, ..world.state },
        ..world
    }
}

/// The peers in a session once it was rebuilt: those who were in it and the
/// new one, as far as they are still connected.
pub open spec fn rebuilt_peers<A>(world: SyncView<A>) -> Set<A> {
    let members = match world.state.new_peer {
        Some(peer) => world.state.session_peers.insert(peer),
        None => world.state.session_peers,
    };
    members.intersect(world.connected.to_set())
}

/// What the end of a step makes of a world in which the game has run what was
/// asked for.
pub open spec fn finished<A>(world: SyncView<A>, step: SyncStep<A>) -> SyncView<A> {
    match step {
        SyncStep::Serialize(peer) => SyncView {
            outbox: world.outbox.push((peer, tagged(TAG_SYNC_DATA, world.snapshot))),
            state: SyncStateView {
                phase: Phase::HostWaitingReady,
                new_peer: Some(peer),
                ..world.state
            },
            ..world
        },
        SyncStep::HostRebuild => {
            let running = resumed(world, rebuilt_peers(world));
            SyncView {
                outbox: world.outbox + resume_notices(world.connected, world.config),
                state: SyncStateView { new_peer: None, ..running.state },
                ..running
            }
        },
        SyncStep::Deserialize => SyncView {
            outbox: match world.state.host_addr {
                Some(host) => world.outbox.push((host, seq![TAG_READY])),
                None => world.outbox,
            },
            state: SyncStateView { phase: Phase::ClientWaitingResume, ..world.state },
            ..world
        },
        SyncStep::Resume => resumed(world, world.connected.to_set()),
    }
}

/// The payload of a message: what follows the tag.
fn payload(message: &Vec<u8>) -> (bytes: Vec<u8>)
    requires
        message@.len() > 0,
    ensures
        bytes@ == message@.skip(1),
{
    let bytes: Vec<u8> = slice_to_vec(slice_subrange(message.as_slice(), 1, message.len()));
    assert(bytes@ =~= message@.skip(1));
    bytes
}

/// Whether a message begins with a tag.
fn begins_with(message: &Vec<u8>, tag: u8) -> (yes: bool)
    ensures
        yes == (message@.len() > 0 && message@[0] == tag),
{
    message.len() > 0 && message[0] == tag
}

/// Where the first message that meets `test` stands; the length where none
/// does.
fn message_where<A, F: Fn(&(A, Vec<u8>)) -> bool>(
    messages: &Vec<(A, Vec<u8>)>,
    test: &F,
    Ghost(ask): Ghost<spec_fn((A, Seq<u8>)) -> bool>,
) -> (at: usize)
    requires
        forall|message: &(A, Vec<u8>)| #[trigger] test.requires((message,)),
        forall|message: &(A, Vec<u8>), met: bool| #[trigger]
            test.ensures((message,), met) ==> met == ask((message.0, message.1@)),
    ensures
        at == crate::seqs::first_index(message_views(messages@), ask),
        at <= messages.len(),
{
    let ghost image = |message: (A, Vec<u8>)| (message.0, message.1@);
    proof {
        crate::seqs::lemma_first_index_of_images(messages@, image, ask);
    }
    position_where(messages, test, Ghost(|message: (A, Vec<u8>)| ask(image(message))))
}

/// Where the first message with a tag stands; the length where there is none.
fn tagged_message<A>(messages: &Vec<(A, Vec<u8>)>, tag: u8) -> (at: usize)
    ensures
        at == crate::seqs::first_index(message_views(messages@), has_tag::<A>(tag)),
        at <= messages.len(),
        at < messages.len() ==> messages@[at as int].1@.len() > 0,
{
    let test = |message: &(A, Vec<u8>)| -> (met: bool)
        ensures
            met == has_tag::<A>(tag)((message.0, message.1@)),
        { begins_with(&message.1, tag) };
    proof {
        crate::seqs::lemma_first_index(message_views(messages@), has_tag::<A>(tag));
    }
    message_where(messages, &test, Ghost(has_tag::<A>(tag)))
}

/// A message made of a tag and a payload.
fn tag_message(tag: u8, payload: &Vec<u8>) -> (message: Vec<u8>)
    ensures
        message@ == tagged(tag, payload@),
{
    let mut message: Vec<u8> = Vec::new();
    message.push(tag);
    message.extend_from_slice(payload.as_slice());
    assert(message@ =~= tagged(tag, payload@));
    message
}

/// A message that is a tag and nothing else.
fn bare_message(tag: u8) -> (message: Vec<u8>)
    ensures
        message@ == seq![tag],
{
    let mut message: Vec<u8> = Vec::new();
    message.push(tag);
    assert(message@ =~= seq![tag]);
    message
}

/// The address once more.
fn copy_address<A: Eq + Hash + Clone>(address: &A) -> (copy: A)
    requires
        plain_addresses::<A>(),
    ensures
        copy == *address,
{
    let copy: A = address.clone();
    assert(cloned(*address, copy));
    copy
}

/// The set of the peers in a list.
fn peer_set<A: Eq + Hash + Clone>(peers: &Vec<A>) -> (set: HashSet<A>)
    requires
        plain_addresses::<A>(),
    ensures
        set@ == peers@.to_set(),
{
    let mut set: HashSet<A> = HashSet::new();
    let mut i: usize = 0;
    assert(set@ =~= peers@.take(0).to_set());
    while i < peers.len()
        invariant
            i <= peers.len(),
            plain_addresses::<A>(),
            set@ == peers@.take(i as int).to_set(),
        decreases peers.len() - i,
    {
        let ghost before = peers@.take(i as int);
        let peer: A = copy_address(&peers[i]);
        set.insert(peer);
        i = i + 1;
        proof {
            let now = peers@.take(i as int);
            assert(now =~= before.push(peer));
            assert forall|a: A| #[trigger]
                now.to_set().contains(a) == before.to_set().insert(peer).contains(a) by {
                if before.contains(a) {
                    let j = choose|j: int| 0 <= j < before.len() && before[j] == a;
                    assert(now[j] == a);
                }
                if a == peer {
                    assert(now[i - 1] == a);
                }
                if now.contains(a) && a != peer {
                    let j = choose|j: int| 0 <= j < now.len() && now[j] == a;
                    assert(before[j] == a);
                }
            }
            assert(now.to_set() =~= before.to_set().insert(peer));
        }
    }
    assert(peers@.take(i as int) =~= peers@);
    set
}

impl<A> SyncOutbox<A> {
    /// Adds a message.
    fn send(&mut self, to: A, message: Vec<u8>)
        ensures
            message_views(final(self).0@) == message_views(old(self).0@).push((to, message@)),
    {
        self.0.push((to, message));
        assert(message_views(self.0@) =~= message_views(old(self).0@).push((to, message@)));
    }
}

/// Tells each peer to pause.
fn notify_pause<A: Eq + Hash + Clone>(peers: &HashSet<A>, outbox: &mut SyncOutbox<A>)
    requires
        plain_addresses::<A>(),
    ensures
        exists|order: Seq<A>| #[trigger]
            lists(order, peers@) && message_views(final(outbox).0@) == message_views(
                old(outbox).0@,
            ) + pause_notices(order),
{
    let ghost sent = message_views(outbox.0@);
    let ghost walk = vstd::std_specs::iter::IteratorSpec::remaining(&peers.iter());
    let ghost order = walk.unref();
    assert(message_views(outbox.0@) =~= sent + pause_notices(order.take(0)));
    for peer in iter: peers.iter()
        invariant
            plain_addresses::<A>(),
            iter.seq() == walk,
            order == walk.unref(),
            message_views(outbox.0@) == sent + pause_notices(order.take(iter.index())),
    {
        let ghost done = order.take(iter.index());
        outbox.send(copy_address(peer), bare_message(TAG_PAUSE));
        proof {
            let now = order.take(iter.index() + 1);
            assert(now =~= done.push(*peer));
            assert(pause_notices(now) =~= pause_notices(done).push((*peer, seq![TAG_PAUSE])));
            assert(message_views(outbox.0@) =~= sent + pause_notices(now));
        }
    }
    assert(order.take(order.len() as int) =~= order);
    assert(lists(order, peers@));
}

impl<A: Eq + Hash + Clone> SyncWorld<A> {
    /// The part of a world that a sync step works on. A resource that is
    /// missing is put in place with its default.
    pub fn from_resources(
        state: Option<GgrsSyncState<A>>,
        snapshot: Option<WorldSnapshot>,
        config: Option<SessionConfigData>,
        inbox: Option<SyncInbox<A>>,
        outbox: Option<SyncOutbox<A>>,
        connected: Option<ConnectedPeers<A>>,
        is_host: Option<IsHost>,
        has_session: bool,
        paused: GgrsPaused,
        frame: RollbackFrameCount,
    ) -> (world: Self)
        ensures
            world@ == (SyncView::<A> {
                state: match state {
                    Some(state) => state@,
                    None => fresh_state(),
                },
                snapshot: match snapshot {
                    Some(snapshot) => snapshot.0@,
                    None => Seq::empty(),
                },
                config: match config {
                    Some(config) => config.0@,
                    None => Seq::empty(),
                },
                inbox: match inbox {
                    Some(inbox) => message_views(inbox.0@),
                    None => Seq::empty(),
                },
                outbox: match outbox {
                    Some(outbox) => message_views(outbox.0@),
                    None => Seq::empty(),
                },
                connected: match connected {
                    Some(connected) => connected.0@,
                    None => Seq::empty(),
                },
                is_host: match is_host {
                    Some(is_host) => is_host.0,
                    None => false,
                },
                has_session,
                paused: paused.0,
                frame: frame.0,
                reset_timestep: false,
            }),
    {
        let state = match state {
            Some(state) => state,
            None => GgrsSyncState::default(),
        };
        let snapshot = match snapshot {
            Some(snapshot) => snapshot,
            None => WorldSnapshot::default(),
        };
        let config = match config {
            Some(config) => config,
            None => SessionConfigData::default(),
        };
        let inbox = match inbox {
            Some(inbox) => inbox,
            None => SyncInbox::default(),
        };
        let outbox = match outbox {
            Some(outbox) => outbox,
            None => SyncOutbox::default(),
        };
        let connected = match connected {
            Some(connected) => connected,
            None => ConnectedPeers::default(),
        };
        let is_host = match is_host {
            Some(is_host) => is_host,
            None => IsHost::default(),
        };
        assert(message_views(Seq::<(A, Vec<u8>)>::empty()) =~= Seq::empty());
        SyncWorld {
            state,
            snapshot,
            config,
            inbox,
            outbox,
            connected,
            is_host,
            has_session,
            paused,
            frame,
            reset_timestep: false,
        }
    }

    /// Takes all messages that came in.
    fn drain_inbox(&mut self) -> (messages: Vec<(A, Vec<u8>)>)
        ensures
            final(self)@ == drained(old(self)@),
            message_views(messages@) == old(self)@.inbox,
    {
        let mut messages: Vec<(A, Vec<u8>)> = Vec::new();
        std::mem::swap(&mut messages, &mut self.inbox.0);
        assert(message_views(self.inbox.0@) =~= Seq::empty());
        messages
    }

    /// An idle host: looks for a new peer, and where there is one, pauses and
    /// tells the others.
    fn watch_for_new_peer(&mut self) -> (step: Option<SyncStep<A>>)
        requires
            plain_addresses::<A>(),
            old(self)@.state.phase is Idle,
            old(self)@.has_session,
            old(self)@.is_host,
        ensures
            exists|peers: Seq<A>| #[trigger]
                tells(old(self)@, peers) && (final(self)@, step) == host_idle(old(self)@, peers),
    {
        let ghost start = self@;
        let _ = self.drain_inbox();
        if self.state.session_peers.is_empty() && self.connected.0.len() > 0 {
            self.state.session_peers = peer_set(&self.connected.0);
        }
        let ghost known = known_peers(start);
        assert(self.state@.session_peers =~= known) by {
            if start.state.session_peers.is_empty() && start.connected.len() == 0 {
                assert(start.connected.to_set() =~= Set::empty());
            }
        }
        let peers: &HashSet<A> = &self.state.session_peers;
        let test = |peer: &A| -> (met: bool)
            requires
                plain_addresses::<A>(),
            ensures
                met == !peers@.contains(*peer),
            { !peers.contains(peer) };
        let i: usize = position_where(&self.connected.0, &test, Ghost(not_in(known)));
        if i == self.connected.0.len() {
            assert(tells(start, Seq::empty()));
            return None;
        }
        let new_peer: A = copy_address(&self.connected.0[i]);
        self.paused = GgrsPaused(true);
        self.reset_timestep = true;
        notify_pause(&self.state.session_peers, &mut self.outbox);
        proof {
            let peers = choose|order: Seq<A>| #[trigger]
                lists(order, known) && self@.outbox == start.outbox + pause_notices(order);
            assert(tells(start, peers));
        }
        Some(SyncStep::Serialize(new_peer))
    }

    /// An idle client in a session: heeds the first message to pause or to
    /// resume.
    fn heed_host(&mut self) -> (step: Option<SyncStep<A>>)
        requires
            plain_addresses::<A>(),
        ensures
            (final(self)@, step) == client_idle(old(self)@),
    {
        let inbox: Vec<(A, Vec<u8>)> = self.drain_inbox();
        let test = |message: &(A, Vec<u8>)| -> (met: bool)
            ensures
                met == for_client::<A>()((message.0, message.1@)),
            { begins_with(&message.1, TAG_PAUSE) || begins_with(&message.1, TAG_RESUME) };
        let at: usize = message_where(&inbox, &test, Ghost(for_client::<A>()));
        if at == inbox.len() {
            return None;
        }
        let message: &Vec<u8> = &inbox[at].1;
        assert(message_views(inbox@)[at as int] == (inbox@[at as int].0, message@));
        proof {
            crate::seqs::lemma_first_index(message_views(inbox@), for_client::<A>());
        }
        if begins_with(message, TAG_PAUSE) {
            self.paused = GgrsPaused(true);
            self.reset_timestep = true;
            self.state.phase = Phase::ExistingWaitingResume;
            self.state.host_addr = Some(copy_address(&inbox[at].0));
            None
        } else {
            self.apply_resume(message);
            Some(SyncStep::Resume)
        }
    }

    /// An idle peer without a session: takes the first snapshot that comes.
    fn await_snapshot(&mut self)
        requires
            plain_addresses::<A>(),
        ensures
            (final(self)@, None::<SyncStep<A>>) == joiner_idle(old(self)@),
    {
        let inbox: Vec<(A, Vec<u8>)> = self.drain_inbox();
        let at: usize = tagged_message(&inbox, TAG_SYNC_DATA);
        if at < inbox.len() {
            let message: &Vec<u8> = &inbox[at].1;
            assert(message_views(inbox@)[at as int] == (inbox@[at as int].0, message@));
            self.snapshot = WorldSnapshot(payload(message));
            self.paused = GgrsPaused(true);
            self.state.host_addr = Some(copy_address(&inbox[at].0));
            self.state.phase = Phase::ClientDeserializing;
        }
    }

    /// A peer with no sync under way.
    fn handle_idle(&mut self) -> (step: Option<SyncStep<A>>)
        requires
            plain_addresses::<A>(),
            old(self)@.state.phase is Idle,
        ensures
            exists|peers: Seq<A>| #[trigger]
                tells(old(self)@, peers) && (final(self)@, step) == stepped(old(self)@, peers),
    {
        if self.has_session && self.is_host.0 {
            self.watch_for_new_peer()
        } else {
            assert(tells(self@, Seq::empty()));
            if self.has_session {
                self.heed_host()
            } else {
                self.await_snapshot();
                None
            }
        }
    }

    /// The host, once it sent the snapshot.
    fn handle_host_waiting(&mut self) -> (step: Option<SyncStep<A>>)
        requires
            plain_addresses::<A>(),
        ensures
            (final(self)@, step) == host_waiting(old(self)@),
    {
        let inbox: Vec<(A, Vec<u8>)> = self.drain_inbox();
        let new_peer: &Option<A> = &self.state.new_peer;
        let test = |message: &(A, Vec<u8>)| -> (met: bool)
            requires
                plain_addresses::<A>(),
            ensures
                met == ready_from(*new_peer)((message.0, message.1@)),
            {
                begins_with(&message.1, TAG_READY) && (match new_peer {
                    Some(expected) => same_address(&message.0, expected),
                    None => false,
                })
            };
        let at: usize = message_where(&inbox, &test, Ghost(ready_from(*new_peer)));
        if at < inbox.len() {
            Some(SyncStep::HostRebuild)
        } else {
            None
        }
    }

    /// The new client, once it received the snapshot. The inbox is left for
    /// the next step.
    fn handle_client_deserializing(&self) -> (step: Option<SyncStep<A>>)
        ensures
            step == Some(SyncStep::<A>::Deserialize),
    {
        Some(SyncStep::Deserialize)
    }

    /// A client that waits to resume.
    fn await_resume(&mut self) -> (step: Option<SyncStep<A>>)
        ensures
            (final(self)@, step) == client_waiting(old(self)@),
    {
        let inbox: Vec<(A, Vec<u8>)> = self.drain_inbox();
        let at: usize = tagged_message(&inbox, TAG_RESUME);
        if at < inbox.len() {
            let message: &Vec<u8> = &inbox[at].1;
            assert(message_views(inbox@)[at as int] == (inbox@[at as int].0, message@));
            self.apply_resume(message);
            Some(SyncStep::Resume)
        } else {
            None
        }
    }

    /// The new client, once it said that it is ready.
    fn handle_client_waiting_resume(&mut self) -> (step: Option<SyncStep<A>>)
        ensures
            (final(self)@, step) == client_waiting(old(self)@),
    {
        self.await_resume()
    }

    /// An existing client, once it was told to pause.
    fn handle_existing_waiting(&mut self) -> (step: Option<SyncStep<A>>)
        ensures
            (final(self)@, step) == client_waiting(old(self)@),
    {
        self.await_resume()
    }

    /// Stores the config of a resume message.
    fn apply_resume(&mut self, message: &Vec<u8>)
        requires
            message@.len() > 0,
        ensures
            final(self)@ == (SyncView { config: message@.skip(1), ..old(self)@ }),
    {
        self.config = SessionConfigData(payload(message));
    }

    /// Lets the session run again, from frame zero, with `peers` in it.
    fn unpause(&mut self, peers: HashSet<A>)
        ensures
            final(self)@ == resumed(old(self)@, peers@),
    {
        self.frame = RollbackFrameCount(0);
        self.reset_timestep = true;
        self.paused = GgrsPaused(false);
        self.state.session_peers = peers;
        self.state.phase = Phase::Idle;
    }

    /// Whether a peer is in the session once it was rebuilt, as far as it is
    /// connected.
    fn is_member(&self, peer: &A) -> (member: bool)
        requires
            plain_addresses::<A>(),
        ensures
            member == (self@.state.session_peers.contains(*peer) || self@.state.new_peer == Some(
                *peer,
            )),
    {
        if self.state.session_peers.contains(peer) {
            return true;
        }
        match &self.state.new_peer {
            Some(new_peer) => same_address(peer, new_peer),
            None => false,
        }
    }

    /// The peers in the session once it was rebuilt.
    fn members(&self) -> (peers: HashSet<A>)
        requires
            plain_addresses::<A>(),
        ensures
            peers@ == rebuilt_peers(self@),
    {
        let ghost is_in = |peer: A|
            self@.state.session_peers.contains(peer) || self@.state.new_peer == Some(peer);
        let mut peers: HashSet<A> = HashSet::new();
        let mut i: usize = 0;
        while i < self.connected.0.len()
            invariant
                i <= self.connected.0.len(),
                plain_addresses::<A>(),
                is_in == (|peer: A|
                    self@.state.session_peers.contains(peer) || self@.state.new_peer == Some(peer)),
                forall|peer: A| #[trigger]
                    peers@.contains(peer) <==> is_in(peer) && self@.connected.take(
                        i as int,
                    ).contains(peer),
            decreases self.connected.0.len() - i,
        {
            let ghost before = peers@;
            let ghost seen = self@.connected.take(i as int);
            let ghost here = self@.connected[i as int];
            if self.is_member(&self.connected.0[i]) {
                peers.insert(copy_address(&self.connected.0[i]));
            }
            i = i + 1;
            proof {
                let now = self@.connected.take(i as int);
                assert(now =~= seen.push(here));
                assert forall|peer: A| #[trigger]
                    peers@.contains(peer) <==> is_in(peer) && now.contains(peer) by {
                    assert(before.contains(peer) <==> is_in(peer) && seen.contains(peer));
                    if seen.contains(peer) {
                        let j = choose|j: int| 0 <= j < seen.len() && seen[j] == peer;
                        assert(now[j] == peer);
                    }
                    assert(now[i - 1] == here);
                    if now.contains(peer) && peer != here {
                        let j = choose|j: int| 0 <= j < now.len() && now[j] == peer;
                        assert(seen[j] == peer);
                    }
                }
            }
        }
        proof {
            assert(self@.connected.take(i as int) =~= self@.connected);
            assert(peers@ =~= rebuilt_peers(self@));
        }
        peers
    }

    /// Sends the session config to everyone who is connected.
    fn send_resume(&mut self)
        requires
            plain_addresses::<A>(),
        ensures
            final(self)@ == (SyncView {
                outbox: old(self)@.outbox + resume_notices(old(self)@.connected, old(self)@.config),
                ..old(self)@
            }),
    {
        let ghost start = self@;
        let mut i: usize = 0;
        assert(self@.outbox =~= start.outbox + resume_notices(
            start.connected.take(0),
            start.config,
        ));
        while i < self.connected.0.len()
            invariant
                i <= self.connected.0.len(),
                plain_addresses::<A>(),
                self@ == (SyncView {
                    outbox: start.outbox + resume_notices(
                        start.connected.take(i as int),
                        start.config,
                    ),
                    ..start
                }),
            decreases self.connected.0.len() - i,
        {
            let ghost done = start.connected.take(i as int);
            let peer: A = copy_address(&self.connected.0[i]);
            let message: Vec<u8> = tag_message(TAG_RESUME, &self.config.0);
            self.outbox.send(peer, message);
            i = i + 1;
            proof {
                let now = start.connected.take(i as int);
                assert(now =~= done.push(peer));
                assert(resume_notices(now, start.config) =~= resume_notices(
                    done,
                    start.config,
                ).push((peer, tagged(TAG_RESUME, start.config))));
                assert(self@.outbox =~= start.outbox + resume_notices(now, start.config));
            }
        }
        assert(start.connected.take(i as int) =~= start.connected);
    }
}

/// Whether two addresses are the same.
fn same_address<A: Eq + Hash + Clone>(a: &A, b: &A) -> (same: bool)
    requires
        plain_addresses::<A>(),
    ensures
        same == (*a == *b),
{
    proof {
        reveal(vstd::laws_eq::obeys_concrete_eq);
    }
    *a == *b
}

/// Takes the next step of a sync. What it hands back says which schedule the
/// game has to run before [`finish_step`] can go on; where it hands back
/// nothing, the step is over.
pub fn run_mid_session_sync<A: Eq + Hash + Clone>(world: &mut SyncWorld<A>) -> (step: Option<
    SyncStep<A>,
>)
    requires
        plain_addresses::<A>(),
    ensures
        exists|peers: Seq<A>| #[trigger]
            tells(old(world)@, peers) && (final(world)@, step) == stepped(old(world)@, peers),
{
    match world.state.phase {
        Phase::Idle => world.handle_idle(),
        Phase::HostWaitingReady => {
            assert(tells(world@, Seq::empty()));
            world.handle_host_waiting()
        },
        Phase::ClientDeserializing => {
            assert(tells(world@, Seq::empty()));
            world.handle_client_deserializing()
        },
        Phase::ClientWaitingResume => {
            assert(tells(world@, Seq::empty()));
            world.handle_client_waiting_resume()
        },
        Phase::ExistingWaitingResume => {
            assert(tells(world@, Seq::empty()));
            world.handle_existing_waiting()
        },
    }
}

/// Goes on with a step once the game has run the schedule that was due.
pub fn finish_step<A: Eq + Hash + Clone>(world: &mut SyncWorld<A>, step: SyncStep<A>)
    requires
        plain_addresses::<A>(),
    ensures
        final(world)@ == finished(old(world)@, step),
{
    match step {
        SyncStep::Serialize(new_peer) => {
            let message: Vec<u8> = tag_message(TAG_SYNC_DATA, &world.snapshot.0);
            world.outbox.send(copy_address(&new_peer), message);
            world.state.phase = Phase::HostWaitingReady;
            world.state.new_peer = Some(new_peer);
        },
        SyncStep::HostRebuild => {
            world.send_resume();
            let peers: HashSet<A> = world.members();
            world.unpause(peers);
            world.state.new_peer = None;
        },
        SyncStep::Deserialize => {
            let host: Option<A> = match &world.state.host_addr {
                Some(host) => Some(copy_address(host)),
                None => None,
            };
            if let Some(host) = host {
                world.outbox.send(host, bare_message(TAG_READY));
            }
            world.state.phase = Phase::ClientWaitingResume;
        },
        SyncStep::Resume => {
            let peers: HashSet<A> = peer_set(&world.connected.0);
            world.unpause(peers);
        },
    }
}

/// What contracts say of a peer's memory, they say of what is in its fields.
proof fn law_memory_is_its_fields<A>(state: GgrsSyncState<A>)
    ensures
        state@.phase == state.phase,
        state@.session_peers == state.session_peers@,
        state@.new_peer == state.new_peer,
        state@.host_addr == state.host_addr,
{
}

} // verus!
