//! Data model of the estimation tool: players, rooms, the session registry,
//! inbound event payloads, and the outbound emissions a transition produces.
//!
//! Each executable type has a mathematical view (`...V`) over `Seq` and plain
//! values; every contract in this crate is stated over those views.

use vstd::prelude::*;

verus! {

/// A participant in a room.
#[derive(Debug, Clone)]
pub struct Player {
    /// Whether the player has cast a vote in the current round.
    pub has_voted: bool,
    /// Connection identifier, unique per live connection.
    pub id: String,
    /// Display name, user supplied and unvalidated.
    pub name: String,
    /// The player's vote, absent until cast; casting replaces it.
    pub vote: Option<u8>,
    /// A spectator never casts a vote and does not count toward the
    /// all-voted check.
    pub is_spectator: bool,
}

/// Mathematical view of a [`Player`].
#[verifier::ext_equal]
pub ghost struct PlayerV {
    pub has_voted: bool,
    pub id: Seq<char>,
    pub name: Seq<char>,
    pub vote: Option<u8>,
    pub is_spectator: bool,
}

impl View for Player {
    type V = PlayerV;

    open spec fn view(&self) -> PlayerV {
        PlayerV {
            has_voted: self.has_voted,
            id: self.id@,
            name: self.name@,
            vote: self.vote,
            is_spectator: self.is_spectator,
        }
    }
}

/// A voting session: a set of players keyed by connection id, one of whom
/// is host. `cards_revealed` distinguishes the *Voting* state (`false`)
/// from the *Revealed* state (`true`).
#[derive(Debug, Clone)]
pub struct Room {
    /// Whether the cast votes are currently exposed to the room.
    pub cards_revealed: bool,
    /// Connection id of the host; always the id of a present player.
    pub host_id: String,
    /// The room's 128-bit identifier.
    pub id: u128,
    /// The players, in join order; ids are unique. Join order matters only
    /// as the deterministic tie-break of host election.
    pub players: Vec<Player>,
}

/// Mathematical view of a [`Room`].
#[verifier::ext_equal]
pub ghost struct RoomV {
    pub cards_revealed: bool,
    pub host_id: Seq<char>,
    pub id: u128,
    pub players: Seq<PlayerV>,
}

impl View for Room {
    type V = RoomV;

    open spec fn view(&self) -> RoomV {
        RoomV {
            cards_revealed: self.cards_revealed,
            host_id: self.host_id@,
            id: self.id,
            players: self.players@.map_values(|p: Player| p@),
        }
    }
}

/// The session registry: the single source of truth mapping room ids to
/// rooms. The caller is expected to guard it with one exclusive lock and
/// apply one transition per lock scope.
#[derive(Debug)]
pub struct Registry {
    /// The live rooms; room ids are unique, and no room is empty.
    pub rooms: Vec<Room>,
}

/// Mathematical view of the [`Registry`].
#[verifier::ext_equal]
pub ghost struct RegistryV {
    pub rooms: Seq<RoomV>,
}

impl View for Registry {
    type V = RegistryV;

    open spec fn view(&self) -> RegistryV {
        RegistryV { rooms: self.rooms@.map_values(|r: Room| r@) }
    }
}

impl Registry {
    /// An empty registry, as at process start; trivially well formed.
    pub fn new() -> (r: Registry)
        ensures
            r@.rooms.len() == 0,
            r@.wf(),
    {
        Registry { rooms: Vec::new() }
    }
}

// ---------------------------------------------------------------------------
// Inbound event payloads.
// ---------------------------------------------------------------------------

/// Payload of the `createRoom` event.
#[derive(Debug)]
pub struct CreateRoomEvent {
    /// Display name of the creating player.
    pub name: String,
    /// Whether the creating player is a spectator.
    pub is_spectator: bool,
}

/// Payload of the `joinRoom` event.
#[derive(Debug)]
pub struct JoinRoomEvent {
    /// Display name of the joining player.
    pub name: String,
    /// Textual id of the room to join.
    pub room_id: String,
    /// Whether the joining player is a spectator.
    pub is_spectator: bool,
}

/// Payload of the `vote` event.
#[derive(Debug)]
pub struct VoteEvent {
    /// Textual id of the room voted in.
    pub room_id: String,
    /// The vote: an opaque bounded numeric code.
    pub vote: u8,
}

/// Payload of the `revealCards` event.
#[derive(Debug)]
pub struct RevealCardsEvent {
    /// Textual id of the room.
    pub room_id: String,
}

/// Payload of the `resetVotes` event.
#[derive(Debug)]
pub struct ResetVotesEvent {
    /// Textual id of the room.
    pub room_id: String,
}

/// Payload of the `exitRoom` event.
#[derive(Debug)]
pub struct PlayerExitEvent {
    /// Textual id of the room being left.
    pub room_id: String,
}

// ---------------------------------------------------------------------------
// Outbound events and emissions.
// ---------------------------------------------------------------------------

/// `roomCreated`: sent to the creator only.
#[derive(Debug)]
pub struct RoomCreatedEvent {
    /// Snapshot of the fresh room.
    pub room: Room,
    /// Whether the receiver is the host (always true for the creator).
    pub is_host: bool,
}

/// `playerJoined`: broadcast to the whole room after a join.
#[derive(Debug)]
pub struct PlayerJoinedEvent {
    /// Snapshot of the room after the join.
    pub room: Room,
}

/// `roomState`: sent to the joining caller alone, with their host flag.
#[derive(Debug)]
pub struct RoomStateEvent {
    /// Snapshot of the room after the join.
    pub room: Room,
    /// Whether the receiver is the host of the room.
    pub is_host: bool,
}

/// `playerVoted`: broadcast to the room; vote values are redacted.
#[derive(Debug)]
pub struct PlayerVotedEvent {
    /// Snapshot with every vote value absent; flags are preserved.
    pub room: Room,
}

/// `cardsRevealed`: broadcast to the room with all votes visible.
#[derive(Debug)]
pub struct CardsRevealedEvent {
    /// Full snapshot of the revealed room.
    pub room: Room,
}

/// `votesReset`: broadcast to the room after the host cleared the votes.
#[derive(Debug)]
pub struct VotesResetEvent {
    /// Full snapshot of the cleared room.
    pub room: Room,
}

/// `playerDisconnected`: broadcast to the remaining players after a leave.
#[derive(Debug)]
pub struct PlayerDisconnectedEvent {
    /// Snapshot of the room with the departed player removed.
    pub room: Room,
}

/// `newHostElected`: broadcast to the room after host election.
#[derive(Debug)]
pub struct NewHostElectedEvent {
    /// Connection id of the newly elected host.
    pub host_id: String,
}

/// `roomNotFound`: sent to the caller when a room id is unknown or
/// malformed.
#[derive(Debug)]
pub struct RoomNotFoundEvent {}

/// Where an emission is delivered: to the calling connection alone, or to
/// every connection currently joined to the named room.
#[derive(Debug, Clone, Copy, PartialEq, Eq)]
pub enum EmitScope {
    /// Exactly the calling connection.
    ToCaller,
    /// Every connection in the room with this id, the caller included.
    ToRoom(u128),
}

/// One outbound event with its typed payload.
#[derive(Debug)]
pub enum OutboundEvent {
    RoomCreated(RoomCreatedEvent),
    PlayerJoined(PlayerJoinedEvent),
    RoomState(RoomStateEvent),
    PlayerVoted(PlayerVotedEvent),
    CardsRevealed(CardsRevealedEvent),
    VotesReset(VotesResetEvent),
    PlayerDisconnected(PlayerDisconnectedEvent),
    NewHostElected(NewHostElectedEvent),
    RoomNotFound(RoomNotFoundEvent),
}

/// Mathematical view of an [`OutboundEvent`].
#[verifier::ext_equal]
pub ghost enum OutboundEventV {
    RoomCreated { room: RoomV, is_host: bool },
    PlayerJoined { room: RoomV },
    RoomState { room: RoomV, is_host: bool },
    PlayerVoted { room: RoomV },
    CardsRevealed { room: RoomV },
    VotesReset { room: RoomV },
    PlayerDisconnected { room: RoomV },
    NewHostElected { host_id: Seq<char> },
    RoomNotFound,
}

impl View for OutboundEvent {
    type V = OutboundEventV;

    open spec fn view(&self) -> OutboundEventV {
        match self {
            OutboundEvent::RoomCreated(e) => (OutboundEventV::RoomCreated {
                room: e.room@,
                is_host: e.is_host,
            }),
            OutboundEvent::PlayerJoined(e) => (OutboundEventV::PlayerJoined { room: e.room@ }),
            OutboundEvent::RoomState(e) => (OutboundEventV::RoomState {
                room: e.room@,
                is_host: e.is_host,
            }),
            OutboundEvent::PlayerVoted(e) => (OutboundEventV::PlayerVoted { room: e.room@ }),
            OutboundEvent::CardsRevealed(e) => (OutboundEventV::CardsRevealed { room: e.room@ }),
            OutboundEvent::VotesReset(e) => (OutboundEventV::VotesReset { room: e.room@ }),
            OutboundEvent::PlayerDisconnected(e) => (OutboundEventV::PlayerDisconnected {
                room: e.room@,
            }),
            OutboundEvent::NewHostElected(e) => (OutboundEventV::NewHostElected {
                host_id: e.host_id@,
            }),
            OutboundEvent::RoomNotFound(_) => OutboundEventV::RoomNotFound,
        }
    }
}

/// One delivery: an outbound event together with its audience.
#[derive(Debug)]
pub struct Emission {
    /// Who receives the event.
    pub scope: EmitScope,
    /// The event and its payload.
    pub event: OutboundEvent,
}

/// Mathematical view of an [`Emission`].
#[verifier::ext_equal]
pub ghost struct EmissionV {
    pub scope: EmitScope,
    pub event: OutboundEventV,
}

impl View for Emission {
    type V = EmissionV;

    open spec fn view(&self) -> EmissionV {
        EmissionV { scope: self.scope, event: self.event@ }
    }
}

/// The views of a sequence of emissions, in delivery order.
pub open spec fn out_view(out: Seq<Emission>) -> Seq<EmissionV> {
    out.map_values(|e: Emission| e@)
}

// ---------------------------------------------------------------------------
// Errors.
// ---------------------------------------------------------------------------

/// A room lookup failed: the id was malformed or names no live room.
/// Surfaced to the caller as a `roomNotFound` notice, never fatal.
#[derive(Debug)]
pub struct RoomNotFoundError {
    /// The textual room id that failed to resolve.
    pub room_id: String,
}

/// Host election was attempted on a room with no remaining players. An
/// internal signal that makes the caller delete the room; never surfaced
/// to a client.
#[derive(Debug)]
pub struct RoomEmptyError;

} // verus!
