//! The mathematical model of the protocol: well-formedness of rooms and of
//! the registry, and one pure transition function per inbound event. Each
//! transition yields a [`StepV`]: the next registry state together with the
//! exact sequence of emissions owed for it. The executable handlers in
//! [`crate::engine`] are proved to follow these functions step for step.

use vstd::prelude::*;

use crate::types::{EmissionV, EmitScope, OutboundEventV, PlayerV, RegistryV, RoomV};

verus! {

// ---------------------------------------------------------------------------
// Membership and well-formedness.
// ---------------------------------------------------------------------------

/// No two players share a connection id.
pub open spec fn player_ids_unique(ps: Seq<PlayerV>) -> bool {
    forall|i: int, j: int| 0 <= i < j < ps.len() ==> ps[i].id != ps[j].id
}

/// Some player in `ps` has the connection id `pid`.
pub open spec fn has_player(ps: Seq<PlayerV>, pid: Seq<char>) -> bool {
    exists|i: int| 0 <= i < ps.len() && ps[i].id == pid
}

/// The index of the player with id `pid` (meaningful when `has_player`).
pub open spec fn player_idx(ps: Seq<PlayerV>, pid: Seq<char>) -> int {
    choose|i: int| 0 <= i < ps.len() && ps[i].id == pid
}

/// The player with id `pid` (meaningful when `has_player`).
pub open spec fn player_of(ps: Seq<PlayerV>, pid: Seq<char>) -> PlayerV {
    ps[player_idx(ps, pid)]
}

/// A room is well formed: it has at least one player, ids are unique, and
/// the host is a present player.
pub open spec fn room_wf(r: RoomV) -> bool {
    &&& r.players.len() > 0
    &&& player_ids_unique(r.players)
    &&& has_player(r.players, r.host_id)
}

/// No two rooms share an id.
pub open spec fn room_ids_unique(rooms: Seq<RoomV>) -> bool {
    forall|i: int, j: int| 0 <= i < j < rooms.len() ==> rooms[i].id != rooms[j].id
}

/// Some room in the registry has the id `id`.
pub open spec fn has_room(reg: RegistryV, id: u128) -> bool {
    exists|i: int| 0 <= i < reg.rooms.len() && reg.rooms[i].id == id
}

/// The index of the room with id `id` (meaningful when `has_room`).
pub open spec fn room_idx(reg: RegistryV, id: u128) -> int {
    choose|i: int| 0 <= i < reg.rooms.len() && reg.rooms[i].id == id
}

/// The room with id `id` (meaningful when `has_room`).
pub open spec fn room_of(reg: RegistryV, id: u128) -> RoomV {
    reg.rooms[room_idx(reg, id)]
}

impl RegistryV {
    /// The registry invariant: room ids are unique and every room present
    /// is well formed — in particular non-empty, so an emptied room is
    /// removed rather than kept.
    pub open spec fn wf(self) -> bool {
        &&& room_ids_unique(self.rooms)
        &&& forall|i: int| 0 <= i < self.rooms.len() ==> room_wf(#[trigger] self.rooms[i])
    }
}

// ---------------------------------------------------------------------------
// Small constructors used by the transitions.
// ---------------------------------------------------------------------------

/// A player as first inserted: no vote cast yet.
pub open spec fn fresh_player(pid: Seq<char>, name: Seq<char>, is_spectator: bool) -> PlayerV {
    PlayerV { has_voted: false, id: pid, name: name, vote: None, is_spectator: is_spectator }
}

/// The room as created: its creator is the sole member and host, votes
/// not revealed.
pub open spec fn fresh_room(
    id: u128,
    pid: Seq<char>,
    name: Seq<char>,
    is_spectator: bool,
) -> RoomV {
    RoomV {
        cards_revealed: false,
        host_id: pid,
        id: id,
        players: seq![fresh_player(pid, name, is_spectator)],
    }
}

/// `r` with the room of id `id` replaced by `room`; other rooms are kept.
pub open spec fn update_room(reg: RegistryV, id: u128, room: RoomV) -> RegistryV {
    RegistryV { rooms: reg.rooms.map_values(|r: RoomV| if r.id == id { room } else { r }) }
}

/// The registry without the first room of id `id`.
pub open spec fn remove_room(rooms: Seq<RoomV>, id: u128) -> Seq<RoomV>
    decreases rooms.len(),
{
    if rooms.len() == 0 {
        rooms
    } else if rooms[0].id == id {
        rooms.drop_first()
    } else {
        seq![rooms[0]] + remove_room(rooms.drop_first(), id)
    }
}

/// The players without the first one of id `pid`.
pub open spec fn remove_player(ps: Seq<PlayerV>, pid: Seq<char>) -> Seq<PlayerV>
    decreases ps.len(),
{
    if ps.len() == 0 {
        ps
    } else if ps[0].id == pid {
        ps.drop_first()
    } else {
        seq![ps[0]] + remove_player(ps.drop_first(), pid)
    }
}

/// The players with the vote of player `pid` set to `vote` and their
/// voted flag raised; everyone else is untouched. Casting replaces any
/// previous vote, it never accumulates.
pub open spec fn with_vote(ps: Seq<PlayerV>, pid: Seq<char>, vote: u8) -> Seq<PlayerV> {
    ps.map_values(
        |p: PlayerV|
            if p.id == pid {
                PlayerV { has_voted: true, vote: Some(vote), ..p }
            } else {
                p
            },
    )
}

/// Every player's vote and voted flag cleared.
pub open spec fn cleared(ps: Seq<PlayerV>) -> Seq<PlayerV> {
    ps.map_values(|p: PlayerV| PlayerV { has_voted: false, vote: None, ..p })
}

/// The same room with every vote value removed; presence flags are kept.
/// This is what may be broadcast while the room is still *Voting*.
pub open spec fn redacted(r: RoomV) -> RoomV {
    RoomV { players: r.players.map_values(|p: PlayerV| PlayerV { vote: None, ..p }), ..r }
}

/// No player of the room carries a vote value.
pub open spec fn votes_absent(r: RoomV) -> bool {
    forall|i: int| 0 <= i < r.players.len() ==> (#[trigger] r.players[i]).vote is None
}

/// Every non-spectator player has voted. Spectators never vote and are
/// excluded from this check.
pub open spec fn all_voted(ps: Seq<PlayerV>) -> bool {
    forall|i: int| 0 <= i < ps.len() ==> ((#[trigger] ps[i]).is_spectator || ps[i].has_voted)
}

// ---------------------------------------------------------------------------
// Emission constructors.
// ---------------------------------------------------------------------------

/// A `roomNotFound` notice to the caller alone.
pub open spec fn not_found_emission() -> EmissionV {
    EmissionV { scope: EmitScope::ToCaller, event: OutboundEventV::RoomNotFound }
}

/// A broadcast of `event` to every connection in room `id`.
pub open spec fn to_room(id: u128, event: OutboundEventV) -> EmissionV {
    EmissionV { scope: EmitScope::ToRoom(id), event: event }
}

// ---------------------------------------------------------------------------
// The transitions, one per inbound event.
// ---------------------------------------------------------------------------

/// The outcome of one transition: the registry afterwards, and the
/// emissions owed for it, in delivery order.
#[verifier::ext_equal]
pub ghost struct StepV {
    pub registry: RegistryV,
    pub out: Seq<EmissionV>,
}

/// The step for an unknown or malformed room id: the registry is
/// untouched and the caller alone is told the room was not found.
pub open spec fn not_found_step(reg: RegistryV) -> StepV {
    StepV { registry: reg, out: seq![not_found_emission()] }
}

/// A step that changes nothing and emits nothing (the silent drops of the
/// protocol: unauthorized reveal or reset, a vote by a non-member).
pub open spec fn silent_step(reg: RegistryV) -> StepV {
    StepV { registry: reg, out: Seq::empty() }
}

/// `CreateRoom`: insert a fresh room with the caller as sole member and
/// host, and tell the caller, with their host flag. In the negligible
/// case that the allocated id is already taken, nothing happens.
pub open spec fn create_step(
    reg: RegistryV,
    id: u128,
    caller: Seq<char>,
    name: Seq<char>,
    is_spectator: bool,
) -> StepV {
    if has_room(reg, id) {
        silent_step(reg)
    } else {
        let room = fresh_room(id, caller, name, is_spectator);
        StepV {
            registry: RegistryV { rooms: reg.rooms.push(room) },
            out: seq![
                EmissionV {
                    scope: EmitScope::ToCaller,
                    event: OutboundEventV::RoomCreated { room: room, is_host: true },
                },
            ],
        }
    }
}

/// `JoinRoom` with a resolved id: insert the caller unless already a
/// member (the join is idempotent); either way broadcast the snapshot to
/// the room and send the snapshot plus the caller's host flag to the
/// caller.
pub open spec fn join_step(
    reg: RegistryV,
    id: u128,
    caller: Seq<char>,
    name: Seq<char>,
    is_spectator: bool,
) -> StepV {
    if !has_room(reg, id) {
        not_found_step(reg)
    } else {
        let r = room_of(reg, id);
        let r1 = if has_player(r.players, caller) {
            r
        } else {
            RoomV { players: r.players.push(fresh_player(caller, name, is_spectator)), ..r }
        };
        StepV {
            registry: update_room(reg, id, r1),
            out: seq![
                to_room(id, OutboundEventV::PlayerJoined { room: r1 }),
                EmissionV {
                    scope: EmitScope::ToCaller,
                    event: OutboundEventV::RoomState { room: r1, is_host: r1.host_id == caller },
                },
            ],
        }
    }
}

/// `Vote` with a resolved id: a member who is not a spectator casts or
/// replaces their vote and the room hears a redacted snapshot; a vote by
/// a non-member or a spectator is silently dropped. With `auto_reveal`
/// on, a vote completing the round also reveals the cards and the room
/// hears the full snapshot.
pub open spec fn vote_step(
    reg: RegistryV,
    id: u128,
    caller: Seq<char>,
    vote: u8,
    auto_reveal: bool,
) -> StepV {
    if !has_room(reg, id) {
        not_found_step(reg)
    } else {
        let r = room_of(reg, id);
        if !has_player(r.players, caller) || player_of(r.players, caller).is_spectator {
            silent_step(reg)
        } else {
            let r1 = RoomV { players: with_vote(r.players, caller, vote), ..r };
            if auto_reveal && all_voted(r1.players) {
                let r2 = RoomV { cards_revealed: true, ..r1 };
                StepV {
                    registry: update_room(reg, id, r2),
                    out: seq![
                        to_room(id, OutboundEventV::PlayerVoted { room: redacted(r1) }),
                        to_room(id, OutboundEventV::CardsRevealed { room: r2 }),
                    ],
                }
            } else {
                StepV {
                    registry: update_room(reg, id, r1),
                    out: seq![to_room(id, OutboundEventV::PlayerVoted { room: redacted(r1) })],
                }
            }
        }
    }
}

/// `RevealCards` with a resolved id: the host exposes the votes; an
/// attempt by anyone else is dropped without an emission.
pub open spec fn reveal_step(reg: RegistryV, id: u128, caller: Seq<char>) -> StepV {
    if !has_room(reg, id) {
        not_found_step(reg)
    } else {
        let r = room_of(reg, id);
        if r.host_id != caller {
            silent_step(reg)
        } else {
            let r1 = RoomV { cards_revealed: true, ..r };
            StepV {
                registry: update_room(reg, id, r1),
                out: seq![to_room(id, OutboundEventV::CardsRevealed { room: r1 })],
            }
        }
    }
}

/// `ResetVotes` with a resolved id: the host clears every vote and the
/// room returns to *Voting*; an attempt by anyone else is dropped.
pub open spec fn reset_step(reg: RegistryV, id: u128, caller: Seq<char>) -> StepV {
    if !has_room(reg, id) {
        not_found_step(reg)
    } else {
        let r = room_of(reg, id);
        if r.host_id != caller {
            silent_step(reg)
        } else {
            let r1 = RoomV { cards_revealed: false, players: cleared(r.players), ..r };
            StepV {
                registry: update_room(reg, id, r1),
                out: seq![to_room(id, OutboundEventV::VotesReset { room: r1 })],
            }
        }
    }
}

/// One room's part of a leave: the outcome for a single room once the
/// caller, known to be a member, is removed from it.
///
/// An emptied room is deleted by the caller of this function and nothing
/// is broadcast for it. Otherwise the remaining players hear the snapshot
/// (still naming the departed host, as the leave notice precedes the
/// election), and if the host left, the earliest-joined surviving player
/// is elected and announced.
pub open spec fn leave_outcome(r: RoomV, caller: Seq<char>) -> (Option<RoomV>, Seq<EmissionV>) {
    let ps = remove_player(r.players, caller);
    if ps.len() == 0 {
        (None, Seq::empty())
    } else {
        let r_mid = RoomV { players: ps, ..r };
        if r.host_id == caller {
            let r_new = RoomV { host_id: ps[0].id, ..r_mid };
            (
                Some(r_new),
                seq![
                    to_room(r.id, OutboundEventV::PlayerDisconnected { room: r_mid }),
                    to_room(r.id, OutboundEventV::NewHostElected { host_id: ps[0].id }),
                ],
            )
        } else {
            (Some(r_mid), seq![to_room(r.id, OutboundEventV::PlayerDisconnected { room: r_mid })])
        }
    }
}

/// `ExitRoom` with a resolved id: remove the caller from that one room;
/// an exit by a non-member is silently dropped.
pub open spec fn exit_step(reg: RegistryV, id: u128, caller: Seq<char>) -> StepV {
    if !has_room(reg, id) {
        not_found_step(reg)
    } else {
        let r = room_of(reg, id);
        if !has_player(r.players, caller) {
            silent_step(reg)
        } else {
            let (kept, out) = leave_outcome(r, caller);
            match kept {
                None => StepV {
                    registry: RegistryV { rooms: remove_room(reg.rooms, id) },
                    out: out,
                },
                Some(r_new) => StepV { registry: update_room(reg, id, r_new), out: out },
            }
        }
    }
}

/// The disconnect sweep over a sequence of rooms: the caller leaves every
/// room they are a member of; emptied rooms are dropped, the others are
/// kept in order with their leave emissions concatenated in room order.
pub open spec fn sweep(rooms: Seq<RoomV>, caller: Seq<char>) -> (Seq<RoomV>, Seq<EmissionV>)
    decreases rooms.len(),
{
    if rooms.len() == 0 {
        (Seq::empty(), Seq::empty())
    } else {
        let (rest_rooms, rest_out) = sweep(rooms.drop_first(), caller);
        let r = rooms[0];
        if !has_player(r.players, caller) {
            (seq![r] + rest_rooms, rest_out)
        } else {
            let (kept, out) = leave_outcome(r, caller);
            match kept {
                None => (rest_rooms, out + rest_out),
                Some(r_new) => (seq![r_new] + rest_rooms, out + rest_out),
            }
        }
    }
}

/// `Disconnect`: the transport-triggered leave from every room the
/// departing connection belongs to.
pub open spec fn disconnect_step(reg: RegistryV, caller: Seq<char>) -> StepV {
    let (rooms, out) = sweep(reg.rooms, caller);
    StepV { registry: RegistryV { rooms: rooms }, out: out }
}

// ---------------------------------------------------------------------------
// Lemmas: resolving indices, removals, and preservation of
// well-formedness by every transition.
// ---------------------------------------------------------------------------

/// When room ids are unique, an index holding `id` is the index
/// `room_idx` resolves to.
pub proof fn lemma_room_idx_is(reg: RegistryV, id: u128, i: int)
    requires
        room_ids_unique(reg.rooms),
        0 <= i < reg.rooms.len(),
        reg.rooms[i].id == id,
    ensures
        has_room(reg, id),
        room_idx(reg, id) == i,
        room_of(reg, id) == reg.rooms[i],
{
    assert(has_room(reg, id));
    let j = room_idx(reg, id);
    assert(0 <= j < reg.rooms.len() && reg.rooms[j].id == id);
    if i < j {
        assert(reg.rooms[i].id != reg.rooms[j].id);
    } else if j < i {
        assert(reg.rooms[j].id != reg.rooms[i].id);
    }
}

/// When player ids are unique, an index holding `pid` is the index
/// `player_idx` resolves to.
pub proof fn lemma_player_idx_is(ps: Seq<PlayerV>, pid: Seq<char>, i: int)
    requires
        player_ids_unique(ps),
        0 <= i < ps.len(),
        ps[i].id == pid,
    ensures
        has_player(ps, pid),
        player_idx(ps, pid) == i,
        player_of(ps, pid) == ps[i],
{
    assert(has_player(ps, pid));
    let j = player_idx(ps, pid);
    assert(0 <= j < ps.len() && ps[j].id == pid);
    if i < j {
        assert(ps[i].id != ps[j].id);
    } else if j < i {
        assert(ps[j].id != ps[i].id);
    }
}

/// With unique ids, the keyed update of `update_room` is the positional
/// update at the one index that holds the id.
pub proof fn lemma_update_room_at(reg: RegistryV, id: u128, i: int, room: RoomV)
    requires
        room_ids_unique(reg.rooms),
        0 <= i < reg.rooms.len(),
        reg.rooms[i].id == id,
    ensures
        update_room(reg, id, room).rooms =~= reg.rooms.update(i, room),
{
    let m = update_room(reg, id, room).rooms;
    assert forall|k: int| 0 <= k < reg.rooms.len() implies m[k] == reg.rooms.update(i, room)[k] by {
        if k != i {
            if k < i {
                assert(reg.rooms[k].id != reg.rooms[i].id);
            } else {
                assert(reg.rooms[i].id != reg.rooms[k].id);
            }
        }
    }
}

/// Removing the first player with id `pid` is the positional removal at
/// the first index that holds `pid`.
pub proof fn lemma_remove_player_first(ps: Seq<PlayerV>, pid: Seq<char>, i: int)
    requires
        0 <= i < ps.len(),
        ps[i].id == pid,
        forall|k: int| 0 <= k < i ==> ps[k].id != pid,
    ensures
        remove_player(ps, pid) =~= ps.remove(i),
    decreases i,
{
    if i == 0 {
        assert(remove_player(ps, pid) == ps.drop_first());
        assert(ps.drop_first() =~= ps.remove(0));
    } else {
        assert(ps[0].id != pid);
        let tail = ps.drop_first();
        assert(tail[i - 1].id == pid);
        assert forall|k: int| 0 <= k < i - 1 implies tail[k].id != pid by {
            assert(ps[k + 1].id != pid);
        }
        lemma_remove_player_first(tail, pid, i - 1);
        assert(remove_player(ps, pid) == seq![ps[0]] + remove_player(tail, pid));
        assert(seq![ps[0]] + tail.remove(i - 1) =~= ps.remove(i));
    }
}

/// Removing the first room with id `id` is the positional removal at the
/// first index that holds `id`.
pub proof fn lemma_remove_room_first(rooms: Seq<RoomV>, id: u128, i: int)
    requires
        0 <= i < rooms.len(),
        rooms[i].id == id,
        forall|k: int| 0 <= k < i ==> rooms[k].id != id,
    ensures
        remove_room(rooms, id) =~= rooms.remove(i),
    decreases i,
{
    if i == 0 {
        assert(remove_room(rooms, id) == rooms.drop_first());
        assert(rooms.drop_first() =~= rooms.remove(0));
    } else {
        assert(rooms[0].id != id);
        let tail = rooms.drop_first();
        assert(tail[i - 1].id == id);
        assert forall|k: int| 0 <= k < i - 1 implies tail[k].id != id by {
            assert(rooms[k + 1].id != id);
        }
        lemma_remove_room_first(tail, id, i - 1);
        assert(remove_room(rooms, id) == seq![rooms[0]] + remove_room(tail, id));
        assert(seq![rooms[0]] + tail.remove(i - 1) =~= rooms.remove(i));
    }
}

/// A positional removal keeps player ids unique and keeps every other
/// player present.
pub proof fn lemma_players_remove_keeps(ps: Seq<PlayerV>, i: int)
    requires
        0 <= i < ps.len(),
        player_ids_unique(ps),
    ensures
        player_ids_unique(ps.remove(i)),
        forall|pid: Seq<char>|
            has_player(ps, pid) && pid != ps[i].id ==> #[trigger] has_player(ps.remove(i), pid),
        forall|pid: Seq<char>| #[trigger] has_player(ps.remove(i), pid) ==> has_player(ps, pid),
{
    let ps2 = ps.remove(i);
    ps.remove_ensures(i);
    assert forall|a: int, b: int| 0 <= a < b < ps2.len() implies ps2[a].id != ps2[b].id by {
        let a0 = if a < i { a } else { a + 1 };
        let b0 = if b < i { b } else { b + 1 };
        assert(ps2[a] == ps[a0]);
        assert(ps2[b] == ps[b0]);
        assert(ps[a0].id != ps[b0].id);
    }
    assert forall|pid: Seq<char>| has_player(ps, pid) && pid != ps[i].id implies #[trigger] has_player(
        ps2,
        pid,
    ) by {
        let j = choose|j: int| 0 <= j < ps.len() && ps[j].id == pid;
        if j < i {
            assert(ps2[j].id == pid);
        } else {
            assert(j != i);
            assert(ps2[j - 1].id == pid);
        }
    }
    assert forall|pid: Seq<char>| #[trigger] has_player(ps2, pid) implies has_player(ps, pid) by {
        let j = choose|j: int| 0 <= j < ps2.len() && ps2[j].id == pid;
        let j0 = if j < i { j } else { j + 1 };
        assert(ps[j0].id == pid);
    }
}

/// A transformation that touches no player id keeps uniqueness and
/// membership.
pub proof fn lemma_same_ids_wf(ps1: Seq<PlayerV>, ps2: Seq<PlayerV>, host: Seq<char>)
    requires
        ps1.len() == ps2.len(),
        forall|i: int| 0 <= i < ps1.len() ==> ps2[i].id == ps1[i].id,
        player_ids_unique(ps1),
        has_player(ps1, host),
    ensures
        player_ids_unique(ps2),
        has_player(ps2, host),
{
    let w = choose|w: int| 0 <= w < ps1.len() && ps1[w].id == host;
    assert(ps2[w].id == host);
}

/// `CreateRoom` preserves the registry invariant.
pub proof fn lemma_create_step_wf(
    reg: RegistryV,
    id: u128,
    caller: Seq<char>,
    name: Seq<char>,
    is_spectator: bool,
)
    requires
        reg.wf(),
    ensures
        create_step(reg, id, caller, name, is_spectator).registry.wf(),
{
    if !has_room(reg, id) {
        let room = fresh_room(id, caller, name, is_spectator);
        let rooms2 = reg.rooms.push(room);
        assert(room.players[0].id == caller);
        assert(room_wf(room));
        assert forall|i: int, j: int| 0 <= i < j < rooms2.len() implies rooms2[i].id
            != rooms2[j].id by {
            if j == rooms2.len() - 1 {
                assert(reg.rooms[i].id != id);
            }
        }
        assert forall|i: int| 0 <= i < rooms2.len() implies room_wf(#[trigger] rooms2[i]) by {
            if i < reg.rooms.len() {
                assert(room_wf(reg.rooms[i]));
            }
        }
    }
}

/// `JoinRoom` preserves the registry invariant.
pub proof fn lemma_join_step_wf(
    reg: RegistryV,
    id: u128,
    caller: Seq<char>,
    name: Seq<char>,
    is_spectator: bool,
)
    requires
        reg.wf(),
    ensures
        join_step(reg, id, caller, name, is_spectator).registry.wf(),
{
    if has_room(reg, id) {
        let i = room_idx(reg, id);
        let r = room_of(reg, id);
        assert(0 <= i < reg.rooms.len() && reg.rooms[i].id == id);
        assert(room_wf(r));
        let r1 = if has_player(r.players, caller) {
            r
        } else {
            RoomV { players: r.players.push(fresh_player(caller, name, is_spectator)), ..r }
        };
        if !has_player(r.players, caller) {
            let ps2 = r.players.push(fresh_player(caller, name, is_spectator));
            assert forall|a: int, b: int| 0 <= a < b < ps2.len() implies ps2[a].id != ps2[b].id by {
                if b == ps2.len() - 1 {
                    assert(r.players[a].id != caller);
                }
            }
            let w = choose|w: int| 0 <= w < r.players.len() && r.players[w].id == r.host_id;
            assert(ps2[w].id == r.host_id);
            assert(room_wf(r1));
        }
        lemma_update_room_at(reg, id, i, r1);
        let rooms2 = update_room(reg, id, r1).rooms;
        assert forall|a: int, b: int| 0 <= a < b < rooms2.len() implies rooms2[a].id
            != rooms2[b].id by {
            assert(rooms2[a].id == reg.rooms[a].id);
            assert(rooms2[b].id == reg.rooms[b].id);
        }
        assert forall|k: int| 0 <= k < rooms2.len() implies room_wf(#[trigger] rooms2[k]) by {
            if k != i {
                assert(rooms2[k] == reg.rooms[k]);
                assert(room_wf(reg.rooms[k]));
            }
        }
    }
}

/// `Vote` preserves the registry invariant.
pub proof fn lemma_vote_step_wf(
    reg: RegistryV,
    id: u128,
    caller: Seq<char>,
    vote: u8,
    auto_reveal: bool,
)
    requires
        reg.wf(),
    ensures
        vote_step(reg, id, caller, vote, auto_reveal).registry.wf(),
{
    if has_room(reg, id) {
        let i = room_idx(reg, id);
        let r = room_of(reg, id);
        assert(0 <= i < reg.rooms.len() && reg.rooms[i].id == id);
        assert(room_wf(r));
        if has_player(r.players, caller) && !player_of(r.players, caller).is_spectator {
            let ps2 = with_vote(r.players, caller, vote);
            lemma_same_ids_wf(r.players, ps2, r.host_id);
            let r1 = RoomV { players: ps2, ..r };
            let r2 = RoomV { cards_revealed: true, ..r1 };
            assert(room_wf(r1));
            assert(room_wf(r2));
            let target = if auto_reveal && all_voted(ps2) {
                r2
            } else {
                r1
            };
            lemma_update_room_at(reg, id, i, target);
            let rooms2 = update_room(reg, id, target).rooms;
            assert forall|a: int, b: int| 0 <= a < b < rooms2.len() implies rooms2[a].id
                != rooms2[b].id by {
                assert(rooms2[a].id == reg.rooms[a].id);
                assert(rooms2[b].id == reg.rooms[b].id);
            }
            assert forall|k: int| 0 <= k < rooms2.len() implies room_wf(#[trigger] rooms2[k]) by {
                if k != i {
                    assert(rooms2[k] == reg.rooms[k]);
                    assert(room_wf(reg.rooms[k]));
                }
            }
        }
    }
}

/// `RevealCards` preserves the registry invariant.
pub proof fn lemma_reveal_step_wf(reg: RegistryV, id: u128, caller: Seq<char>)
    requires
        reg.wf(),
    ensures
        reveal_step(reg, id, caller).registry.wf(),
{
    if has_room(reg, id) {
        let i = room_idx(reg, id);
        let r = room_of(reg, id);
        assert(0 <= i < reg.rooms.len() && reg.rooms[i].id == id);
        assert(room_wf(r));
        if r.host_id == caller {
            let r1 = RoomV { cards_revealed: true, ..r };
            assert(room_wf(r1));
            lemma_update_room_at(reg, id, i, r1);
            let rooms2 = update_room(reg, id, r1).rooms;
            assert forall|a: int, b: int| 0 <= a < b < rooms2.len() implies rooms2[a].id
                != rooms2[b].id by {
                assert(rooms2[a].id == reg.rooms[a].id);
                assert(rooms2[b].id == reg.rooms[b].id);
            }
            assert forall|k: int| 0 <= k < rooms2.len() implies room_wf(#[trigger] rooms2[k]) by {
                if k != i {
                    assert(rooms2[k] == reg.rooms[k]);
                    assert(room_wf(reg.rooms[k]));
                }
            }
        }
    }
}

/// `ResetVotes` preserves the registry invariant.
pub proof fn lemma_reset_step_wf(reg: RegistryV, id: u128, caller: Seq<char>)
    requires
        reg.wf(),
    ensures
        reset_step(reg, id, caller).registry.wf(),
{
    if has_room(reg, id) {
        let i = room_idx(reg, id);
        let r = room_of(reg, id);
        assert(0 <= i < reg.rooms.len() && reg.rooms[i].id == id);
        assert(room_wf(r));
        if r.host_id == caller {
            let ps2 = cleared(r.players);
            lemma_same_ids_wf(r.players, ps2, r.host_id);
            let r1 = RoomV { cards_revealed: false, players: ps2, ..r };
            assert(room_wf(r1));
            lemma_update_room_at(reg, id, i, r1);
            let rooms2 = update_room(reg, id, r1).rooms;
            assert forall|a: int, b: int| 0 <= a < b < rooms2.len() implies rooms2[a].id
                != rooms2[b].id by {
                assert(rooms2[a].id == reg.rooms[a].id);
                assert(rooms2[b].id == reg.rooms[b].id);
            }
            assert forall|k: int| 0 <= k < rooms2.len() implies room_wf(#[trigger] rooms2[k]) by {
                if k != i {
                    assert(rooms2[k] == reg.rooms[k]);
                    assert(room_wf(reg.rooms[k]));
                }
            }
        }
    }
}

/// A member's leave keeps the surviving room (if any) well formed, and
/// keeps its id.
pub proof fn lemma_leave_outcome_wf(r: RoomV, caller: Seq<char>)
    requires
        room_wf(r),
        has_player(r.players, caller),
    ensures
        ({
            let (kept, _) = leave_outcome(r, caller);
            match kept {
                None => true,
                Some(r2) => room_wf(r2) && r2.id == r.id,
            }
        }),
{
    let pj = player_idx(r.players, caller);
    assert(0 <= pj < r.players.len() && r.players[pj].id == caller);
    assert forall|k: int| 0 <= k < pj implies r.players[k].id != caller by {
        assert(r.players[k].id != r.players[pj].id);
    }
    lemma_remove_player_first(r.players, caller, pj);
    lemma_players_remove_keeps(r.players, pj);
    let ps = remove_player(r.players, caller);
    if ps.len() > 0 {
        if r.host_id == caller {
            assert(has_player(ps, ps[0].id));
        } else {
            assert(has_player(ps, r.host_id));
        }
    }
}

/// `ExitRoom` preserves the registry invariant.
pub proof fn lemma_exit_step_wf(reg: RegistryV, id: u128, caller: Seq<char>)
    requires
        reg.wf(),
    ensures
        exit_step(reg, id, caller).registry.wf(),
{
    if has_room(reg, id) {
        let i = room_idx(reg, id);
        let r = room_of(reg, id);
        assert(0 <= i < reg.rooms.len() && reg.rooms[i].id == id);
        assert(room_wf(r));
        if has_player(r.players, caller) {
            lemma_leave_outcome_wf(r, caller);
            let (kept, _) = leave_outcome(r, caller);
            match kept {
                None => {
                    assert forall|k: int| 0 <= k < i implies reg.rooms[k].id != id by {
                        assert(reg.rooms[k].id != reg.rooms[i].id);
                    }
                    lemma_remove_room_first(reg.rooms, id, i);
                    let rooms2 = remove_room(reg.rooms, id);
                    reg.rooms.remove_ensures(i);
                    assert forall|a: int, b: int| 0 <= a < b < rooms2.len() implies rooms2[a].id
                        != rooms2[b].id by {
                        let a0 = if a < i {
                            a
                        } else {
                            a + 1
                        };
                        let b0 = if b < i {
                            b
                        } else {
                            b + 1
                        };
                        assert(rooms2[a] == reg.rooms[a0]);
                        assert(rooms2[b] == reg.rooms[b0]);
                        assert(reg.rooms[a0].id != reg.rooms[b0].id);
                    }
                    assert forall|k: int| 0 <= k < rooms2.len() implies room_wf(
                        #[trigger] rooms2[k],
                    ) by {
                        let k0 = if k < i {
                            k
                        } else {
                            k + 1
                        };
                        assert(rooms2[k] == reg.rooms[k0]);
                        assert(room_wf(reg.rooms[k0]));
                    }
                },
                Some(r2) => {
                    lemma_update_room_at(reg, id, i, r2);
                    let rooms2 = update_room(reg, id, r2).rooms;
                    assert forall|a: int, b: int| 0 <= a < b < rooms2.len() implies rooms2[a].id
                        != rooms2[b].id by {
                        assert(rooms2[a].id == reg.rooms[a].id);
                        assert(rooms2[b].id == reg.rooms[b].id);
                    }
                    assert forall|k: int| 0 <= k < rooms2.len() implies room_wf(
                        #[trigger] rooms2[k],
                    ) by {
                        if k != i {
                            assert(rooms2[k] == reg.rooms[k]);
                            assert(room_wf(reg.rooms[k]));
                        }
                    }
                },
            }
        }
    }
}

/// The disconnect sweep keeps every surviving room well formed, keeps
/// room ids unique, and introduces no id that was not already present.
pub proof fn lemma_sweep_wf(rooms: Seq<RoomV>, caller: Seq<char>)
    requires
        room_ids_unique(rooms),
        forall|i: int| 0 <= i < rooms.len() ==> room_wf(#[trigger] rooms[i]),
    ensures
        ({
            let (rs, _) = sweep(rooms, caller);
            &&& room_ids_unique(rs)
            &&& forall|i: int| 0 <= i < rs.len() ==> room_wf(#[trigger] rs[i])
            &&& forall|i: int|
                0 <= i < rs.len() ==> exists|j: int|
                    0 <= j < rooms.len() && (#[trigger] rs[i]).id == rooms[j].id
        }),
    decreases rooms.len(),
{
    if rooms.len() > 0 {
        let r = rooms[0];
        let tail = rooms.drop_first();
        assert forall|a: int, b: int| 0 <= a < b < tail.len() implies tail[a].id != tail[b].id by {
            assert(rooms[a + 1].id != rooms[b + 1].id);
        }
        assert forall|i: int| 0 <= i < tail.len() implies room_wf(#[trigger] tail[i]) by {
            assert(room_wf(rooms[i + 1]));
        }
        lemma_sweep_wf(tail, caller);
        let (rest_rooms, _) = sweep(tail, caller);
        // Any id surviving from the tail differs from the head's id.
        assert forall|i: int| 0 <= i < rest_rooms.len() implies rest_rooms[i].id != r.id by {
            let j = choose|j: int| 0 <= j < tail.len() && rest_rooms[i].id == tail[j].id;
            assert(rooms[0].id != rooms[j + 1].id);
        }
        assert forall|i: int| 0 <= i < rest_rooms.len() implies exists|j: int|
            0 <= j < rooms.len() && (#[trigger] rest_rooms[i]).id == rooms[j].id by {
            let j = choose|j: int| 0 <= j < tail.len() && rest_rooms[i].id == tail[j].id;
            assert(rest_rooms[i].id == rooms[j + 1].id);
        }
        if !has_player(r.players, caller) {
            let rs = seq![r] + rest_rooms;
            assert forall|a: int, b: int| 0 <= a < b < rs.len() implies rs[a].id != rs[b].id by {
                if a == 0 {
                    assert(rs[b] == rest_rooms[b - 1]);
                } else {
                    assert(rs[a] == rest_rooms[a - 1] && rs[b] == rest_rooms[b - 1]);
                }
            }
            assert(rs[0].id == rooms[0].id);
        } else {
            lemma_leave_outcome_wf(r, caller);
            let (kept, _) = leave_outcome(r, caller);
            match kept {
                None => {},
                Some(r2) => {
                    let rs = seq![r2] + rest_rooms;
                    assert forall|a: int, b: int| 0 <= a < b < rs.len() implies rs[a].id
                        != rs[b].id by {
                        if a == 0 {
                            assert(rs[b] == rest_rooms[b - 1]);
                            assert(rs[a].id == r.id);
                        } else {
                            assert(rs[a] == rest_rooms[a - 1] && rs[b] == rest_rooms[b - 1]);
                        }
                    }
                    assert(rs[0].id == rooms[0].id);
                },
            }
        }
    }
}

/// `Disconnect` preserves the registry invariant.
pub proof fn lemma_disconnect_step_wf(reg: RegistryV, caller: Seq<char>)
    requires
        reg.wf(),
    ensures
        disconnect_step(reg, caller).registry.wf(),
{
    lemma_sweep_wf(reg.rooms, caller);
}

} // verus!
