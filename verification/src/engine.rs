//! The executable transitions. Each handler takes the registry, the
//! calling connection's id and the event payload, applies exactly one
//! step of the protocol and returns the emissions owed for it; its
//! contract ties it to the corresponding transition function of
//! [`crate::model`].

use vstd::prelude::*;

use crate::ids::{new_room_id, parse_room_id, parsed_room_id};
use crate::model::{
    all_voted, cleared, create_step, disconnect_step, exit_step, fresh_player, has_player,
    has_room, join_step, leave_outcome, lemma_create_step_wf, lemma_disconnect_step_wf,
    lemma_exit_step_wf, lemma_join_step_wf, lemma_player_idx_is, lemma_remove_player_first,
    lemma_remove_room_first, lemma_reset_step_wf, lemma_reveal_step_wf, lemma_room_idx_is,
    lemma_update_room_at, lemma_vote_step_wf, not_found_emission, not_found_step,
    player_ids_unique, player_of, redacted, remove_player, reset_step, reveal_step,
    room_ids_unique, room_wf, sweep, vote_step, with_vote,
};
use crate::types::{
    CardsRevealedEvent, CreateRoomEvent, Emission, EmissionV, EmitScope, JoinRoomEvent,
    NewHostElectedEvent,
    OutboundEvent, Player, PlayerDisconnectedEvent, PlayerExitEvent, PlayerJoinedEvent,
    PlayerVotedEvent, Registry, ResetVotesEvent, RevealCardsEvent, Room, RoomCreatedEvent,
    RoomEmptyError, RoomNotFoundError, RoomNotFoundEvent, RoomStateEvent, RoomV, VoteEvent,
    VotesResetEvent, out_view,
};

verus! {

// ---------------------------------------------------------------------------
// Lookup helpers.
// ---------------------------------------------------------------------------

impl Registry {
    /// The index of the room with id `id`, if any room has it.
    pub fn find_room_index(&self, id: u128) -> (r: Option<usize>)
        ensures
            match r {
                Some(i) => {
                    &&& (i as int) < self@.rooms.len()
                    &&& self@.rooms[i as int].id == id
                    &&& forall|k: int| 0 <= k < i as int ==> self@.rooms[k].id != id
                },
                None => !has_room(self@, id),
            },
    {
        let mut k: usize = 0;
        while k < self.rooms.len()
            invariant
                k <= self.rooms.len(),
                forall|m: int| 0 <= m < k as int ==> self@.rooms[m].id != id,
            decreases self.rooms.len() - k,
        {
            if self.rooms[k].id == id {
                proof {
                    assert(self@.rooms[k as int] == self.rooms@[k as int]@);
                }
                return Some(k);
            }
            proof {
                assert(self@.rooms[k as int] == self.rooms@[k as int]@);
            }
            k += 1;
        }
        proof {
            assert(!has_room(self@, id));
        }
        None
    }
}

impl Room {
    /// The index of the player with connection id `pid`, if present.
    pub fn find_player_index(&self, pid: &String) -> (r: Option<usize>)
        ensures
            match r {
                Some(j) => {
                    &&& (j as int) < self@.players.len()
                    &&& self@.players[j as int].id == pid@
                    &&& forall|k: int| 0 <= k < j as int ==> self@.players[k].id != pid@
                },
                None => !has_player(self@.players, pid@),
            },
    {
        let mut k: usize = 0;
        while k < self.players.len()
            invariant
                k <= self.players.len(),
                forall|m: int| 0 <= m < k as int ==> self@.players[m].id != pid@,
            decreases self.players.len() - k,
        {
            if self.players[k].id == *pid {
                proof {
                    assert(self@.players[k as int] == self.players@[k as int]@);
                }
                return Some(k);
            }
            proof {
                assert(self@.players[k as int] == self.players@[k as int]@);
            }
            k += 1;
        }
        proof {
            assert(!has_player(self@.players, pid@));
        }
        None
    }
}

// ---------------------------------------------------------------------------
// Snapshot copies for emission payloads.
// ---------------------------------------------------------------------------

/// A field-for-field copy of one player.
fn copy_player(p: &Player) -> (r: Player)
    ensures
        r@ == p@,
{
    Player {
        has_voted: p.has_voted,
        id: p.id.clone(),
        name: p.name.clone(),
        vote: p.vote,
        is_spectator: p.is_spectator,
    }
}

/// A full snapshot of a room, for broadcasting.
pub fn snapshot_room(room: &Room) -> (r: Room)
    ensures
        r@ == room@,
{
    let mut ps: Vec<Player> = Vec::new();
    let mut k: usize = 0;
    while k < room.players.len()
        invariant
            k <= room.players.len(),
            ps@.len() == k as int,
            forall|m: int| 0 <= m < k as int ==> (#[trigger] ps@[m])@ == room@.players[m],
        decreases room.players.len() - k,
    {
        ps.push(copy_player(&room.players[k]));
        proof {
            assert(room@.players[k as int] == room.players@[k as int]@);
            assert(ps@[k as int]@ == room@.players[k as int]);
        }
        k += 1;
    }
    let r = Room {
        cards_revealed: room.cards_revealed,
        host_id: room.host_id.clone(),
        id: room.id,
        players: ps,
    };
    proof {
        assert forall|i: int| 0 <= i < ps@.len() implies ps@.map_values(|p: Player| p@)[i]
            == room@.players[i] by {
            assert(ps@.map_values(|p: Player| p@)[i] == ps@[i]@);
        }
        assert(ps@.map_values(|p: Player| p@) =~= room@.players);
        assert(r@ =~= room@);
    }
    r
}

/// The room as it may be shown while votes are not revealed: every vote
/// value removed, every flag kept.
pub fn clean_votes(room: &Room) -> (r: Room)
    ensures
        r@ == redacted(room@),
{
    let mut ps: Vec<Player> = Vec::new();
    let mut k: usize = 0;
    while k < room.players.len()
        invariant
            k <= room.players.len(),
            ps@.len() == k as int,
            forall|m: int|
                0 <= m < k as int ==> (#[trigger] ps@[m])@ == redacted(room@).players[m],
        decreases room.players.len() - k,
    {
        let p = &room.players[k];
        ps.push(
            Player {
                has_voted: p.has_voted,
                id: p.id.clone(),
                name: p.name.clone(),
                vote: None,
                is_spectator: p.is_spectator,
            },
        );
        proof {
            assert(room@.players[k as int] == room.players@[k as int]@);
            assert(ps@[k as int]@ == redacted(room@).players[k as int]);
        }
        k += 1;
    }
    let r = Room {
        cards_revealed: room.cards_revealed,
        host_id: room.host_id.clone(),
        id: room.id,
        players: ps,
    };
    proof {
        assert forall|i: int| 0 <= i < ps@.len() implies ps@.map_values(|p: Player| p@)[i]
            == redacted(room@).players[i] by {
            assert(ps@.map_values(|p: Player| p@)[i] == ps@[i]@);
        }
        assert(ps@.map_values(|p: Player| p@) =~= redacted(room@).players);
        assert(r@ =~= redacted(room@));
    }
    r
}

// ---------------------------------------------------------------------------
// Emission helpers.
// ---------------------------------------------------------------------------

/// The one-element emission list that tells the caller the room was not
/// found.
fn not_found_out() -> (out: Vec<Emission>)
    ensures
        out_view(out@) == seq![not_found_emission()],
{
    let mut out: Vec<Emission> = Vec::new();
    out.push(
        Emission {
            scope: EmitScope::ToCaller,
            event: OutboundEvent::RoomNotFound(RoomNotFoundEvent {}),
        },
    );
    proof {
        assert(out_view(out@) =~= seq![not_found_emission()]);
    }
    out
}

// ---------------------------------------------------------------------------
// CreateRoom.
// ---------------------------------------------------------------------------

/// Create a room under the given identifier: the caller becomes sole
/// member and host, and is told so. If the identifier is already in use
/// (negligible for a freshly drawn one), nothing changes and nothing is
/// emitted.
pub fn create_room(
    reg: &mut Registry,
    id: u128,
    caller: &str,
    name: &str,
    is_spectator: bool,
) -> (out: Vec<Emission>)
    requires
        old(reg)@.wf(),
    ensures
        final(reg)@.wf(),
        final(reg)@ == create_step(old(reg)@, id, caller@, name@, is_spectator).registry,
        out_view(out@) == create_step(old(reg)@, id, caller@, name@, is_spectator).out,
{
    proof {
        lemma_create_step_wf(old(reg)@, id, caller@, name@, is_spectator);
    }
    match reg.find_room_index(id) {
        Some(_) => {
            proof {
                assert(has_room(reg@, id));
            }
            Vec::new()
        },
        None => {
            let player = Player {
                has_voted: false,
                id: caller.to_owned(),
                name: name.to_owned(),
                vote: None,
                is_spectator: is_spectator,
            };
            let mut players: Vec<Player> = Vec::new();
            players.push(player);
            let room = Room {
                cards_revealed: false,
                host_id: caller.to_owned(),
                id: id,
                players: players,
            };
            let snap = snapshot_room(&room);
            proof {
                let target = crate::model::fresh_room(id, caller@, name@, is_spectator);
                assert(room@.players =~= target.players);
                assert(room@ =~= target);
            }
            reg.rooms.push(room);
            let mut out: Vec<Emission> = Vec::new();
            out.push(
                Emission {
                    scope: EmitScope::ToCaller,
                    event: OutboundEvent::RoomCreated(
                        RoomCreatedEvent { room: snap, is_host: true },
                    ),
                },
            );
            proof {
                let step = create_step(old(reg)@, id, caller@, name@, is_spectator);
                assert(reg@.rooms =~= step.registry.rooms);
                assert(reg@ =~= step.registry);
                assert(out_view(out@) =~= step.out);
            }
            out
        },
    }
}

/// Handle `createRoom`: draw a fresh random identifier and create the
/// room under it. Returns the drawn identifier with the emissions.
pub fn handle_create_room(reg: &mut Registry, caller: &str, payload: &CreateRoomEvent) -> (r: (
    u128,
    Vec<Emission>,
))
    requires
        old(reg)@.wf(),
    ensures
        final(reg)@.wf(),
        final(reg)@ == create_step(
            old(reg)@,
            r.0,
            caller@,
            payload.name@,
            payload.is_spectator,
        ).registry,
        out_view(r.1@) == create_step(
            old(reg)@,
            r.0,
            caller@,
            payload.name@,
            payload.is_spectator,
        ).out,
{
    let id = new_room_id();
    let out = create_room(reg, id, caller, payload.name.as_str(), payload.is_spectator);
    (id, out)
}

// ---------------------------------------------------------------------------
// Shared proof plumbing for keyed updates of the registry.
// ---------------------------------------------------------------------------

/// A positional update of the room vector is, at view level, the
/// positional update of the registry view.
proof fn lemma_rooms_view_update(pre: Seq<Room>, post: Seq<Room>, i: int, room: Room)
    requires
        0 <= i < pre.len(),
        post == pre.update(i, room),
    ensures
        post.map_values(|r: Room| r@) =~= pre.map_values(|r: Room| r@).update(i, room@),
{
    let lhs = post.map_values(|r: Room| r@);
    let rhs = pre.map_values(|r: Room| r@).update(i, room@);
    assert forall|m: int| 0 <= m < lhs.len() implies lhs[m] == rhs[m] by {
        if m != i {
            assert(post[m] == pre[m]);
        }
    }
    assert(lhs =~= rhs);
}

// ---------------------------------------------------------------------------
// JoinRoom.
// ---------------------------------------------------------------------------

/// Join the room with the given identifier. A second join by a member is
/// a no-op on the state; in both cases the room hears the snapshot and
/// the caller additionally hears it with their host flag.
pub fn join_room(reg: &mut Registry, id: u128, caller: &str, name: &str, is_spectator: bool) -> (out: Vec<Emission>)
    requires
        old(reg)@.wf(),
    ensures
        final(reg)@.wf(),
        final(reg)@ == join_step(old(reg)@, id, caller@, name@, is_spectator).registry,
        out_view(out@) == join_step(old(reg)@, id, caller@, name@, is_spectator).out,
{
    proof {
        lemma_join_step_wf(old(reg)@, id, caller@, name@, is_spectator);
    }
    match reg.find_room_index(id) {
        None => not_found_out(),
        Some(i) => {
            proof {
                lemma_room_idx_is(reg@, id, i as int);
            }
            let ghost r = reg@.rooms[i as int];
            let caller_s: String = caller.to_owned();
            let mut room = snapshot_room(&reg.rooms[i]);
            let already = room.find_player_index(&caller_s);
            if already.is_none() {
                room.players.push(
                    Player {
                        has_voted: false,
                        id: caller_s.clone(),
                        name: name.to_owned(),
                        vote: None,
                        is_spectator: is_spectator,
                    },
                );
                proof {
                    assert(room@.players =~= r.players.push(
                        fresh_player(caller@, name@, is_spectator),
                    ));
                    assert(room@ =~= (RoomV {
                        players: r.players.push(fresh_player(caller@, name@, is_spectator)),
                        ..r
                    }));
                }
            }
            let ghost r1 = room@;
            let snap = snapshot_room(&room);
            let is_host = room.host_id == caller_s;
            let mut out: Vec<Emission> = Vec::new();
            out.push(
                Emission {
                    scope: EmitScope::ToRoom(id),
                    event: OutboundEvent::PlayerJoined(PlayerJoinedEvent { room: snap }),
                },
            );
            let snap2 = snapshot_room(&room);
            out.push(
                Emission {
                    scope: EmitScope::ToCaller,
                    event: OutboundEvent::RoomState(RoomStateEvent { room: snap2, is_host }),
                },
            );
            let ghost pre = reg.rooms@;
            reg.rooms.set(i, room);
            proof {
                let step = join_step(old(reg)@, id, caller@, name@, is_spectator);
                lemma_rooms_view_update(pre, reg.rooms@, i as int, reg.rooms@[i as int]);
                lemma_update_room_at(old(reg)@, id, i as int, r1);
                assert(reg@.rooms =~= step.registry.rooms);
                assert(reg@ =~= step.registry);
                assert(out_view(out@) =~= step.out);
            }
            out
        },
    }
}

/// Handle `joinRoom`: resolve the textual room id and join. A malformed
/// id is answered exactly like an unknown one.
pub fn handle_join_room(reg: &mut Registry, caller: &str, payload: &JoinRoomEvent) -> (out: Vec<
    Emission,
>)
    requires
        old(reg)@.wf(),
    ensures
        final(reg)@.wf(),
        ({
            let step = match parsed_room_id(payload.room_id@) {
                Some(id) => join_step(
                    old(reg)@,
                    id,
                    caller@,
                    payload.name@,
                    payload.is_spectator,
                ),
                None => not_found_step(old(reg)@),
            };
            final(reg)@ == step.registry && out_view(out@) == step.out
        }),
{
    match parse_room_id(payload.room_id.as_str()) {
        Some(id) => join_room(reg, id, caller, payload.name.as_str(), payload.is_spectator),
        None => not_found_out(),
    }
}

// ---------------------------------------------------------------------------
// Vote.
// ---------------------------------------------------------------------------

/// Whether every non-spectator player of the room has voted.
fn all_voted_exec(room: &Room) -> (b: bool)
    ensures
        b == all_voted(room@.players),
{
    let mut k: usize = 0;
    while k < room.players.len()
        invariant
            k <= room.players.len(),
            forall|m: int|
                0 <= m < k as int ==> ((#[trigger] room@.players[m]).is_spectator
                    || room@.players[m].has_voted),
        decreases room.players.len() - k,
    {
        let p = &room.players[k];
        if !p.is_spectator && !p.has_voted {
            proof {
                assert(room@.players[k as int] == room.players@[k as int]@);
            }
            return false;
        }
        proof {
            assert(room@.players[k as int] == room.players@[k as int]@);
        }
        k += 1;
    }
    true
}

/// Cast or replace the caller's vote in the room with the given
/// identifier. A vote by a non-member or by a spectator changes nothing
/// and is not answered. The room hears a redacted snapshot; with
/// `auto_reveal` on, a vote completing the round also reveals the cards.
pub fn cast_vote(reg: &mut Registry, id: u128, caller: &str, vote: u8, auto_reveal: bool) -> (out:
    Vec<Emission>)
    requires
        old(reg)@.wf(),
    ensures
        final(reg)@.wf(),
        final(reg)@ == vote_step(old(reg)@, id, caller@, vote, auto_reveal).registry,
        out_view(out@) == vote_step(old(reg)@, id, caller@, vote, auto_reveal).out,
{
    proof {
        lemma_vote_step_wf(old(reg)@, id, caller@, vote, auto_reveal);
    }
    match reg.find_room_index(id) {
        None => not_found_out(),
        Some(i) => {
            proof {
                lemma_room_idx_is(reg@, id, i as int);
                assert(room_wf(reg@.rooms[i as int]));
            }
            let ghost r = reg@.rooms[i as int];
            let caller_s: String = caller.to_owned();
            match reg.rooms[i].find_player_index(&caller_s) {
                None => {
                    proof {
                        assert(!has_player(r.players, caller@));
                    }
                    Vec::new()
                },
                Some(j) => {
                    proof {
                        lemma_player_idx_is(r.players, caller@, j as int);
                    }
                    if reg.rooms[i].players[j].is_spectator {
                        proof {
                            assert(player_of(r.players, caller@).is_spectator);
                        }
                        Vec::new()
                    } else {
                        let mut room = snapshot_room(&reg.rooms[i]);
                        let mut p = room.players.remove(j);
                        p.vote = Some(vote);
                        p.has_voted = true;
                        room.players.insert(j, p);
                        proof {
                            assert forall|m: int| 0 <= m < room@.players.len() implies room@
                                .players[m] == with_vote(r.players, caller@, vote)[m] by {
                                if m != j as int {
                                    if m < j as int {
                                        assert(r.players[m].id != r.players[j as int].id);
                                    } else {
                                        assert(r.players[j as int].id != r.players[m].id);
                                    }
                                    assert(room.players@[m] == room.players@.remove(
                                        j as int,
                                    ).insert(j as int, room.players@[j as int])[m]);
                                }
                            }
                            assert(room@.players =~= with_vote(r.players, caller@, vote));
                            assert(room@ =~= (RoomV {
                                players: with_vote(r.players, caller@, vote),
                                ..r
                            }));
                        }
                        let redacted_snap = clean_votes(&room);
                        let mut out: Vec<Emission> = Vec::new();
                        out.push(
                            Emission {
                                scope: EmitScope::ToRoom(id),
                                event: OutboundEvent::PlayerVoted(
                                    PlayerVotedEvent { room: redacted_snap },
                                ),
                            },
                        );
                        let everyone = all_voted_exec(&room);
                        if auto_reveal && everyone {
                            room.cards_revealed = true;
                            let snap = snapshot_room(&room);
                            out.push(
                                Emission {
                                    scope: EmitScope::ToRoom(id),
                                    event: OutboundEvent::CardsRevealed(
                                        CardsRevealedEvent { room: snap },
                                    ),
                                },
                            );
                        }
                        let ghost r_final = room@;
                        let ghost pre = reg.rooms@;
                        reg.rooms.set(i, room);
                        proof {
                            let step = vote_step(old(reg)@, id, caller@, vote, auto_reveal);
                            lemma_rooms_view_update(pre, reg.rooms@, i as int, reg.rooms@[i as int]);
                            lemma_update_room_at(old(reg)@, id, i as int, r_final);
                            assert(reg@.rooms =~= step.registry.rooms);
                            assert(reg@ =~= step.registry);
                            assert(out_view(out@) =~= step.out);
                        }
                        out
                    }
                },
            }
        },
    }
}

/// Handle `vote`: resolve the textual room id and cast the vote.
pub fn handle_vote(reg: &mut Registry, caller: &str, payload: &VoteEvent, auto_reveal: bool) -> (out: Vec<Emission>)
    requires
        old(reg)@.wf(),
    ensures
        final(reg)@.wf(),
        ({
            let step = match parsed_room_id(payload.room_id@) {
                Some(id) => vote_step(old(reg)@, id, caller@, payload.vote, auto_reveal),
                None => not_found_step(old(reg)@),
            };
            final(reg)@ == step.registry && out_view(out@) == step.out
        }),
{
    match parse_room_id(payload.room_id.as_str()) {
        Some(id) => cast_vote(reg, id, caller, payload.vote, auto_reveal),
        None => not_found_out(),
    }
}

// ---------------------------------------------------------------------------
// RevealCards.
// ---------------------------------------------------------------------------

/// Reveal the cards of the room with the given identifier. Only the host
/// may reveal; anyone else's attempt changes nothing and is not
/// answered.
pub fn reveal_cards(reg: &mut Registry, id: u128, caller: &str) -> (out: Vec<Emission>)
    requires
        old(reg)@.wf(),
    ensures
        final(reg)@.wf(),
        final(reg)@ == reveal_step(old(reg)@, id, caller@).registry,
        out_view(out@) == reveal_step(old(reg)@, id, caller@).out,
{
    proof {
        lemma_reveal_step_wf(old(reg)@, id, caller@);
    }
    match reg.find_room_index(id) {
        None => not_found_out(),
        Some(i) => {
            proof {
                lemma_room_idx_is(reg@, id, i as int);
            }
            let ghost r = reg@.rooms[i as int];
            let caller_s: String = caller.to_owned();
            let is_host = reg.rooms[i].host_id == caller_s;
            if !is_host {
                Vec::new()
            } else {
                let mut room = snapshot_room(&reg.rooms[i]);
                room.cards_revealed = true;
                proof {
                    assert(room@ =~= (RoomV { cards_revealed: true, ..r }));
                }
                let snap = snapshot_room(&room);
                let mut out: Vec<Emission> = Vec::new();
                out.push(
                    Emission {
                        scope: EmitScope::ToRoom(id),
                        event: OutboundEvent::CardsRevealed(CardsRevealedEvent { room: snap }),
                    },
                );
                let ghost r1 = room@;
                let ghost pre = reg.rooms@;
                reg.rooms.set(i, room);
                proof {
                    let step = reveal_step(old(reg)@, id, caller@);
                    lemma_rooms_view_update(pre, reg.rooms@, i as int, reg.rooms@[i as int]);
                    lemma_update_room_at(old(reg)@, id, i as int, r1);
                    assert(reg@.rooms =~= step.registry.rooms);
                    assert(reg@ =~= step.registry);
                    assert(out_view(out@) =~= step.out);
                }
                out
            }
        },
    }
}

/// Handle `revealCards`: resolve the textual room id and reveal.
pub fn handle_reveal_cards(reg: &mut Registry, caller: &str, payload: &RevealCardsEvent) -> (out:
    Vec<Emission>)
    requires
        old(reg)@.wf(),
    ensures
        final(reg)@.wf(),
        ({
            let step = match parsed_room_id(payload.room_id@) {
                Some(id) => reveal_step(old(reg)@, id, caller@),
                None => not_found_step(old(reg)@),
            };
            final(reg)@ == step.registry && out_view(out@) == step.out
        }),
{
    match parse_room_id(payload.room_id.as_str()) {
        Some(id) => reveal_cards(reg, id, caller),
        None => not_found_out(),
    }
}

// ---------------------------------------------------------------------------
// ResetVotes.
// ---------------------------------------------------------------------------

/// Reset every player's vote in the room with the given identifier and
/// return it to *Voting*. Only the host may reset; anyone else's attempt
/// changes nothing and is not answered.
pub fn reset_votes(reg: &mut Registry, id: u128, caller: &str) -> (out: Vec<Emission>)
    requires
        old(reg)@.wf(),
    ensures
        final(reg)@.wf(),
        final(reg)@ == reset_step(old(reg)@, id, caller@).registry,
        out_view(out@) == reset_step(old(reg)@, id, caller@).out,
{
    proof {
        lemma_reset_step_wf(old(reg)@, id, caller@);
    }
    match reg.find_room_index(id) {
        None => not_found_out(),
        Some(i) => {
            proof {
                lemma_room_idx_is(reg@, id, i as int);
            }
            let ghost r = reg@.rooms[i as int];
            let caller_s: String = caller.to_owned();
            let is_host = reg.rooms[i].host_id == caller_s;
            if !is_host {
                Vec::new()
            } else {
                let src = &reg.rooms[i];
                let mut ps: Vec<Player> = Vec::new();
                let mut k: usize = 0;
                while k < src.players.len()
                    invariant
                        k <= src.players.len(),
                        ps@.len() == k as int,
                        forall|m: int|
                            0 <= m < k as int ==> (#[trigger] ps@[m])@ == cleared(
                                src@.players,
                            )[m],
                    decreases src.players.len() - k,
                {
                    let p = &src.players[k];
                    ps.push(
                        Player {
                            has_voted: false,
                            id: p.id.clone(),
                            name: p.name.clone(),
                            vote: None,
                            is_spectator: p.is_spectator,
                        },
                    );
                    proof {
                        assert(src@.players[k as int] == src.players@[k as int]@);
                        assert(ps@[k as int]@ == cleared(src@.players)[k as int]);
                    }
                    k += 1;
                }
                let room = Room {
                    cards_revealed: false,
                    host_id: src.host_id.clone(),
                    id: src.id,
                    players: ps,
                };
                proof {
                    let qs = room.players@.map_values(|p: Player| p@);
                    assert forall|m: int| 0 <= m < qs.len() implies qs[m] == cleared(
                        r.players,
                    )[m] by {
                        assert(qs[m] == room.players@[m]@);
                    }
                    assert(qs =~= cleared(r.players));
                    assert(room@ =~= (RoomV {
                        cards_revealed: false,
                        players: cleared(r.players),
                        ..r
                    }));
                }
                let snap = snapshot_room(&room);
                let mut out: Vec<Emission> = Vec::new();
                out.push(
                    Emission {
                        scope: EmitScope::ToRoom(id),
                        event: OutboundEvent::VotesReset(VotesResetEvent { room: snap }),
                    },
                );
                let ghost r1 = room@;
                let ghost pre = reg.rooms@;
                reg.rooms.set(i, room);
                proof {
                    let step = reset_step(old(reg)@, id, caller@);
                    lemma_rooms_view_update(pre, reg.rooms@, i as int, reg.rooms@[i as int]);
                    lemma_update_room_at(old(reg)@, id, i as int, r1);
                    assert(reg@.rooms =~= step.registry.rooms);
                    assert(reg@ =~= step.registry);
                    assert(out_view(out@) =~= step.out);
                }
                out
            }
        },
    }
}

/// Handle `resetVotes`: resolve the textual room id and reset.
pub fn handle_reset_votes(reg: &mut Registry, caller: &str, payload: &ResetVotesEvent) -> (out:
    Vec<Emission>)
    requires
        old(reg)@.wf(),
    ensures
        final(reg)@.wf(),
        ({
            let step = match parsed_room_id(payload.room_id@) {
                Some(id) => reset_step(old(reg)@, id, caller@),
                None => not_found_step(old(reg)@),
            };
            final(reg)@ == step.registry && out_view(out@) == step.out
        }),
{
    match parse_room_id(payload.room_id.as_str()) {
        Some(id) => reset_votes(reg, id, caller),
        None => not_found_out(),
    }
}

// ---------------------------------------------------------------------------
// Leaving: exit, host election.
// ---------------------------------------------------------------------------

/// Make the earliest-joined remaining player host. Fails with the
/// room-empty signal when no player remains; the caller then deletes the
/// room.
pub fn elect_new_host(room: &mut Room) -> (r: Result<String, RoomEmptyError>)
    ensures
        old(room)@.players.len() == 0 ==> (r matches Err(_) && final(room)@ == old(room)@),
        old(room)@.players.len() > 0 ==> (r matches Ok(h) && h@ == old(room)@.players[0].id
            && final(room)@ == (RoomV { host_id: old(room)@.players[0].id, ..old(room)@ })),
{
    if room.players.len() > 0 {
        proof {
            assert(room@.players[0] == room.players@[0]@);
        }
        let h = room.players[0].id.clone();
        room.host_id = h.clone();
        Ok(h)
    } else {
        Err(RoomEmptyError)
    }
}

/// A positional removal from the room vector is, at view level, the
/// positional removal from the registry view.
proof fn lemma_rooms_view_remove(pre: Seq<Room>, post: Seq<Room>, i: int)
    requires
        0 <= i < pre.len(),
        post == pre.remove(i),
    ensures
        post.map_values(|r: Room| r@) =~= pre.map_values(|r: Room| r@).remove(i),
{
    let lhs = post.map_values(|r: Room| r@);
    let rhs = pre.map_values(|r: Room| r@).remove(i);
    assert forall|m: int| 0 <= m < lhs.len() implies lhs[m] == rhs[m] by {
        if m < i {
            assert(post[m] == pre[m]);
        } else {
            assert(post[m] == pre[m + 1]);
        }
    }
    assert(lhs =~= rhs);
}

/// A positional removal from a player vector is, at view level, the
/// positional removal from the room view's players.
proof fn lemma_players_view_remove(pre: Seq<Player>, post: Seq<Player>, j: int)
    requires
        0 <= j < pre.len(),
        post == pre.remove(j),
    ensures
        post.map_values(|p: Player| p@) =~= pre.map_values(|p: Player| p@).remove(j),
{
    let lhs = post.map_values(|p: Player| p@);
    let rhs = pre.map_values(|p: Player| p@).remove(j);
    assert forall|m: int| 0 <= m < lhs.len() implies lhs[m] == rhs[m] by {
        if m < j {
            assert(post[m] == pre[m]);
        } else {
            assert(post[m] == pre[m + 1]);
        }
    }
    assert(lhs =~= rhs);
}

/// Remove the caller from the room with the given identifier. An exit by
/// a non-member changes nothing and is not answered. An emptied room is
/// deleted silently; otherwise the remaining players hear the snapshot,
/// and if the host left, the election result.
pub fn exit_room(reg: &mut Registry, id: u128, caller: &str) -> (out: Vec<Emission>)
    requires
        old(reg)@.wf(),
    ensures
        final(reg)@.wf(),
        final(reg)@ == exit_step(old(reg)@, id, caller@).registry,
        out_view(out@) == exit_step(old(reg)@, id, caller@).out,
{
    proof {
        lemma_exit_step_wf(old(reg)@, id, caller@);
    }
    match reg.find_room_index(id) {
        None => not_found_out(),
        Some(i) => {
            proof {
                lemma_room_idx_is(reg@, id, i as int);
                assert(room_wf(reg@.rooms[i as int]));
            }
            let ghost r = reg@.rooms[i as int];
            let caller_s: String = caller.to_owned();
            match reg.rooms[i].find_player_index(&caller_s) {
                None => {
                    proof {
                        assert(!has_player(r.players, caller@));
                    }
                    Vec::new()
                },
                Some(j) => {
                    let mut room = snapshot_room(&reg.rooms[i]);
                    let ghost pre_players = room.players@;
                    let _leaver = room.players.remove(j);
                    proof {
                        lemma_players_view_remove(pre_players, room.players@, j as int);
                        lemma_remove_player_first(r.players, caller@, j as int);
                        assert(room@.players =~= remove_player(r.players, caller@));
                    }
                    if room.players.len() == 0 {
                        let ghost pre = reg.rooms@;
                        let _gone = reg.rooms.remove(i);
                        proof {
                            let step = exit_step(old(reg)@, id, caller@);
                            lemma_remove_room_first(old(reg)@.rooms, id, i as int);
                            lemma_rooms_view_remove(pre, reg.rooms@, i as int);
                            assert(reg@.rooms =~= step.registry.rooms);
                            assert(reg@ =~= step.registry);
                            assert(out_view(Seq::<Emission>::empty()) =~= step.out);
                        }
                        Vec::new()
                    } else {
                        let mut out: Vec<Emission> = Vec::new();
                        let snap = snapshot_room(&room);
                        out.push(
                            Emission {
                                scope: EmitScope::ToRoom(id),
                                event: OutboundEvent::PlayerDisconnected(
                                    PlayerDisconnectedEvent { room: snap },
                                ),
                            },
                        );
                        let was_host = room.host_id == caller_s;
                        if was_host {
                            match elect_new_host(&mut room) {
                                Ok(h) => {
                                    out.push(
                                        Emission {
                                            scope: EmitScope::ToRoom(id),
                                            event: OutboundEvent::NewHostElected(
                                                NewHostElectedEvent { host_id: h },
                                            ),
                                        },
                                    );
                                },
                                Err(_) => {
                                    proof {
                                        assert(false);
                                    }
                                },
                            }
                        }
                        let ghost r_final = room@;
                        let ghost pre = reg.rooms@;
                        reg.rooms.set(i, room);
                        proof {
                            let step = exit_step(old(reg)@, id, caller@);
                            lemma_rooms_view_update(pre, reg.rooms@, i as int, reg.rooms@[i as int]);
                            lemma_update_room_at(old(reg)@, id, i as int, r_final);
                            assert(reg@.rooms =~= step.registry.rooms);
                            assert(reg@ =~= step.registry);
                            assert(out_view(out@) =~= step.out);
                        }
                        out
                    }
                },
            }
        },
    }
}

/// Handle `exitRoom`: resolve the textual room id and leave that room.
pub fn handle_player_exit(reg: &mut Registry, caller: &str, payload: &PlayerExitEvent) -> (out:
    Vec<Emission>)
    requires
        old(reg)@.wf(),
    ensures
        final(reg)@.wf(),
        ({
            let step = match parsed_room_id(payload.room_id@) {
                Some(id) => exit_step(old(reg)@, id, caller@),
                None => not_found_step(old(reg)@),
            };
            final(reg)@ == step.registry && out_view(out@) == step.out
        }),
{
    match parse_room_id(payload.room_id.as_str()) {
        Some(id) => exit_room(reg, id, caller),
        None => not_found_out(),
    }
}

// ---------------------------------------------------------------------------
// Runtime check of the registry invariant.
// ---------------------------------------------------------------------------

/// Whether one room satisfies its invariant: non-empty, unique player
/// ids, host present.
fn room_wf_exec(room: &Room) -> (b: bool)
    ensures
        b == room_wf(room@),
{
    if room.players.len() == 0 {
        return false;
    }
    if room.find_player_index(&room.host_id).is_none() {
        return false;
    }
    let mut i: usize = 1;
    while i < room.players.len()
        invariant
            1 <= i <= room.players.len(),
            room@.players.len() == room.players@.len(),
            forall|a: int, b: int|
                0 <= a < b < i as int ==> (#[trigger] room@.players[a]).id != (
                #[trigger] room@.players[b]).id,
        decreases room.players.len() - i,
    {
        let mut j: usize = 0;
        while j < i
            invariant
                0 <= j <= i < room.players.len(),
                forall|m: int|
                    0 <= m < j as int ==> (#[trigger] room@.players[m]).id != room@.players[i as int].id,
            decreases i - j,
        {
            if room.players[j].id == room.players[i].id {
                proof {
                    assert(room@.players[j as int] == room.players@[j as int]@);
                    assert(room@.players[i as int] == room.players@[i as int]@);
                    assert(!player_ids_unique(room@.players));
                }
                return false;
            }
            proof {
                assert(room@.players[j as int] == room.players@[j as int]@);
                assert(room@.players[i as int] == room.players@[i as int]@);
            }
            j += 1;
        }
        proof {
            assert forall|a: int, b: int| 0 <= a < b < i as int + 1 implies (
            #[trigger] room@.players[a]).id != (#[trigger] room@.players[b]).id by {
                if b < i as int {
                } else {
                    assert(room@.players[a].id != room@.players[i as int].id);
                }
            }
        }
        i += 1;
    }
    true
}

impl Registry {
    /// Whether the registry invariant holds: room ids unique, every room
    /// well formed. The transitions keep it; an embedding program can
    /// check it before handing a registry in.
    pub fn is_well_formed(&self) -> (b: bool)
        ensures
            b == self@.wf(),
    {
        let mut i: usize = 0;
        while i < self.rooms.len()
            invariant
                i <= self.rooms.len(),
                self@.rooms.len() == self.rooms@.len(),
                forall|a: int, b: int|
                    0 <= a < b < i as int ==> (#[trigger] self@.rooms[a]).id != (
                    #[trigger] self@.rooms[b]).id,
                forall|m: int| 0 <= m < i as int ==> room_wf(#[trigger] self@.rooms[m]),
            decreases self.rooms.len() - i,
        {
            if !room_wf_exec(&self.rooms[i]) {
                proof {
                    assert(self@.rooms[i as int] == self.rooms@[i as int]@);
                }
                return false;
            }
            proof {
                assert(self@.rooms[i as int] == self.rooms@[i as int]@);
            }
            let mut j: usize = 0;
            while j < i
                invariant
                    0 <= j <= i < self.rooms.len(),
                    self@.rooms.len() == self.rooms@.len(),
                    forall|m: int|
                        0 <= m < j as int ==> (#[trigger] self@.rooms[m]).id != self@.rooms[i as int].id,
                decreases i - j,
            {
                if self.rooms[j].id == self.rooms[i].id {
                    proof {
                        assert(self@.rooms[j as int] == self.rooms@[j as int]@);
                        assert(self@.rooms[i as int] == self.rooms@[i as int]@);
                        assert(!room_ids_unique(self@.rooms));
                    }
                    return false;
                }
                proof {
                    assert(self@.rooms[j as int] == self.rooms@[j as int]@);
                    assert(self@.rooms[i as int] == self.rooms@[i as int]@);
                }
                j += 1;
            }
            proof {
                assert forall|a: int, b: int| 0 <= a < b < i as int + 1 implies (
                #[trigger] self@.rooms[a]).id != (#[trigger] self@.rooms[b]).id by {
                    if b < i as int {
                    } else {
                        assert(self@.rooms[a].id != self@.rooms[i as int].id);
                    }
                }
            }
            i += 1;
        }
        true
    }
}

// ---------------------------------------------------------------------------
// Disconnect sweep.
// ---------------------------------------------------------------------------

/// Handle a transport-level disconnect: the departing connection leaves
/// every room it belongs to. Emptied rooms are deleted silently; every
/// other affected room hears the snapshot and, when the host left, the
/// election result, in room order.
pub fn handle_disconnect(reg: &mut Registry, caller: &str) -> (out: Vec<Emission>)
    requires
        old(reg)@.wf(),
    ensures
        final(reg)@.wf(),
        final(reg)@ == disconnect_step(old(reg)@, caller@).registry,
        out_view(out@) == disconnect_step(old(reg)@, caller@).out,
{
    proof {
        lemma_disconnect_step_wf(old(reg)@, caller@);
    }
    let caller_s: String = caller.to_owned();
    let mut out: Vec<Emission> = Vec::new();
    let mut i: usize = 0;
    let ghost orig = old(reg)@.rooms;
    let ghost mut k: int = 0;
    proof {
        assert(orig.subrange(0, orig.len() as int) =~= orig);
        assert(reg@.rooms.subrange(0, 0) =~= Seq::<RoomV>::empty());
        assert(Seq::<RoomV>::empty() + sweep(orig, caller@).0 =~= sweep(orig, caller@).0);
        assert(out_view(out@) =~= Seq::<EmissionV>::empty());
        assert(Seq::<EmissionV>::empty() + sweep(orig, caller@).1 =~= sweep(orig, caller@).1);
    }
    while i < reg.rooms.len()
        invariant
            old(reg)@.wf(),
            orig == old(reg)@.rooms,
            caller_s@ == caller@,
            0 <= i as int <= reg@.rooms.len(),
            0 <= k <= orig.len(),
            reg@.rooms.len() - i as int == orig.len() - k,
            forall|m: int|
                i as int <= m < reg@.rooms.len() ==> #[trigger] reg@.rooms[m] == orig[k + (m
                    - i as int)],
            sweep(orig, caller@).0 == reg@.rooms.subrange(0, i as int) + sweep(
                orig.subrange(k, orig.len() as int),
                caller@,
            ).0,
            sweep(orig, caller@).1 == out_view(out@) + sweep(
                orig.subrange(k, orig.len() as int),
                caller@,
            ).1,
        decreases reg.rooms.len() - i,
    {
        let ghost pending = orig.subrange(k, orig.len() as int);
        let ghost tail = orig.subrange(k + 1, orig.len() as int);
        let ghost done = reg@.rooms.subrange(0, i as int);
        proof {
            assert(pending.len() > 0);
            assert(pending[0] == orig[k]);
            assert(pending[0] == reg@.rooms[i as int]);
            assert(pending.drop_first() =~= tail);
            assert(room_wf(orig[k]));
            assert(sweep(pending.drop_first(), caller@) == sweep(tail, caller@));
        }
        let cur_id = reg.rooms[i].id;
        match reg.rooms[i].find_player_index(&caller_s) {
            None => {
                proof {
                    assert(reg@.rooms[i as int] == reg.rooms@[i as int]@);
                    assert(!has_player(pending[0].players, caller@));
                    let s_pend = sweep(pending, caller@);
                    let s_tail = sweep(tail, caller@);
                    assert(s_pend.0 == seq![pending[0]] + s_tail.0);
                    assert(s_pend.1 == s_tail.1);
                    assert(reg@.rooms.subrange(0, i as int + 1) =~= done.push(pending[0]));
                    assert(done + (seq![pending[0]] + s_tail.0) =~= done.push(pending[0])
                        + s_tail.0);
                    k = k + 1;
                    assert(orig.subrange(k, orig.len() as int) == tail);
                }
                i += 1;
            },
            Some(j) => {
                proof {
                    assert(reg@.rooms[i as int] == reg.rooms@[i as int]@);
                }
                let mut room = snapshot_room(&reg.rooms[i]);
                let ghost pre_players = room.players@;
                let _leaver = room.players.remove(j);
                proof {
                    lemma_players_view_remove(pre_players, room.players@, j as int);
                    lemma_remove_player_first(orig[k].players, caller@, j as int);
                    assert(room@.players =~= remove_player(orig[k].players, caller@));
                    assert(room@ =~= (RoomV {
                        players: remove_player(orig[k].players, caller@),
                        ..orig[k]
                    }));
                }
                if room.players.len() == 0 {
                    let ghost pre = reg.rooms@;
                    let _gone = reg.rooms.remove(i);
                    proof {
                        lemma_rooms_view_remove(pre, reg.rooms@, i as int);
                        let s_pend = sweep(pending, caller@);
                        let s_tail = sweep(tail, caller@);
                        let (kept, ems) = leave_outcome(pending[0], caller@);
                        assert(remove_player(pending[0].players, caller@).len() == 0);
                        assert(kept is None && ems =~= Seq::<EmissionV>::empty());
                        assert(s_pend.0 == s_tail.0);
                        assert(s_pend.1 == ems + s_tail.1);
                        assert(ems + s_tail.1 =~= s_tail.1);
                        assert(reg@.rooms.subrange(0, i as int) =~= done);
                        k = k + 1;
                        assert(orig.subrange(k, orig.len() as int) == tail);
                        assert forall|m: int| i as int <= m < reg@.rooms.len() implies #[trigger] reg@
                            .rooms[m] == orig[k + (m - i as int)] by {
                            assert(reg@.rooms[m] == pre.map_values(|r: Room| r@)[m + 1]);
                        }
                    }
                } else {
                    let ghost out_before = out@;
                    let snap = snapshot_room(&room);
                    out.push(
                        Emission {
                            scope: EmitScope::ToRoom(cur_id),
                            event: OutboundEvent::PlayerDisconnected(
                                PlayerDisconnectedEvent { room: snap },
                            ),
                        },
                    );
                    let was_host = room.host_id == caller_s;
                    if was_host {
                        match elect_new_host(&mut room) {
                            Ok(h) => {
                                out.push(
                                    Emission {
                                        scope: EmitScope::ToRoom(cur_id),
                                        event: OutboundEvent::NewHostElected(
                                            NewHostElectedEvent { host_id: h },
                                        ),
                                    },
                                );
                            },
                            Err(_) => {
                                proof {
                                    assert(false);
                                }
                            },
                        }
                    }
                    let ghost r_final = room@;
                    let ghost pre = reg.rooms@;
                    reg.rooms.set(i, room);
                    proof {
                        lemma_rooms_view_update(pre, reg.rooms@, i as int, reg.rooms@[i as int]);
                        let s_pend = sweep(pending, caller@);
                        let s_tail = sweep(tail, caller@);
                        let (kept, ems) = leave_outcome(pending[0], caller@);
                        let ps = remove_player(pending[0].players, caller@);
                        assert(ps.len() > 0);
                        assert(pending[0].id == cur_id);
                        assert(kept == Some(r_final));
                        assert(s_pend.0 == seq![r_final] + s_tail.0);
                        assert(s_pend.1 == ems + s_tail.1);
                        assert(out_view(out@) =~= out_view(out_before) + ems);
                        assert(out_view(out_before) + (ems + s_tail.1) =~= out_view(out@)
                            + s_tail.1);
                        assert(reg@.rooms.subrange(0, i as int + 1) =~= done.push(r_final));
                        assert(done + (seq![r_final] + s_tail.0) =~= done.push(r_final)
                            + s_tail.0);
                        k = k + 1;
                        assert(orig.subrange(k, orig.len() as int) == tail);
                    }
                    i += 1;
                }
            },
        }
    }
    proof {
        assert(i as int == reg@.rooms.len());
        assert(k == orig.len());
        let empty_pending = orig.subrange(k, orig.len() as int);
        assert(empty_pending.len() == 0);
        assert(sweep(empty_pending, caller@).0 =~= Seq::<RoomV>::empty());
        assert(sweep(empty_pending, caller@).1 =~= Seq::<EmissionV>::empty());
        assert(reg@.rooms.subrange(0, i as int) =~= reg@.rooms);
        assert(reg@.rooms.subrange(0, i as int) + sweep(empty_pending, caller@).0 =~= reg@.rooms);
        assert(out_view(out@) + sweep(empty_pending, caller@).1 =~= out_view(out@));
        assert(reg@.rooms =~= disconnect_step(old(reg)@, caller@).registry.rooms);
        assert(reg@ =~= disconnect_step(old(reg)@, caller@).registry);
    }
    out
}

// ---------------------------------------------------------------------------
// Registry lookup by textual id.
// ---------------------------------------------------------------------------

impl Registry {
    /// Resolve a textual room id to the index of the live room it names.
    /// A malformed id is answered exactly like an unknown one, with the
    /// error carrying the rejected text.
    pub fn lookup_room(&self, room_id: &str) -> (r: Result<usize, RoomNotFoundError>)
        ensures
            ({
                match r {
                    Ok(i) => {
                        &&& (i as int) < self@.rooms.len()
                        &&& parsed_room_id(room_id@) == Some(self@.rooms[i as int].id)
                    },
                    Err(e) => {
                        &&& e.room_id@ == room_id@
                        &&& match parsed_room_id(room_id@) {
                            Some(id) => !has_room(self@, id),
                            None => true,
                        }
                    },
                }
            }),
    {
        match parse_room_id(room_id) {
            Some(id) => match self.find_room_index(id) {
                Some(i) => Ok(i),
                None => Err(RoomNotFoundError { room_id: room_id.to_owned() }),
            },
            None => Err(RoomNotFoundError { room_id: room_id.to_owned() }),
        }
    }
}

} // verus!
