//! The protocol's laws, proved once and for all over the transition
//! functions of [`crate::model`] — and thereby, through the contracts of
//! [`crate::engine`], over the executable handlers.

use vstd::prelude::*;

use crate::model::{
    all_voted, cleared, create_step, disconnect_step, exit_step, fresh_player, fresh_room,
    has_player, has_room, join_step, lemma_create_step_wf, lemma_disconnect_step_wf,
    lemma_exit_step_wf, lemma_join_step_wf, lemma_reset_step_wf, lemma_reveal_step_wf,
    lemma_room_idx_is, lemma_update_room_at, lemma_vote_step_wf, player_of, redacted,
    reset_step, reveal_step, room_idx, room_of, room_wf, silent_step, update_room, vote_step,
    votes_absent, with_vote,
};
use crate::types::{EmissionV, OutboundEventV, PlayerV, RegistryV, RoomV};

verus! {

// ---------------------------------------------------------------------------
// Invariant preservation over whole histories.
// ---------------------------------------------------------------------------

/// One inbound operation of the protocol, at model level.
pub ghost enum OpV {
    Create { id: u128, caller: Seq<char>, name: Seq<char>, is_spectator: bool },
    Join { id: u128, caller: Seq<char>, name: Seq<char>, is_spectator: bool },
    Vote { id: u128, caller: Seq<char>, vote: u8, auto_reveal: bool },
    Reveal { id: u128, caller: Seq<char> },
    Reset { id: u128, caller: Seq<char> },
    Exit { id: u128, caller: Seq<char> },
    Disconnect { caller: Seq<char> },
}

/// The registry after one operation.
pub open spec fn apply_op(reg: RegistryV, op: OpV) -> RegistryV {
    match op {
        OpV::Create { id, caller, name, is_spectator } => create_step(
            reg,
            id,
            caller,
            name,
            is_spectator,
        ).registry,
        OpV::Join { id, caller, name, is_spectator } => join_step(
            reg,
            id,
            caller,
            name,
            is_spectator,
        ).registry,
        OpV::Vote { id, caller, vote, auto_reveal } => vote_step(
            reg,
            id,
            caller,
            vote,
            auto_reveal,
        ).registry,
        OpV::Reveal { id, caller } => reveal_step(reg, id, caller).registry,
        OpV::Reset { id, caller } => reset_step(reg, id, caller).registry,
        OpV::Exit { id, caller } => exit_step(reg, id, caller).registry,
        OpV::Disconnect { caller } => disconnect_step(reg, caller).registry,
    }
}

/// The registry after a whole history of operations, applied in order.
pub open spec fn apply_ops(reg: RegistryV, ops: Seq<OpV>) -> RegistryV
    decreases ops.len(),
{
    if ops.len() == 0 {
        reg
    } else {
        apply_ops(apply_op(reg, ops[0]), ops.drop_first())
    }
}

/// Any single operation preserves the registry invariant.
pub proof fn lemma_op_preserves_invariants(reg: RegistryV, op: OpV)
    requires
        reg.wf(),
    ensures
        apply_op(reg, op).wf(),
{
    match op {
        OpV::Create { id, caller, name, is_spectator } => lemma_create_step_wf(
            reg,
            id,
            caller,
            name,
            is_spectator,
        ),
        OpV::Join { id, caller, name, is_spectator } => lemma_join_step_wf(
            reg,
            id,
            caller,
            name,
            is_spectator,
        ),
        OpV::Vote { id, caller, vote, auto_reveal } => lemma_vote_step_wf(
            reg,
            id,
            caller,
            vote,
            auto_reveal,
        ),
        OpV::Reveal { id, caller } => lemma_reveal_step_wf(reg, id, caller),
        OpV::Reset { id, caller } => lemma_reset_step_wf(reg, id, caller),
        OpV::Exit { id, caller } => lemma_exit_step_wf(reg, id, caller),
        OpV::Disconnect { caller } => lemma_disconnect_step_wf(reg, caller),
    }
}

/// LAW: after every sequence of operations — joins and leaves included —
/// each room still in the registry is well formed: it is non-empty and
/// its host is one of its members. A room that would violate this is
/// gone from the registry instead.
pub proof fn lemma_ops_preserve_invariants(reg: RegistryV, ops: Seq<OpV>)
    requires
        reg.wf(),
    ensures
        apply_ops(reg, ops).wf(),
    decreases ops.len(),
{
    if ops.len() > 0 {
        lemma_op_preserves_invariants(reg, ops[0]);
        lemma_ops_preserve_invariants(apply_op(reg, ops[0]), ops.drop_first());
    }
}

/// LAW, read on one room: in a well-formed registry, the host of every
/// room that exists is a present member of that room.
pub proof fn lemma_host_is_member(reg: RegistryV, id: u128)
    requires
        reg.wf(),
        has_room(reg, id),
    ensures
        has_player(room_of(reg, id).players, room_of(reg, id).host_id),
{
    assert(0 <= room_idx(reg, id) < reg.rooms.len() && reg.rooms[room_idx(reg, id)].id == id);
    assert(room_wf(room_of(reg, id)));
}

// ---------------------------------------------------------------------------
// Reset clears everything.
// ---------------------------------------------------------------------------

/// LAW: after the host's `ResetVotes`, every player's vote is absent,
/// every voted flag is down, and the room is back in *Voting* — whatever
/// the prior state was.
pub proof fn lemma_reset_clears_votes(reg: RegistryV, id: u128, caller: Seq<char>)
    requires
        reg.wf(),
        has_room(reg, id),
        room_of(reg, id).host_id == caller,
    ensures
        ({
            let reg2 = reset_step(reg, id, caller).registry;
            let r2 = room_of(reg2, id);
            &&& has_room(reg2, id)
            &&& !r2.cards_revealed
            &&& votes_absent(r2)
            &&& forall|i: int| 0 <= i < r2.players.len() ==> !(#[trigger] r2.players[i]).has_voted
        }),
{
    let i = room_idx(reg, id);
    assert(0 <= i < reg.rooms.len() && reg.rooms[i].id == id);
    let r = room_of(reg, id);
    let r1 = RoomV { cards_revealed: false, players: cleared(r.players), ..r };
    let reg2 = reset_step(reg, id, caller).registry;
    lemma_update_room_at(reg, id, i, r1);
    lemma_reset_step_wf(reg, id, caller);
    assert(reg2.rooms[i] == r1);
    lemma_room_idx_is(reg2, id, i);
    assert(room_of(reg2, id) == r1);
}

// ---------------------------------------------------------------------------
// A vote by an outsider is a silent no-op.
// ---------------------------------------------------------------------------

/// LAW: a `Vote` by a connection that is not a member of the room leaves
/// the registry exactly as it was and emits nothing at all.
pub proof fn lemma_vote_by_non_member_is_noop(
    reg: RegistryV,
    id: u128,
    caller: Seq<char>,
    vote: u8,
    auto_reveal: bool,
)
    requires
        has_room(reg, id),
        !has_player(room_of(reg, id).players, caller),
    ensures
        vote_step(reg, id, caller, vote, auto_reveal).registry == reg,
        vote_step(reg, id, caller, vote, auto_reveal).out == Seq::<EmissionV>::empty(),
{
}

// ---------------------------------------------------------------------------
// Vote broadcasts are redacted.
// ---------------------------------------------------------------------------

/// Redaction removes every vote value.
pub proof fn lemma_redacted_votes_absent(r: RoomV)
    ensures
        votes_absent(redacted(r)),
{
    assert forall|i: int| 0 <= i < redacted(r).players.len() implies (#[trigger] redacted(
        r,
    ).players[i]).vote is None by {
        assert(redacted(r).players[i] == (PlayerV { vote: None, ..r.players[i] }));
    }
}

/// LAW: whatever a `Vote` broadcasts as `playerVoted` carries a fully
/// redacted room: no player's vote value is present in it. Vote values
/// leave the registry only through a reveal.
pub proof fn lemma_vote_broadcasts_redacted(
    reg: RegistryV,
    id: u128,
    caller: Seq<char>,
    vote: u8,
    auto_reveal: bool,
)
    ensures
        ({
            let out = vote_step(reg, id, caller, vote, auto_reveal).out;
            forall|j: int|
                0 <= j < out.len() ==> ((#[trigger] out[j].event) matches
                    OutboundEventV::PlayerVoted { room } ==> votes_absent(room))
        }),
{
    if has_room(reg, id) {
        let r = room_of(reg, id);
        if has_player(r.players, caller) && !player_of(r.players, caller).is_spectator {
            let r1 = RoomV { players: with_vote(r.players, caller, vote), ..r };
            lemma_redacted_votes_absent(r1);
        }
    }
}

// ---------------------------------------------------------------------------
// Two creations, two rooms.
// ---------------------------------------------------------------------------

/// LAW: two `CreateRoom` calls by the same connection, each under an
/// identifier that is fresh at its moment, produce two distinct room
/// identifiers, and each room has that connection as its sole member and
/// host.
pub proof fn lemma_two_creates_distinct(
    reg: RegistryV,
    id1: u128,
    id2: u128,
    caller: Seq<char>,
    name1: Seq<char>,
    name2: Seq<char>,
    sp1: bool,
    sp2: bool,
)
    requires
        reg.wf(),
        !has_room(reg, id1),
        !has_room(create_step(reg, id1, caller, name1, sp1).registry, id2),
    ensures
        id1 != id2,
        ({
            let reg1 = create_step(reg, id1, caller, name1, sp1).registry;
            let reg2 = create_step(reg1, id2, caller, name2, sp2).registry;
            &&& has_room(reg2, id1)
            &&& has_room(reg2, id2)
            &&& room_of(reg2, id1) == fresh_room(id1, caller, name1, sp1)
            &&& room_of(reg2, id2) == fresh_room(id2, caller, name2, sp2)
            &&& room_of(reg2, id1).host_id == caller
            &&& room_of(reg2, id2).host_id == caller
            &&& room_of(reg2, id1).players == seq![fresh_player(caller, name1, sp1)]
            &&& room_of(reg2, id2).players == seq![fresh_player(caller, name2, sp2)]
        }),
{
    let reg1 = create_step(reg, id1, caller, name1, sp1).registry;
    let reg2 = create_step(reg1, id2, caller, name2, sp2).registry;
    lemma_create_step_wf(reg, id1, caller, name1, sp1);
    lemma_create_step_wf(reg1, id2, caller, name2, sp2);
    let n = reg.rooms.len() as int;
    assert(reg1.rooms[n] == fresh_room(id1, caller, name1, sp1));
    assert(has_room(reg1, id1));
    assert(id1 != id2);
    assert(reg2.rooms[n] == fresh_room(id1, caller, name1, sp1));
    assert(reg2.rooms[n + 1] == fresh_room(id2, caller, name2, sp2));
    lemma_room_idx_is(reg2, id1, n);
    lemma_room_idx_is(reg2, id2, n + 1);
}

} // verus!
