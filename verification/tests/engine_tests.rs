//! Tests of the single-room transitions: create, join, vote, reveal,
//! reset, and the textual-id handlers around them.

use planning_poker::engine::{
    cast_vote, create_room, handle_create_room, handle_join_room, handle_reset_votes,
    handle_reveal_cards, handle_vote, reset_votes, reveal_cards,
};
use planning_poker::types::{
    CreateRoomEvent, EmitScope, JoinRoomEvent, OutboundEvent, Registry, ResetVotesEvent,
    RevealCardsEvent, Room, VoteEvent,
};

fn uuid_str(id: u128) -> String {
    uuid::Uuid::from_u128(id).to_string()
}

fn create_event(name: &str) -> CreateRoomEvent {
    CreateRoomEvent {
        name: name.to_string(),
        is_spectator: false,
    }
}

fn join_event(room_id: String, name: &str) -> JoinRoomEvent {
    JoinRoomEvent {
        name: name.to_string(),
        room_id,
        is_spectator: false,
    }
}

fn new_room(host: &str, name: &str) -> (Registry, u128) {
    let mut reg = Registry::new();
    let (id, out) = handle_create_room(&mut reg, host, &create_event(name));
    assert_eq!(out.len(), 1);
    (reg, id)
}

fn the_room<'a>(reg: &'a Registry, id: u128) -> &'a Room {
    let i = reg.find_room_index(id).expect("room should exist");
    &reg.rooms[i]
}

#[test]
fn create_room_makes_caller_sole_host() {
    let (reg, id) = new_room("h1", "Hanna");
    assert_eq!(reg.rooms.len(), 1);
    let room = the_room(&reg, id);
    assert_eq!(room.host_id, "h1");
    assert_eq!(room.players.len(), 1);
    assert_eq!(room.players[0].id, "h1");
    assert_eq!(room.players[0].name, "Hanna");
    assert_eq!(room.players[0].vote, None);
    assert!(!room.players[0].has_voted);
    assert!(!room.cards_revealed);
}

#[test]
fn create_room_answers_caller_with_host_flag() {
    let mut reg = Registry::new();
    let (_, out) = handle_create_room(&mut reg, "h1", &create_event("Hanna"));
    assert_eq!(out.len(), 1);
    assert_eq!(out[0].scope, EmitScope::ToCaller);
    match &out[0].event {
        OutboundEvent::RoomCreated(e) => {
            assert!(e.is_host);
            assert_eq!(e.room.host_id, "h1");
            assert_eq!(e.room.players.len(), 1);
        }
        other => panic!("expected roomCreated, got {:?}", other),
    }
}

#[test]
fn two_creates_give_distinct_rooms_each_sole_host() {
    let mut reg = Registry::new();
    let (id1, _) = handle_create_room(&mut reg, "h1", &create_event("one"));
    let (id2, _) = handle_create_room(&mut reg, "h1", &create_event("two"));
    assert_ne!(id1, id2);
    assert_eq!(reg.rooms.len(), 2);
    for id in [id1, id2] {
        let room = the_room(&reg, id);
        assert_eq!(room.host_id, "h1");
        assert_eq!(room.players.len(), 1);
    }
}

#[test]
fn create_with_taken_id_changes_nothing() {
    let (mut reg, id) = new_room("h1", "Hanna");
    let out = create_room(&mut reg, id, "h2", "Ivan", false);
    assert!(out.is_empty());
    assert_eq!(reg.rooms.len(), 1);
    assert_eq!(the_room(&reg, id).host_id, "h1");
}

#[test]
fn join_adds_player_and_broadcasts() {
    let (mut reg, id) = new_room("h1", "Hanna");
    let out = handle_join_room(&mut reg, "p2", &join_event(uuid_str(id), "Pia"));
    let room = the_room(&reg, id);
    assert_eq!(room.players.len(), 2);
    assert_eq!(room.players[1].id, "p2");
    assert_eq!(room.players[1].name, "Pia");
    assert_eq!(out.len(), 2);
    assert_eq!(out[0].scope, EmitScope::ToRoom(id));
    match &out[0].event {
        OutboundEvent::PlayerJoined(e) => assert_eq!(e.room.players.len(), 2),
        other => panic!("expected playerJoined, got {:?}", other),
    }
    assert_eq!(out[1].scope, EmitScope::ToCaller);
    match &out[1].event {
        OutboundEvent::RoomState(e) => {
            assert!(!e.is_host);
            assert_eq!(e.room.players.len(), 2);
        }
        other => panic!("expected roomState, got {:?}", other),
    }
}

#[test]
fn join_is_idempotent_for_a_member() {
    let (mut reg, id) = new_room("h1", "Hanna");
    handle_join_room(&mut reg, "p2", &join_event(uuid_str(id), "Pia"));
    let out = handle_join_room(&mut reg, "p2", &join_event(uuid_str(id), "Pia again"));
    let room = the_room(&reg, id);
    assert_eq!(room.players.len(), 2);
    assert_eq!(room.players[1].name, "Pia");
    // the snapshot is still broadcast, and the caller still hears their flag
    assert_eq!(out.len(), 2);
}

#[test]
fn join_with_malformed_id_yields_room_not_found() {
    let mut reg = Registry::new();
    let out = handle_join_room(&mut reg, "p2", &join_event("not-a-uuid".to_string(), "Pia"));
    assert_eq!(out.len(), 1);
    assert_eq!(out[0].scope, EmitScope::ToCaller);
    assert!(matches!(out[0].event, OutboundEvent::RoomNotFound(_)));
    assert!(reg.rooms.is_empty());
}

#[test]
fn join_with_unknown_id_yields_room_not_found() {
    let (mut reg, id) = new_room("h1", "Hanna");
    let other = uuid_str(id.wrapping_add(1));
    let out = handle_join_room(&mut reg, "p2", &join_event(other, "Pia"));
    assert_eq!(out.len(), 1);
    assert!(matches!(out[0].event, OutboundEvent::RoomNotFound(_)));
    assert_eq!(the_room(&reg, id).players.len(), 1);
}

#[test]
fn vote_is_recorded_and_broadcast_redacted() {
    let (mut reg, id) = new_room("h1", "Hanna");
    handle_join_room(&mut reg, "p2", &join_event(uuid_str(id), "Pia"));
    let out = handle_vote(
        &mut reg,
        "p2",
        &VoteEvent {
            room_id: uuid_str(id),
            vote: 5,
        },
        false,
    );
    let room = the_room(&reg, id);
    assert_eq!(room.players[1].vote, Some(5));
    assert!(room.players[1].has_voted);
    assert!(!room.cards_revealed);
    assert_eq!(out.len(), 1);
    assert_eq!(out[0].scope, EmitScope::ToRoom(id));
    match &out[0].event {
        OutboundEvent::PlayerVoted(e) => {
            // redaction: no vote value in the broadcast, flags preserved
            for p in &e.room.players {
                assert_eq!(p.vote, None);
            }
            assert!(e.room.players[1].has_voted);
            assert!(!e.room.players[0].has_voted);
        }
        other => panic!("expected playerVoted, got {:?}", other),
    }
}

#[test]
fn vote_replaces_previous_vote() {
    let (mut reg, id) = new_room("h1", "Hanna");
    cast_vote(&mut reg, id, "h1", 3, false);
    cast_vote(&mut reg, id, "h1", 8, false);
    let room = the_room(&reg, id);
    assert_eq!(room.players[0].vote, Some(8));
}

#[test]
fn vote_by_non_member_changes_nothing_and_answers_nothing() {
    let (mut reg, id) = new_room("h1", "Hanna");
    let out = cast_vote(&mut reg, id, "stranger", 5, true);
    assert!(out.is_empty());
    let room = the_room(&reg, id);
    assert_eq!(room.players.len(), 1);
    assert_eq!(room.players[0].vote, None);
    assert!(!room.cards_revealed);
}

#[test]
fn vote_by_spectator_changes_nothing() {
    let (mut reg, id) = new_room("h1", "Hanna");
    let mut ev = join_event(uuid_str(id), "Watcher");
    ev.is_spectator = true;
    handle_join_room(&mut reg, "s1", &ev);
    let out = cast_vote(&mut reg, id, "s1", 5, true);
    assert!(out.is_empty());
    let room = the_room(&reg, id);
    assert_eq!(room.players[1].vote, None);
    assert!(!room.players[1].has_voted);
}

#[test]
fn auto_reveal_fires_when_all_non_spectators_voted() {
    let (mut reg, id) = new_room("h1", "Hanna");
    handle_join_room(&mut reg, "p2", &join_event(uuid_str(id), "Pia"));
    let out1 = cast_vote(&mut reg, id, "p2", 5, true);
    assert_eq!(out1.len(), 1);
    assert!(!the_room(&reg, id).cards_revealed);
    let out2 = cast_vote(&mut reg, id, "h1", 8, true);
    assert_eq!(out2.len(), 2);
    assert!(matches!(out2[0].event, OutboundEvent::PlayerVoted(_)));
    match &out2[1].event {
        OutboundEvent::CardsRevealed(e) => {
            assert!(e.room.cards_revealed);
            assert_eq!(e.room.players[0].vote, Some(8));
            assert_eq!(e.room.players[1].vote, Some(5));
        }
        other => panic!("expected cardsRevealed, got {:?}", other),
    }
    assert!(the_room(&reg, id).cards_revealed);
}

#[test]
fn auto_reveal_ignores_spectators() {
    let (mut reg, id) = new_room("h1", "Hanna");
    let mut ev = join_event(uuid_str(id), "Watcher");
    ev.is_spectator = true;
    handle_join_room(&mut reg, "s1", &ev);
    // the sole non-spectator voting completes the round
    let out = cast_vote(&mut reg, id, "h1", 2, true);
    assert_eq!(out.len(), 2);
    assert!(the_room(&reg, id).cards_revealed);
}

#[test]
fn no_auto_reveal_when_toggle_is_off() {
    let (mut reg, id) = new_room("h1", "Hanna");
    let out = cast_vote(&mut reg, id, "h1", 2, false);
    assert_eq!(out.len(), 1);
    assert!(!the_room(&reg, id).cards_revealed);
}

#[test]
fn reveal_by_host_broadcasts_full_room() {
    let (mut reg, id) = new_room("h1", "Hanna");
    cast_vote(&mut reg, id, "h1", 13, false);
    let out = handle_reveal_cards(
        &mut reg,
        "h1",
        &RevealCardsEvent {
            room_id: uuid_str(id),
        },
    );
    assert!(the_room(&reg, id).cards_revealed);
    assert_eq!(out.len(), 1);
    assert_eq!(out[0].scope, EmitScope::ToRoom(id));
    match &out[0].event {
        OutboundEvent::CardsRevealed(e) => assert_eq!(e.room.players[0].vote, Some(13)),
        other => panic!("expected cardsRevealed, got {:?}", other),
    }
}

#[test]
fn reveal_by_non_host_is_rejected_silently() {
    let (mut reg, id) = new_room("h1", "Hanna");
    handle_join_room(&mut reg, "p2", &join_event(uuid_str(id), "Pia"));
    let out = reveal_cards(&mut reg, id, "p2");
    assert!(out.is_empty());
    assert!(!the_room(&reg, id).cards_revealed);
}

#[test]
fn reveal_on_unknown_room_yields_room_not_found() {
    let mut reg = Registry::new();
    let out = handle_reveal_cards(
        &mut reg,
        "h1",
        &RevealCardsEvent {
            room_id: uuid_str(7),
        },
    );
    assert_eq!(out.len(), 1);
    assert!(matches!(out[0].event, OutboundEvent::RoomNotFound(_)));
}

#[test]
fn reset_clears_votes_and_returns_to_voting() {
    let (mut reg, id) = new_room("h1", "Hanna");
    handle_join_room(&mut reg, "p2", &join_event(uuid_str(id), "Pia"));
    cast_vote(&mut reg, id, "p2", 5, true);
    cast_vote(&mut reg, id, "h1", 8, true);
    assert!(the_room(&reg, id).cards_revealed);
    let out = handle_reset_votes(
        &mut reg,
        "h1",
        &ResetVotesEvent {
            room_id: uuid_str(id),
        },
    );
    let room = the_room(&reg, id);
    assert!(!room.cards_revealed);
    for p in &room.players {
        assert_eq!(p.vote, None);
        assert!(!p.has_voted);
    }
    assert_eq!(out.len(), 1);
    assert_eq!(out[0].scope, EmitScope::ToRoom(id));
    match &out[0].event {
        OutboundEvent::VotesReset(e) => {
            assert!(!e.room.cards_revealed);
            for p in &e.room.players {
                assert_eq!(p.vote, None);
                assert!(!p.has_voted);
            }
        }
        other => panic!("expected votesReset, got {:?}", other),
    }
}

#[test]
fn reset_by_non_host_is_rejected_silently() {
    let (mut reg, id) = new_room("h1", "Hanna");
    handle_join_room(&mut reg, "p2", &join_event(uuid_str(id), "Pia"));
    cast_vote(&mut reg, id, "h1", 8, false);
    let out = reset_votes(&mut reg, id, "p2");
    assert!(out.is_empty());
    assert_eq!(the_room(&reg, id).players[0].vote, Some(8));
}

#[test]
fn join_room_round_trips_through_the_textual_id() {
    // the textual id a client would hold resolves back to the same room
    let (mut reg, id) = new_room("h1", "Hanna");
    let text = uuid_str(id);
    let out = handle_join_room(&mut reg, "p2", &join_event(text, "Pia"));
    assert_eq!(out.len(), 2);
    assert_eq!(the_room(&reg, id).players.len(), 2);
    // the simple (unhyphenated) form names the same room
    let simple = uuid::Uuid::from_u128(id).simple().to_string();
    let out2 = handle_join_room(&mut reg, "p3", &join_event(simple, "Ana"));
    assert_eq!(out2.len(), 2);
    assert_eq!(the_room(&reg, id).players.len(), 3);
}

#[test]
fn lookup_room_rejects_malformed_and_unknown_ids() {
    let (reg, id) = new_room("h1", "Hanna");
    let ok = reg.lookup_room(&uuid_str(id));
    assert!(ok.is_ok());
    let bad = reg.lookup_room("definitely not a uuid");
    match bad {
        Err(e) => assert_eq!(e.room_id, "definitely not a uuid"),
        Ok(_) => panic!("malformed id must not resolve"),
    }
    let unknown = reg.lookup_room(&uuid_str(id.wrapping_add(1)));
    assert!(unknown.is_err());
}

#[test]
fn join_vote_reveal_reset_scenario() {
    // create as h1, join as p2, p2 votes 5, h1 votes 8 with auto-reveal on:
    // the room reveals with both votes visible; h1 resets; p2 cannot reveal.
    let (mut reg, id) = new_room("h1", "Hanna");
    handle_join_room(&mut reg, "p2", &join_event(uuid_str(id), "Pia"));
    cast_vote(&mut reg, id, "p2", 5, true);
    let out = cast_vote(&mut reg, id, "h1", 8, true);
    assert_eq!(out.len(), 2);
    {
        let room = the_room(&reg, id);
        assert!(room.cards_revealed);
        assert_eq!(room.players[0].vote, Some(8));
        assert_eq!(room.players[1].vote, Some(5));
    }
    reset_votes(&mut reg, id, "h1");
    {
        let room = the_room(&reg, id);
        assert!(!room.cards_revealed);
        assert_eq!(room.players[0].vote, None);
        assert_eq!(room.players[1].vote, None);
    }
    // p2 is not host: the reveal attempt is dropped
    let rejected = reveal_cards(&mut reg, id, "p2");
    assert!(rejected.is_empty());
    assert!(!the_room(&reg, id).cards_revealed);
}
