//! Tests of leaving: voluntary exit, the disconnect sweep, host
//! election, and deletion of emptied rooms.

use planning_poker::engine::{
    elect_new_host, exit_room, handle_create_room, handle_disconnect, handle_join_room,
    handle_player_exit,
};
use planning_poker::types::{
    CreateRoomEvent, EmitScope, JoinRoomEvent, OutboundEvent, Player, PlayerExitEvent, Registry,
    Room,
};

fn uuid_str(id: u128) -> String {
    uuid::Uuid::from_u128(id).to_string()
}

fn create_event(name: &str) -> CreateRoomEvent {
    CreateRoomEvent {
        name: name.to_string(),
        is_spectator: false,
    }
}

fn join_event(room_id: String, name: &str) -> JoinRoomEvent {
    JoinRoomEvent {
        name: name.to_string(),
        room_id,
        is_spectator: false,
    }
}

fn two_player_room() -> (Registry, u128) {
    let mut reg = Registry::new();
    let (id, _) = handle_create_room(&mut reg, "h1", &create_event("Hanna"));
    handle_join_room(&mut reg, "p2", &join_event(uuid_str(id), "Pia"));
    (reg, id)
}

fn the_room<'a>(reg: &'a Registry, id: u128) -> &'a Room {
    let i = reg.find_room_index(id).expect("room should exist");
    &reg.rooms[i]
}

#[test]
fn exit_of_plain_member_broadcasts_player_left() {
    let (mut reg, id) = two_player_room();
    let out = handle_player_exit(
        &mut reg,
        "p2",
        &PlayerExitEvent {
            room_id: uuid_str(id),
        },
    );
    let room = the_room(&reg, id);
    assert_eq!(room.players.len(), 1);
    assert_eq!(room.host_id, "h1");
    assert_eq!(out.len(), 1);
    assert_eq!(out[0].scope, EmitScope::ToRoom(id));
    match &out[0].event {
        OutboundEvent::PlayerDisconnected(e) => {
            assert_eq!(e.room.players.len(), 1);
            assert_eq!(e.room.players[0].id, "h1");
        }
        other => panic!("expected playerDisconnected, got {:?}", other),
    }
}

#[test]
fn exit_of_host_elects_earliest_joined_survivor() {
    let mut reg = Registry::new();
    let (id, _) = handle_create_room(&mut reg, "h1", &create_event("Hanna"));
    handle_join_room(&mut reg, "p2", &join_event(uuid_str(id), "Pia"));
    handle_join_room(&mut reg, "p3", &join_event(uuid_str(id), "Ana"));
    let out = exit_room(&mut reg, id, "h1");
    let room = the_room(&reg, id);
    assert_eq!(room.players.len(), 2);
    // the earliest-joined survivor is the new host
    assert_eq!(room.host_id, "p2");
    assert_eq!(out.len(), 2);
    assert!(matches!(out[0].event, OutboundEvent::PlayerDisconnected(_)));
    match &out[1].event {
        OutboundEvent::NewHostElected(e) => assert_eq!(e.host_id, "p2"),
        other => panic!("expected newHostElected, got {:?}", other),
    }
    assert_eq!(out[1].scope, EmitScope::ToRoom(id));
}

#[test]
fn exit_of_last_player_deletes_room_silently() {
    let mut reg = Registry::new();
    let (id, _) = handle_create_room(&mut reg, "h1", &create_event("Hanna"));
    let out = exit_room(&mut reg, id, "h1");
    assert!(out.is_empty());
    assert!(reg.rooms.is_empty());
    assert!(reg.find_room_index(id).is_none());
    assert!(reg.lookup_room(&uuid_str(id)).is_err());
}

#[test]
fn exit_by_non_member_changes_nothing() {
    let (mut reg, id) = two_player_room();
    let out = exit_room(&mut reg, id, "stranger");
    assert!(out.is_empty());
    assert_eq!(the_room(&reg, id).players.len(), 2);
}

#[test]
fn exit_with_unknown_room_yields_room_not_found() {
    let mut reg = Registry::new();
    let out = handle_player_exit(
        &mut reg,
        "h1",
        &PlayerExitEvent {
            room_id: uuid_str(9),
        },
    );
    assert_eq!(out.len(), 1);
    assert!(matches!(out[0].event, OutboundEvent::RoomNotFound(_)));
}

#[test]
fn host_disconnect_then_full_disconnect_removes_room() {
    // a room with two players: the host disconnects, the survivor is
    // elected and notified; once both are gone the room is deleted and a
    // later lookup finds nothing.
    let (mut reg, id) = two_player_room();
    let out = handle_disconnect(&mut reg, "h1");
    assert_eq!(out.len(), 2);
    assert!(matches!(out[0].event, OutboundEvent::PlayerDisconnected(_)));
    match &out[1].event {
        OutboundEvent::NewHostElected(e) => assert_eq!(e.host_id, "p2"),
        other => panic!("expected newHostElected, got {:?}", other),
    }
    assert_eq!(the_room(&reg, id).host_id, "p2");
    let out2 = handle_disconnect(&mut reg, "p2");
    assert!(out2.is_empty());
    assert!(reg.rooms.is_empty());
    assert!(reg.lookup_room(&uuid_str(id)).is_err());
}

#[test]
fn disconnect_sweeps_every_room_of_the_connection() {
    let mut reg = Registry::new();
    let (id1, _) = handle_create_room(&mut reg, "h1", &create_event("one"));
    let (id2, _) = handle_create_room(&mut reg, "h2", &create_event("two"));
    let (id3, _) = handle_create_room(&mut reg, "p", &create_event("own"));
    handle_join_room(&mut reg, "p", &join_event(uuid_str(id1), "Pia"));
    handle_join_room(&mut reg, "p", &join_event(uuid_str(id2), "Pia"));
    let out = handle_disconnect(&mut reg, "p");
    // removed from both joined rooms (one notice each); the room "p"
    // hosted alone is deleted without a notice.
    assert_eq!(out.len(), 2);
    assert!(matches!(out[0].event, OutboundEvent::PlayerDisconnected(_)));
    assert!(matches!(out[1].event, OutboundEvent::PlayerDisconnected(_)));
    assert_eq!(out[0].scope, EmitScope::ToRoom(id1));
    assert_eq!(out[1].scope, EmitScope::ToRoom(id2));
    assert_eq!(the_room(&reg, id1).players.len(), 1);
    assert_eq!(the_room(&reg, id2).players.len(), 1);
    assert!(reg.find_room_index(id3).is_none());
}

#[test]
fn disconnect_of_unknown_connection_changes_nothing() {
    let (mut reg, id) = two_player_room();
    let out = handle_disconnect(&mut reg, "stranger");
    assert!(out.is_empty());
    assert_eq!(the_room(&reg, id).players.len(), 2);
}

#[test]
fn elect_new_host_picks_first_and_fails_on_empty() {
    let mut room = Room {
        cards_revealed: false,
        host_id: "gone".to_string(),
        id: 1,
        players: vec![
            Player {
                has_voted: false,
                id: "a".to_string(),
                name: "Ana".to_string(),
                vote: None,
                is_spectator: false,
            },
            Player {
                has_voted: false,
                id: "b".to_string(),
                name: "Ben".to_string(),
                vote: None,
                is_spectator: false,
            },
        ],
    };
    let elected = elect_new_host(&mut room).expect("two players remain");
    assert_eq!(elected, "a");
    assert_eq!(room.host_id, "a");

    let mut empty = Room {
        cards_revealed: false,
        host_id: "gone".to_string(),
        id: 2,
        players: Vec::new(),
    };
    assert!(elect_new_host(&mut empty).is_err());
}

#[test]
fn is_well_formed_rejects_broken_registries() {
    let mut reg = Registry::new();
    assert!(reg.is_well_formed());
    // an empty room must not exist in the registry
    reg.rooms.push(Room {
        cards_revealed: false,
        host_id: "h1".to_string(),
        id: 1,
        players: Vec::new(),
    });
    assert!(!reg.is_well_formed());
    // a host who is not a member breaks the invariant too
    reg.rooms[0].players.push(Player {
        has_voted: false,
        id: "p2".to_string(),
        name: "Pia".to_string(),
        vote: None,
        is_spectator: false,
    });
    assert!(!reg.is_well_formed());
    reg.rooms[0].host_id = "p2".to_string();
    assert!(reg.is_well_formed());
    // duplicate room ids break it
    reg.rooms.push(Room {
        cards_revealed: false,
        host_id: "p3".to_string(),
        id: 1,
        players: vec![Player {
            has_voted: false,
            id: "p3".to_string(),
            name: "Ana".to_string(),
            vote: None,
            is_spectator: false,
        }],
    });
    assert!(!reg.is_well_formed());
}

#[test]
fn membership_invariant_holds_along_a_history() {
    // joins and leaves in varied order: after every operation each room
    // still present has its host among its members.
    let mut reg = Registry::new();
    let (id, _) = handle_create_room(&mut reg, "h1", &create_event("Hanna"));
    let check = |reg: &Registry| {
        assert!(reg.is_well_formed());
        for room in &reg.rooms {
            assert!(!room.players.is_empty());
            assert!(room.players.iter().any(|p| p.id == room.host_id));
        }
    };
    check(&reg);
    handle_join_room(&mut reg, "p2", &join_event(uuid_str(id), "Pia"));
    check(&reg);
    handle_join_room(&mut reg, "p3", &join_event(uuid_str(id), "Ana"));
    check(&reg);
    handle_disconnect(&mut reg, "h1");
    check(&reg);
    exit_room(&mut reg, id, "p2");
    check(&reg);
    handle_disconnect(&mut reg, "p3");
    check(&reg);
    assert!(reg.rooms.is_empty());
}
