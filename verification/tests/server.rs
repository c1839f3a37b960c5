use tilegame::action::Action;
use tilegame::codec::{decode, encode, Address, Cmd, Dest, Pack};
use tilegame::constants::{PLAYER_MOVE, TILE_SIZE};
use tilegame::player::Orientation;
use tilegame::room::{Room, TileProps};
use tilegame::server::{Forward, NetEvent, ServerState, Warning};

fn srv_room(width: usize, height: usize) -> Room {
    let mut grid = Vec::new();
    for _ in 0..height {
        let mut row = Vec::new();
        for _ in 0..width {
            row.push(Some(TileProps { collide: false }));
        }
        grid.push(row);
    }
    Room::new("first".to_string(), grid).expect("rectangular grid")
}

fn srv_px(w: i32) -> i32 {
    w * TILE_SIZE + TILE_SIZE
}

fn srv_addr(n: u32) -> Address {
    Address::new(n, 4000)
}

fn action_pack(act: Action) -> Pack {
    Pack { cmd: Cmd::Action(act), dest: Dest::All, addr: None }
}

fn no_packs() -> Vec<Pack> {
    Vec::new()
}

#[test]
fn connect_command_reaches_registry_through_auth() {
    let room = srv_room(8, 8);
    let mut st = ServerState::new();
    let a = srv_addr(1);
    let hello = Pack { cmd: Cmd::Connect("alice".to_string()), dest: Dest::All, addr: None };
    let events = vec![NetEvent::Connect(a), NetEvent::Message(a, encode(&hello))];
    let out = st.run_tick(&room, &events, &no_packs());

    assert_eq!(st.clients, vec![a]);
    assert_eq!(out.auth.len(), 1);
    assert_eq!(out.auth[0].name, "alice");
    assert_eq!(out.auth[0].addr, a);
    assert!(out.warnings.is_empty());
    assert!(out.deliveries.is_empty());

    // The authentication collaborator accepts and registers the player.
    let id = st.register_player("alice".to_string(), "first".to_string(), a, srv_px(3), srv_px(3))
        .expect("fresh address");
    assert_eq!(id, 0);
    let p = st.registry.find_by_address(a).expect("registered");
    assert_eq!(p.name, "alice");
    assert_eq!(p.addr, a);
}

#[test]
fn move_east_turns_and_advances() {
    let room = srv_room(8, 8);
    let mut st = ServerState::new();
    let a = srv_addr(1);
    st.run_tick(&room, &vec![NetEvent::Connect(a)], &no_packs());
    st.register_player("alice".to_string(), "first".to_string(), a, srv_px(3), srv_px(3)).unwrap();

    let events = vec![NetEvent::Message(a, encode(&action_pack(Action::Move(Orientation::East))))];
    let out = st.run_tick(&room, &events, &no_packs());

    let p = st.registry.find_by_address(a).expect("registered");
    assert_eq!(p.orientation, Orientation::East);
    assert_eq!(p.x, srv_px(3) + PLAYER_MOVE);
    assert_eq!(p.y, srv_px(3));
    assert!(out.warnings.is_empty());
}

#[test]
fn action_from_unknown_sender_warns_and_changes_nothing() {
    let room = srv_room(8, 8);
    let mut st = ServerState::new();
    let a = srv_addr(1);
    st.run_tick(&room, &vec![NetEvent::Connect(a)], &no_packs());
    st.register_player("alice".to_string(), "first".to_string(), a, srv_px(3), srv_px(3)).unwrap();

    let stranger = srv_addr(9);
    let events = vec![
        NetEvent::Message(stranger, encode(&action_pack(Action::Move(Orientation::North)))),
    ];
    let out = st.run_tick(&room, &events, &no_packs());

    assert_eq!(out.warnings, vec![Warning::UnknownSender]);
    assert!(out.auth.is_empty());
    assert!(out.forwards.is_empty());
    assert!(out.deliveries.is_empty());
    let p = st.registry.find_by_address(a).expect("registered");
    assert_eq!(p.x, srv_px(3));
    assert_eq!(p.y, srv_px(3));
    assert_eq!(p.orientation, Orientation::South);
}

#[test]
fn dropped_connection_broadcasts_removal() {
    let room = srv_room(8, 8);
    let mut st = ServerState::new();
    let a = srv_addr(1);
    let b = srv_addr(2);
    st.run_tick(&room, &vec![NetEvent::Connect(a), NetEvent::Connect(b)], &no_packs());
    let id = st.register_player("alice".to_string(), "first".to_string(), a, srv_px(3), srv_px(3))
        .unwrap();

    let out = st.run_tick(&room, &vec![NetEvent::Disconnect(a)], &no_packs());

    assert!(st.registry.find_by_address(a).is_none());
    assert_eq!(st.clients, vec![b]);
    assert_eq!(out.deliveries.len(), 1);
    assert_eq!(out.deliveries[0].addr, b);
    let pack = decode(&out.deliveries[0].bytes).expect("well-formed broadcast");
    assert_eq!(pack.cmd, Cmd::RemovePlayer(id));
    assert_eq!(pack.dest, Dest::All);
    assert!(out.warnings.is_empty());
}

#[test]
fn disconnect_of_unknown_address_is_only_logged() {
    let room = srv_room(8, 8);
    let mut st = ServerState::new();
    let a = srv_addr(1);
    st.run_tick(&room, &vec![NetEvent::Connect(a)], &no_packs());
    st.register_player("alice".to_string(), "first".to_string(), a, srv_px(3), srv_px(3)).unwrap();

    let out = st.run_tick(&room, &vec![NetEvent::Disconnect(srv_addr(9))], &no_packs());

    assert_eq!(out.warnings, vec![Warning::UnknownDisconnect]);
    assert!(out.deliveries.is_empty());
    assert_eq!(st.registry.len(), 1);
    assert!(st.registry.find_by_address(a).is_some());
}

#[test]
fn move_at_east_edge_is_rejected_without_collision() {
    let room = srv_room(8, 8);
    let mut st = ServerState::new();
    let a = srv_addr(1);
    st.run_tick(&room, &vec![NetEvent::Connect(a)], &no_packs());
    // One footprint from the east edge: world x = width - 1.
    st.register_player("alice".to_string(), "first".to_string(), a, srv_px(7), srv_px(3)).unwrap();

    let events = vec![NetEvent::Message(a, encode(&action_pack(Action::Move(Orientation::East))))];
    st.run_tick(&room, &events, &no_packs());

    let p = st.registry.find_by_address(a).expect("registered");
    assert_eq!(p.x, srv_px(7), "the step must not be applied");
    assert_eq!(p.y, srv_px(3));
    assert_eq!(p.orientation, Orientation::East);
}

#[test]
fn client_set_counts_connects_minus_disconnects() {
    let room = srv_room(8, 8);
    let mut st = ServerState::new();
    let a = srv_addr(1);
    let b = srv_addr(2);
    let events = vec![
        NetEvent::Connect(a),
        NetEvent::Connect(b),
        NetEvent::Connect(a),
        NetEvent::Disconnect(a),
        NetEvent::RecvError,
    ];
    let out = st.run_tick(&room, &events, &no_packs());
    // Two distinct connects, one disconnect of a connected address.
    assert_eq!(st.clients, vec![b]);
    assert_eq!(out.warnings, vec![Warning::UnknownDisconnect, Warning::TransportError]);
}

#[test]
fn malformed_bytes_warn_and_are_dropped() {
    let room = srv_room(8, 8);
    let mut st = ServerState::new();
    let out = st.run_tick(
        &room,
        &vec![NetEvent::Message(srv_addr(1), vec![0xff, 0x01])],
        &no_packs(),
    );
    assert_eq!(out.warnings, vec![Warning::MalformedPacket]);
    assert!(out.auth.is_empty());
    assert!(out.deliveries.is_empty());
}

#[test]
fn room_destination_reaches_exactly_its_players() {
    let room = srv_room(8, 8);
    let mut st = ServerState::new();
    let a = srv_addr(1);
    let b = srv_addr(2);
    st.run_tick(&room, &vec![NetEvent::Connect(a), NetEvent::Connect(b)], &no_packs());
    st.register_player("alice".to_string(), "lobby".to_string(), a, srv_px(3), srv_px(3)).unwrap();
    st.register_player("bob".to_string(), "cave".to_string(), b, srv_px(4), srv_px(4)).unwrap();

    let announce = Pack {
        cmd: Cmd::NewItem(5),
        dest: Dest::Room("lobby".to_string()),
        addr: None,
    };
    let out = st.run_tick(&room, &Vec::new(), &vec![announce]);
    assert_eq!(out.deliveries.len(), 1);
    assert_eq!(out.deliveries[0].addr, a);
}

#[test]
fn broadcast_except_skips_the_sender() {
    let room = srv_room(8, 8);
    let mut st = ServerState::new();
    let a = srv_addr(1);
    let b = srv_addr(2);
    st.run_tick(&room, &vec![NetEvent::Connect(a), NetEvent::Connect(b)], &no_packs());

    let note = Pack { cmd: Cmd::NewItem(5), dest: Dest::AllExcept(a), addr: None };
    let out = st.run_tick(&room, &Vec::new(), &vec![note]);
    assert_eq!(out.deliveries.len(), 1);
    assert_eq!(out.deliveries[0].addr, b);
}

#[test]
fn attack_and_item_are_forwarded_with_the_player_id() {
    let room = srv_room(8, 8);
    let mut st = ServerState::new();
    let a = srv_addr(1);
    st.run_tick(&room, &vec![NetEvent::Connect(a)], &no_packs());
    let id = st.register_player("alice".to_string(), "first".to_string(), a, srv_px(3), srv_px(3))
        .unwrap();

    let item = Pack { cmd: Cmd::NewItem(41), dest: Dest::All, addr: None };
    let events = vec![
        NetEvent::Message(a, encode(&action_pack(Action::Attack(9)))),
        NetEvent::Message(a, encode(&item)),
    ];
    let out = st.run_tick(&room, &events, &no_packs());
    assert_eq!(
        out.forwards,
        vec![Forward::Act { id, act: Action::Attack(9) }, Forward::Item { id, item: 41 }]
    );
}

#[test]
fn remove_player_command_is_trusted() {
    let room = srv_room(8, 8);
    let mut st = ServerState::new();
    let a = srv_addr(1);
    st.run_tick(&room, &vec![NetEvent::Connect(a)], &no_packs());
    let id = st.register_player("alice".to_string(), "first".to_string(), a, srv_px(3), srv_px(3))
        .unwrap();

    let removal = Pack { cmd: Cmd::RemovePlayer(id), dest: Dest::All, addr: None };
    st.run_tick(&room, &vec![NetEvent::Message(a, encode(&removal))], &no_packs());
    assert_eq!(st.registry.len(), 0);
}

#[test]
fn repeated_connect_is_idempotent() {
    let room = srv_room(8, 8);
    let mut st = ServerState::new();
    let a = srv_addr(1);
    st.run_tick(&room, &vec![NetEvent::Connect(a), NetEvent::Connect(a)], &no_packs());
    assert_eq!(st.clients, vec![a]);
}

#[test]
fn duplicate_registration_for_live_address_is_refused() {
    let room = srv_room(8, 8);
    let mut st = ServerState::new();
    let a = srv_addr(1);
    st.run_tick(&room, &vec![NetEvent::Connect(a)], &no_packs());
    st.register_player("alice".to_string(), "first".to_string(), a, srv_px(3), srv_px(3)).unwrap();
    let again = st.register_player("alice2".to_string(), "first".to_string(), a, 0, 0);
    assert!(again.is_err());
    assert_eq!(st.registry.len(), 1);
}
