use tilegame::action::Action;
use tilegame::codec::Address;
use tilegame::player::Orientation;
use tilegame::registry::{PlayerInfo, Registry, RegistryError};

fn info(id: u32, ip: u32, name: &str, room: &str) -> PlayerInfo {
    PlayerInfo {
        id,
        addr: Address::new(ip, 4000),
        name: name.to_string(),
        room: room.to_string(),
        x: 64,
        y: 64,
        orientation: Orientation::South,
        pending: Action::Nothing,
    }
}

#[test]
fn add_and_find_by_address() {
    let mut reg = Registry::new();
    assert_eq!(reg.len(), 0);
    reg.add_player(info(0, 10, "alice", "first")).unwrap();
    assert_eq!(reg.len(), 1);
    let found = reg.find_by_address(Address::new(10, 4000)).expect("registered");
    assert_eq!(found.name, "alice");
    assert_eq!(found.id, 0);
    assert!(reg.find_by_address(Address::new(11, 4000)).is_none());
}

#[test]
fn duplicate_id_is_refused() {
    let mut reg = Registry::new();
    reg.add_player(info(7, 10, "alice", "first")).unwrap();
    let r = reg.add_player(info(7, 11, "bob", "first"));
    assert_eq!(r, Err(RegistryError::DuplicateId));
    assert_eq!(reg.len(), 1);
}

#[test]
fn duplicate_address_is_refused() {
    let mut reg = Registry::new();
    reg.add_player(info(1, 10, "alice", "first")).unwrap();
    let r = reg.add_player(info(2, 10, "bob", "first"));
    assert_eq!(r, Err(RegistryError::DuplicateAddress));
    assert_eq!(reg.len(), 1);
}

#[test]
fn remove_by_address_returns_the_entry() {
    let mut reg = Registry::new();
    reg.add_player(info(1, 10, "alice", "first")).unwrap();
    reg.add_player(info(2, 11, "bob", "first")).unwrap();
    let gone = reg.remove_by_address(Address::new(10, 4000)).expect("present");
    assert_eq!(gone.name, "alice");
    assert_eq!(reg.len(), 1);
    assert!(reg.find_by_address(Address::new(10, 4000)).is_none());
}

#[test]
fn remove_of_unknown_address_changes_nothing() {
    let mut reg = Registry::new();
    reg.add_player(info(1, 10, "alice", "first")).unwrap();
    assert!(reg.remove_by_address(Address::new(99, 4000)).is_none());
    assert_eq!(reg.len(), 1);
    assert!(reg.find_by_address(Address::new(10, 4000)).is_some());
}

#[test]
fn remove_by_id_works() {
    let mut reg = Registry::new();
    reg.add_player(info(1, 10, "alice", "first")).unwrap();
    let gone = reg.remove_by_id(1).expect("present");
    assert_eq!(gone.addr, Address::new(10, 4000));
    assert!(reg.remove_by_id(1).is_none());
    assert_eq!(reg.len(), 0);
}

#[test]
fn addresses_in_room_are_exact() {
    let mut reg = Registry::new();
    reg.add_player(info(1, 10, "alice", "lobby")).unwrap();
    reg.add_player(info(2, 11, "bob", "cave")).unwrap();
    reg.add_player(info(3, 12, "carol", "lobby")).unwrap();
    let lobby = reg.addresses_in_room(&"lobby".to_string());
    assert_eq!(lobby.len(), 2);
    assert!(lobby.contains(&Address::new(10, 4000)));
    assert!(lobby.contains(&Address::new(12, 4000)));
    let cave = reg.addresses_in_room(&"cave".to_string());
    assert_eq!(cave, vec![Address::new(11, 4000)]);
    assert!(reg.addresses_in_room(&"empty".to_string()).is_empty());
}
