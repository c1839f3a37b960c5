use tilegame::action::Action;
use tilegame::codec::{decode, encode, Address, Cmd, Dest, Pack};
use tilegame::player::Orientation;

fn addr(ip: u32, port: u16) -> Address {
    Address::new(ip, port)
}

fn round_trip(p: Pack) {
    let bytes = encode(&p);
    let q = decode(&bytes).expect("a fresh encoding must decode");
    assert_eq!(p, q);
}

#[test]
fn round_trip_connect() {
    round_trip(Pack {
        cmd: Cmd::Connect("alice".to_string()),
        dest: Dest::Room("lobby".to_string()),
        addr: Some(addr(0x7f000001, 8080)),
    });
}

#[test]
fn round_trip_every_command() {
    let dests = [
        Dest::Ip(addr(1, 1)),
        Dest::All,
        Dest::Room("first".to_string()),
        Dest::AllExcept(addr(9, 9)),
    ];
    let cmds = [
        Cmd::Connect("bob".to_string()),
        Cmd::Action(Action::Nothing),
        Cmd::Action(Action::Move(Orientation::North)),
        Cmd::Action(Action::Move(Orientation::South)),
        Cmd::Action(Action::Move(Orientation::East)),
        Cmd::Action(Action::Move(Orientation::West)),
        Cmd::Action(Action::Attack(77)),
        Cmd::Action(Action::UseItem(12)),
        Cmd::RemovePlayer(3),
        Cmd::NewItem(41),
    ];
    for d in dests.iter() {
        for c in cmds.iter() {
            round_trip(Pack { cmd: c.clone(), dest: d.clone(), addr: None });
            round_trip(Pack { cmd: c.clone(), dest: d.clone(), addr: Some(addr(5, 5)) });
        }
    }
}

#[test]
fn round_trip_unicode_name() {
    round_trip(Pack {
        cmd: Cmd::Connect("caf\u{e9}\u{1f3ae}".to_string()),
        dest: Dest::All,
        addr: None,
    });
}

#[test]
fn exact_wire_bytes_remove_player() {
    let p = Pack { cmd: Cmd::RemovePlayer(7), dest: Dest::All, addr: None };
    // cmd tag 2, id 7 little-endian, dest tag 1 (broadcast), no address.
    assert_eq!(encode(&p), vec![2u8, 7, 0, 0, 0, 1, 0]);
}

#[test]
fn exact_wire_bytes_connect() {
    let p = Pack {
        cmd: Cmd::Connect("ab".to_string()),
        dest: Dest::Ip(addr(0x01020304, 0x0506)),
        addr: None,
    };
    assert_eq!(
        encode(&p),
        vec![
            0u8, // Connect
            2, 0, 0, 0, b'a', b'b', // name
            0, // Dest::Ip
            4, 3, 2, 1, // ip little-endian
            6, 5, // port little-endian
            0, // no sender address
        ]
    );
}

#[test]
fn decode_empty_fails() {
    assert!(decode(&Vec::new()).is_err());
}

#[test]
fn decode_bad_tag_fails() {
    assert!(decode(&vec![9u8, 1, 2, 3]).is_err());
}

#[test]
fn decode_truncated_fails() {
    let p = Pack { cmd: Cmd::Connect("alice".to_string()), dest: Dest::All, addr: None };
    let bytes = encode(&p);
    for cut in 0..bytes.len() {
        let shorter: Vec<u8> = bytes[..cut].to_vec();
        assert!(decode(&shorter).is_err(), "truncation at {} must fail", cut);
    }
}

#[test]
fn decode_trailing_bytes_fail() {
    let p = Pack { cmd: Cmd::RemovePlayer(1), dest: Dest::All, addr: None };
    let mut bytes = encode(&p);
    bytes.push(0);
    assert!(decode(&bytes).is_err());
}

#[test]
fn decode_bad_utf8_fails() {
    // Connect with a 2-byte name that is not valid UTF-8.
    let bytes = vec![0u8, 2, 0, 0, 0, 0xff, 0xfe, 1, 0];
    assert!(decode(&bytes).is_err());
}

#[test]
fn pack_new_has_no_sender() {
    let p = Pack::new(Cmd::RemovePlayer(4), Dest::All);
    assert_eq!(p.ip(), None);
    assert_eq!(p.addr, None);
}
