use tilegame::codec::Address;
use tilegame::constants::PLAYER_MOVE;
use tilegame::player::{get_outfit, Orientation, Outfit, PlayerComponent, Skins};

fn player_at(x: i32, y: i32, orientation: Orientation) -> PlayerComponent {
    PlayerComponent {
        name: "alice".to_string(),
        ip: Address::new(1, 1),
        room: "first".to_string(),
        x,
        y,
        skin: get_outfit(&Skins::Female),
        orientation,
    }
}

#[test]
fn outfit_of_female_skin() {
    assert_eq!(get_outfit(&Skins::Female), Outfit { n: 318, e: 306, s: 282, w: 294 });
}

#[test]
fn orientation_priority_east_wins() {
    let mut p = player_at(0, 0, Orientation::South);
    p.update_orientation(&1, &1);
    assert_eq!(p.orientation, Orientation::East);
}

#[test]
fn orientation_priority_west_over_vertical() {
    let mut p = player_at(0, 0, Orientation::South);
    p.update_orientation(&-3, &5);
    assert_eq!(p.orientation, Orientation::West);
}

#[test]
fn orientation_vertical_when_no_horizontal() {
    let mut p = player_at(0, 0, Orientation::East);
    p.update_orientation(&0, &2);
    assert_eq!(p.orientation, Orientation::North);
    p.update_orientation(&0, &-2);
    assert_eq!(p.orientation, Orientation::South);
}

#[test]
fn orientation_neutral_input_keeps_facing() {
    let mut p = player_at(0, 0, Orientation::West);
    p.update_orientation(&0, &0);
    assert_eq!(p.orientation, Orientation::West);
}

#[test]
fn walk_moves_exactly_one_axis() {
    let cases = [
        (Orientation::North, 0, PLAYER_MOVE),
        (Orientation::South, 0, -PLAYER_MOVE),
        (Orientation::East, PLAYER_MOVE, 0),
        (Orientation::West, -PLAYER_MOVE, 0),
    ];
    for (o, dx, dy) in cases.iter() {
        let mut p = player_at(100, 200, *o);
        p.walk();
        assert_eq!(p.x, 100 + dx);
        assert_eq!(p.y, 200 + dy);
        assert_eq!(p.orientation, *o);
    }
}

#[test]
fn walk_leaves_identity_untouched() {
    let mut p = player_at(64, 64, Orientation::North);
    p.walk();
    assert_eq!(p.name, "alice");
    assert_eq!(p.room, "first");
    assert_eq!(p.ip, Address::new(1, 1));
}

#[test]
fn get_dir_follows_orientation() {
    let mut p = player_at(0, 0, Orientation::North);
    assert_eq!(p.get_dir(), 318);
    p.orientation = Orientation::East;
    assert_eq!(p.get_dir(), 306);
    p.orientation = Orientation::South;
    assert_eq!(p.get_dir(), 282);
    p.orientation = Orientation::West;
    assert_eq!(p.get_dir(), 294);
}

#[test]
fn accessors_report_position() {
    let p = player_at(48, -16, Orientation::South);
    assert_eq!(p.x(), 48);
    assert_eq!(p.y(), -16);
}

#[test]
fn new_returns_the_given_component() {
    let p = player_at(8, 8, Orientation::North);
    let q = PlayerComponent::new(p.clone());
    assert_eq!(p, q);
}
