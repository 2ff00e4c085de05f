use tmbingo::channel::{ChannelAddress, ChannelCollection};
use tmbingo::gamemap::GameMap;
use tmbingo::room::{GameRoom, JoinRoomError, MapMode, Medal, PlayerIdentity, RoomConfiguration, RoomVisibility};

fn who(id: &str) -> PlayerIdentity {
    PlayerIdentity { account_id: id.to_owned(), display_name: id.to_uppercase() }
}

fn cfg(grid: u8) -> RoomConfiguration {
    RoomConfiguration {
        name: "Room".to_owned(),
        visibility: RoomVisibility::Private,
        password: Some("pw".to_owned()),
        size: 0,
        randomize: true,
        chat_enabled: false,
        grid_size: grid,
        selection: MapMode::RandomTMX,
        medal: Medal::Gold,
        time_limit: 600,
        mappack_id: None,
    }
}

fn maps(n: i64) -> Vec<GameMap> {
    (0..n).map(|i| GameMap { track_id: i, uid: format!("u{}", i), name: String::new(), author_name: String::new() }).collect()
}

fn room(grid: u8) -> (GameRoom, ChannelCollection, ChannelAddress) {
    let mut fabric = ChannelCollection::new();
    let ch = fabric.create_one();
    (GameRoom::create(cfg(grid), "424242".to_owned(), ch), fabric, ch)
}

#[test]
fn fresh_room() {
    let (r, _, ch) = room(3);
    assert_eq!(r.name(), "Room");
    assert_eq!(r.join_code(), "424242");
    assert_eq!(r.channel(), ch);
    assert!(!r.has_started());
    assert!(r.maps().is_empty() && r.teams().is_empty() && r.players().is_empty());
    assert!(r.check_for_bingos().is_empty());
    assert!(r.check_password(&Some("pw".to_owned())));
    assert!(!r.check_password(&None));
    assert_eq!(r.config().time_limit, 600);
}

#[test]
fn randomized_rooms_leave_team_unset() {
    let (mut r, mut fabric, _) = room(3);
    r.create_team(fabric.create_one()).unwrap();
    assert_eq!(r.player_join(&who("a"), true).ok(), Some(0));
    assert_eq!(r.members()[0].team, None);
    assert!(r.is_operator(&who("a")));
    assert!(r.get_player(&who("a")).is_some());
    assert!(r.get_player(&who("b")).is_none());
}

#[test]
fn palette_exhaustion() {
    let (mut r, mut fabric, _) = room(3);
    for i in 0..6 {
        let t = r.create_team(fabric.create_one()).unwrap();
        assert_eq!(t.id, i);
    }
    assert!(r.create_team(fabric.create_one()).is_none());
    assert_eq!(r.teams().len(), 6);
    assert!(r.get_team(5).is_some());
    assert!(r.get_team(6).is_none());
}

#[test]
fn removal_promotes_first_member() {
    let (mut r, _, _) = room(3);
    r.player_join(&who("a"), true).ok().unwrap();
    r.player_join(&who("b"), false).ok().unwrap();
    r.player_join(&who("c"), false).ok().unwrap();
    assert!(!r.player_remove(&who("a")));
    assert!(r.members()[0].operator && !r.members()[1].operator);
    assert!(!r.player_remove(&who("zz")));
    assert!(!r.player_remove(&who("c")));
    assert!(r.player_remove(&who("b")));
}

#[test]
fn size_limit_and_started() {
    let (mut r, _, _) = room(1);
    let mut c = cfg(1);
    c.size = 1;
    r.set_config(c).unwrap();
    r.player_join(&who("a"), true).ok().unwrap();
    assert!(matches!(r.player_join(&who("b"), false), Err(JoinRoomError::PlayerLimitReached)));
    assert!(r.add_maps(maps(2)).len() == 1);
    assert!(r.set_started(true, 99));
    assert!(!r.set_started(true, 100));
    assert!(matches!(r.player_join(&who("b"), false), Err(JoinRoomError::HasStarted)));
    assert!(r.set_config(cfg(2)).is_none());
    assert!(r.remove_maps(1).is_empty());
    assert_eq!(r.add_maps(maps(1)).len(), 1);
    assert!(!r.set_maps(maps(1)));
    assert!(r.set_started(false, 0));
    assert!(!r.has_started());
}

#[test]
fn lobby_map_list() {
    let (mut r, _, _) = room(2);
    assert!(r.set_maps(maps(3)));
    assert!(!r.set_maps(maps(5)));
    assert_eq!(r.get_map(&"u1".to_owned()), Some(1));
    assert_eq!(r.get_map(&"u9".to_owned()), None);
    let tail = r.remove_maps(2);
    assert_eq!(tail.iter().map(|m| m.track_id).collect::<Vec<_>>(), vec![1, 2]);
    assert_eq!(r.remove_maps(10).len(), 1);
    r.set_maps(maps(4));
    assert_eq!(r.remove_all_maps().len(), 4);
    assert!(!r.set_started(true, 0));
}

#[test]
fn team_changes_and_presence() {
    let (mut r, mut fabric, _) = room(3);
    r.create_team(fabric.create_one()).unwrap();
    r.create_team(fabric.create_one()).unwrap();
    r.player_join(&who("a"), true).ok().unwrap();
    assert!(r.change_team(&who("a"), 1));
    assert!(!r.change_team(&who("a"), 2));
    assert!(!r.change_team(&who("q"), 0));
    assert_eq!(r.status().members[0].team, Some(1));
    assert!(r.set_disconnected(&who("a"), true));
    assert!(r.members()[0].disconnected);
    assert!(!r.set_disconnected(&who("q"), true));
}
