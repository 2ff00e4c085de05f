use tmbingo::channel::ChannelCollection;
use tmbingo::events::ServerEvent;
use tmbingo::gamemap::GameMap;
use tmbingo::reconnect::ReconnectRegistry;
use tmbingo::room::{ClaimError, GameTeam, JoinRoomError, MapMode, Medal, PlayerIdentity, RoomConfiguration, RoomVisibility};
use tmbingo::requests::ClientContext;
use tmbingo::server::{GameServer, RequestError};
use tmbingo::session::{client_disconnected, client_reconnected, sweep_expired};

fn identity(id: &str, name: &str) -> PlayerIdentity {
    PlayerIdentity { account_id: id.to_owned(), display_name: name.to_owned() }
}

fn config(grid: u8, medal: Medal) -> RoomConfiguration {
    RoomConfiguration {
        name: "Test".to_owned(),
        visibility: RoomVisibility::Public,
        password: None,
        size: 0,
        randomize: false,
        chat_enabled: true,
        grid_size: grid,
        selection: MapMode::TOTD,
        medal,
        time_limit: 0,
        mappack_id: None,
    }
}

fn maps(n: usize) -> Vec<GameMap> {
    (0..n)
        .map(|i| GameMap { track_id: i as i64, uid: format!("uid{}", i), name: format!("map {}", i), author_name: "someone".to_owned() })
        .collect()
}

/// A server with a started 3x3 game hosted by A (key 1), with B (key 2) on team 1.
fn started_game(medal: Medal) -> (GameServer, String) {
    let mut server = GameServer::new();
    let a = identity("a", "A");
    let resp = server.create_new_room(config(3, medal), &a, 1).unwrap();
    let code = resp.join_code.clone();
    server.join_room(&identity("b", "B"), 2, &code, &None).ok().unwrap();
    server.join_room(&identity("c", "C"), 3, &code, &None).ok().unwrap();
    assert!(server.change_team(&identity("b", "B"), &code, 1).is_some());
    let merged = server.maps_loaded(&code, Ok(maps(9)));
    assert!(merged.surplus.is_empty());
    server.start_game(&a, &code, 5000).ok().unwrap();
    (server, code)
}

#[test]
fn create_and_join() {
    let mut server = GameServer::new();
    let a = identity("a", "A");
    let resp = server.create_new_room(config(3, Medal::Silver), &a, 1).unwrap();
    assert_eq!(resp.join_code.chars().count(), 6);
    assert!(resp.join_code.chars().all(|c| c.is_ascii_digit()));
    assert_eq!(resp.max_teams, 6);
    assert_eq!(resp.name, "Test");
    let ids: Vec<usize> = resp.teams.iter().map(|t| t.id).collect();
    assert_eq!(ids, vec![0, 1]);
    assert_ne!(resp.teams[0].name, resp.teams[1].name);

    let (joined, event) = server.join_room(&identity("b", "B"), 2, &resp.join_code, &None).ok().unwrap();
    assert_eq!(event.recipients, vec![1]);
    match &event.event {
        ServerEvent::RoomUpdate(status) => {
            let names: Vec<&str> = status.members.iter().map(|m| m.name.as_str()).collect();
            assert_eq!(names, vec!["A", "B"]);
        }
        _ => panic!("expected a room update"),
    }
    assert_eq!(joined.name, "Test");
    assert_eq!(joined.status.members.len(), 2);
    let room = &server.rooms()[0];
    assert!(room.members()[0].operator);
    assert!(!room.members()[1].operator);
    let mut subs = server.channels().broadcast(room.channel());
    subs.sort();
    assert_eq!(subs, vec![1, 2]);
}

#[test]
fn join_errors() {
    let mut server = GameServer::new();
    let mut cfg = config(3, Medal::Gold);
    cfg.password = Some("pw".to_owned());
    cfg.size = 2;
    let code = server.create_new_room(cfg, &identity("a", "A"), 1).unwrap().join_code;
    match server.join_room(&identity("b", "B"), 2, &"000000x".to_owned(), &None) {
        Err(JoinRoomError::DoesNotExist(c)) => assert_eq!(c, "000000x"),
        other => panic!("unexpected {:?}", other.err()),
    }
    assert!(matches!(server.join_room(&identity("b", "B"), 2, &code, &None), Err(JoinRoomError::WrongPassword)));
    assert!(matches!(server.join_room(&identity("b", "B"), 2, &code, &Some("no".to_owned())), Err(JoinRoomError::WrongPassword)));
    assert!(server.join_room(&identity("b", "B"), 2, &code, &Some("pw".to_owned())).is_ok());
    assert!(matches!(server.join_room(&identity("c", "C"), 3, &code, &Some("pw".to_owned())), Err(JoinRoomError::PlayerLimitReached)));
    assert_eq!(server.rooms()[0].members().len(), 2);
}

#[test]
fn join_after_start_is_refused() {
    let (mut server, code) = started_game(Medal::Silver);
    assert!(matches!(server.join_room(&identity("d", "D"), 4, &code, &None), Err(JoinRoomError::HasStarted)));
}

#[test]
fn joining_twice_keeps_one_slot() {
    let mut server = GameServer::new();
    let code = server.create_new_room(config(3, Medal::Gold), &identity("a", "A"), 1).unwrap().join_code;
    server.join_room(&identity("b", "B"), 2, &code, &None).ok().unwrap();
    server.join_room(&identity("b", "B"), 2, &code, &None).ok().unwrap();
    assert_eq!(server.rooms()[0].members().len(), 2);
}

#[test]
fn join_codes_are_unique() {
    let mut server = GameServer::new();
    for i in 0..50u64 {
        server.create_new_room(config(3, Medal::Gold), &identity(&format!("h{}", i), "H"), i).unwrap();
    }
    let mut codes: Vec<String> = server.rooms().iter().map(|r| r.join_code().clone()).collect();
    codes.sort();
    codes.dedup();
    assert_eq!(codes.len(), 50);
}

#[test]
fn cell_claim_arbitration() {
    let (mut server, code) = started_game(Medal::Silver);
    let first = server.claim_cell(&identity("a", "A"), &code, &"uid4".to_owned(), 60000, Medal::Silver).ok().unwrap();
    let second = server.claim_cell(&identity("b", "B"), &code, &"uid4".to_owned(), 59000, Medal::Silver).ok().unwrap();
    let third = server.claim_cell(&identity("c", "C"), &code, &"uid4".to_owned(), 58000, Medal::Bronze);
    assert_eq!(third.err(), Some(ClaimError::Rejected));
    match (&first[0].event, &second[0].event) {
        (ServerEvent::CellClaim { cell_id: 4, claim: c1 }, ServerEvent::CellClaim { cell_id: 4, claim: c2 }) => {
            assert_eq!((c1.time, c1.player.name.as_str()), (60000, "A"));
            assert_eq!((c2.time, c2.player.name.as_str(), c2.player.team), (59000, "B", Some(1)));
        }
        _ => panic!("expected cell claims"),
    }
    let cell = server.rooms()[0].game_data().as_ref().unwrap().cells[4].claim.as_ref().unwrap().clone();
    assert_eq!((cell.time, cell.medal), (59000, Medal::Silver));
}

#[test]
fn claim_errors() {
    let mut server = GameServer::new();
    let a = identity("a", "A");
    let code = server.create_new_room(config(3, Medal::Silver), &a, 1).unwrap().join_code;
    assert_eq!(server.claim_cell(&a, &code, &"uid0".to_owned(), 1, Medal::Gold).err(), Some(ClaimError::NotStarted));
    let (mut server, code) = started_game(Medal::Silver);
    assert_eq!(server.claim_cell(&identity("z", "Z"), &code, &"uid0".to_owned(), 1, Medal::Gold).err(), Some(ClaimError::NotAMember));
    assert_eq!(server.claim_cell(&a, &code, &"nope".to_owned(), 1, Medal::Gold).err(), Some(ClaimError::UnknownMap));
    assert_eq!(server.claim_cell(&a, &code, &"uid0".to_owned(), 1, Medal::NoMedal).err(), Some(ClaimError::Rejected));
}

#[test]
fn bingo_announced_once() {
    let (mut server, code) = started_game(Medal::Silver);
    let a = identity("a", "A");
    let one = server.claim_cell(&a, &code, &"uid0".to_owned(), 1000, Medal::Gold).ok().unwrap();
    let two = server.claim_cell(&a, &code, &"uid1".to_owned(), 1000, Medal::Gold).ok().unwrap();
    let three = server.claim_cell(&a, &code, &"uid2".to_owned(), 1000, Medal::Gold).ok().unwrap();
    assert_eq!((one.len(), two.len()), (1, 1));
    assert_eq!(three.len(), 2);
    match &three[1].event {
        ServerEvent::AnnounceBingo { line } => assert_eq!((line.direction.code(), line.index, line.team), (1, 0, 0)),
        _ => panic!("expected a bingo"),
    }
    let again = server.claim_cell(&a, &code, &"uid2".to_owned(), 900, Medal::Gold).ok().unwrap();
    assert_eq!(again.len(), 1);
}

#[test]
fn start_game_errors() {
    let mut server = GameServer::new();
    let a = identity("a", "A");
    let code = server.create_new_room(config(3, Medal::Silver), &a, 1).unwrap().join_code;
    server.join_room(&identity("b", "B"), 2, &code, &None).ok().unwrap();
    assert_eq!(server.start_game(&a, &code, 0).err(), Some(RequestError::MapsIncomplete));
    server.maps_loaded(&code, Ok(maps(9)));
    assert_eq!(server.start_game(&identity("b", "B"), &code, 0).err(), Some(RequestError::NotOperator));
    assert_eq!(server.start_game(&identity("x", "X"), &code, 0).err(), Some(RequestError::NotInRoom));
    let start = server.start_game(&a, &code, 7).ok().unwrap();
    match start.event {
        ServerEvent::GameStart { maps } => assert_eq!(maps.len(), 9),
        _ => panic!("expected game start"),
    }
    assert_eq!(server.start_game(&a, &code, 8).err(), Some(RequestError::HasStarted));
}

#[test]
fn map_list_never_exceeds_the_grid() {
    let mut server = GameServer::new();
    let a = identity("a", "A");
    let code = server.create_new_room(config(2, Medal::Silver), &a, 1).unwrap().join_code;
    let merged = server.maps_loaded(&code, Ok(maps(6)));
    assert_eq!(merged.surplus.len(), 2);
    assert_eq!(server.rooms()[0].maps().len(), 4);
    let gone = server.maps_loaded(&"nosuch".to_owned(), Ok(maps(3)));
    assert_eq!(gone.surplus.len(), 3);
    assert!(gone.dispatch.is_none());
    let failed = server.maps_loaded(&code, Err("timed out".to_owned()));
    match failed.dispatch.unwrap().event {
        ServerEvent::MapsLoadResult { error } => assert_eq!(error.as_deref(), Some("timed out")),
        _ => panic!("expected a load result"),
    }
}

#[test]
fn edit_config_reconciles_maps() {
    let mut server = GameServer::new();
    let a = identity("a", "A");
    let code = server.create_new_room(config(3, Medal::Silver), &a, 1).unwrap().join_code;
    server.maps_loaded(&code, Ok(maps(9)));
    let (change, _) = server.edit_config(&a, &code, config(2, Medal::Gold)).ok().unwrap();
    assert_eq!((change.returned.len(), change.deficit), (5, 0));
    assert_eq!(server.rooms()[0].maps().len(), 4);
    let (change, _) = server.edit_config(&a, &code, config(4, Medal::Gold)).ok().unwrap();
    assert_eq!((change.returned.len(), change.deficit), (0, 12));
    let mut other = config(4, Medal::Gold);
    other.selection = MapMode::RandomTMX;
    let (change, event) = server.edit_config(&a, &code, other).ok().unwrap();
    assert_eq!((change.returned.len(), change.deficit, change.returned_mode), (4, 16, MapMode::TOTD));
    assert!(matches!(event.event, ServerEvent::RoomConfigUpdate(_)));
    assert_eq!(server.edit_config(&identity("q", "Q"), &code, config(3, Medal::Gold)).err(), Some(RequestError::NotInRoom));
}

#[test]
fn teams_stay_unique_until_the_palette_runs_out() {
    let mut server = GameServer::new();
    let a = identity("a", "A");
    let code = server.create_new_room(config(3, Medal::Silver), &a, 1).unwrap().join_code;
    for _ in 0..4 {
        assert!(server.create_team(&a, &code).ok().unwrap().is_some());
    }
    assert!(server.create_team(&a, &code).ok().unwrap().is_none());
    let teams = server.rooms()[0].teams();
    assert_eq!(teams.len(), 6);
    let mut names: Vec<String> = teams.iter().map(|t| t.name.clone()).collect();
    names.sort();
    assert_eq!(names, vec!["Blue", "Cyan", "Green", "Pink", "Red", "Yellow"]);
    assert!(teams.iter().enumerate().all(|(i, t)| t.id == i));
    let red = teams.iter().find(|t| t.name == "Red").unwrap();
    assert_eq!((red.color.r, red.color.g, red.color.b), (0xD8, 0x43, 0x15));
    assert!(server.change_team(&a, &code, 6).is_none());
}

#[test]
fn leaving_promotes_or_closes() {
    let mut server = GameServer::new();
    let a = identity("a", "A");
    let code = server.create_new_room(config(3, Medal::Silver), &a, 1).unwrap().join_code;
    server.join_room(&identity("b", "B"), 2, &code, &None).ok().unwrap();
    let update = server.leave_room(&a, 1, &code).unwrap();
    assert_eq!(update.recipients, vec![2]);
    assert!(server.rooms()[0].members()[0].operator);
    assert_eq!(server.rooms()[0].members()[0].identity.account_id, "b");
    let channel = server.rooms()[0].channel();
    assert!(server.leave_room(&identity("b", "B"), 2, &code).is_none());
    assert_eq!(server.room_count(), 0);
    assert!(server.channels().broadcast(channel).is_empty());
}

#[test]
fn reconnect_within_window() {
    let (mut server, code) = started_game(Medal::Silver);
    let a = identity("a", "A");
    let mut registry = ReconnectRegistry::new();
    let before: Vec<(String, bool, bool)> = server.rooms()[0].members().iter().map(|m| (m.identity.account_id.clone(), m.operator, m.disconnected)).collect();
    assert!(server.disconnect(&a, 1, &code));
    registry.stash("a".to_owned(), code.clone(), 10_000);
    assert!(server.rooms()[0].members()[0].disconnected);
    assert!(registry.can_reconnect(&"a".to_owned(), 69_000));
    assert_eq!(tmbingo::protocol::auth_code(&tmbingo::protocol::AuthOutcome::Identified(a.clone()), true).code(), 5);
    let back = registry.recover(&"a".to_owned(), 69_000).unwrap();
    assert_eq!(back, code);
    assert!(server.reconnect(&a, 11, &back));
    let after: Vec<(String, bool, bool)> = server.rooms()[0].members().iter().map(|m| (m.identity.account_id.clone(), m.operator, m.disconnected)).collect();
    assert_eq!(before, after);
    let sync = server.sync(&a, &back).ok().unwrap();
    assert!(sync.host);
    assert_eq!(sync.maps.len(), 9);
    assert_eq!(sync.game_data.unwrap().cells.len(), 9);
    assert_eq!(sync.join_code, code);
    assert!(registry.recover(&"a".to_owned(), 69_000).is_none());
}

#[test]
fn reconnect_window_expires() {
    let (mut server, code) = started_game(Medal::Silver);
    let a = identity("a", "A");
    let mut registry = ReconnectRegistry::new();
    server.disconnect(&a, 1, &code);
    registry.stash("a".to_owned(), code.clone(), 0);
    assert!(!registry.can_reconnect(&"a".to_owned(), 61_000));
    let expired = registry.sweep(61_000);
    assert_eq!(expired.len(), 1);
    assert_eq!(expired[0].join_code, code);
    let update = server.leave_room(&a, 1, &expired[0].join_code).unwrap();
    assert!(matches!(update.event, ServerEvent::RoomUpdate(_)));
    assert_eq!(server.rooms()[0].members().len(), 2);
    assert!(server.rooms()[0].members()[0].operator);
    assert!(registry.recover(&"a".to_owned(), 61_000).is_none());
    assert_eq!(server.sync(&a, &code).err(), Some(RequestError::NotInRoom));
}

#[test]
fn stale_record_is_dropped() {
    let mut registry = ReconnectRegistry::new();
    registry.stash("a".to_owned(), "111111".to_owned(), 0);
    registry.stash("a".to_owned(), "222222".to_owned(), 100);
    registry.stash("b".to_owned(), "333333".to_owned(), 100);
    assert_eq!(registry.recover(&"a".to_owned(), 200).as_deref(), Some("222222"));
    assert!(registry.recover(&"b".to_owned(), 100_000).is_none());
    assert!(!registry.can_reconnect(&"b".to_owned(), 0));
}

#[test]
fn administrative_removal() {
    let (mut server, code) = started_game(Medal::Silver);
    let channel = server.rooms()[0].channel();
    assert!(server.remove_room(&code));
    assert!(!server.remove_room(&code));
    assert_eq!(server.room_count(), 0);
    assert!(server.channels().broadcast(channel).is_empty());
    assert_eq!(server.sync(&identity("a", "A"), &code).err(), Some(RequestError::NotInRoom));
}

#[test]
fn session_drop_and_return() {
    let (mut server, code) = started_game(Medal::Silver);
    let mut registry = ReconnectRegistry::new();
    let mut ctx = ClientContext { identity: identity("b", "B"), key: 2, room: Some(code.clone()) };
    client_disconnected(&mut server, &mut registry, &mut ctx, 1_000);
    assert!(ctx.room.is_none());
    assert!(server.rooms()[0].members()[1].disconnected);
    let mut again = ClientContext { identity: identity("b", "B"), key: 20, room: None };
    assert!(client_reconnected(&mut server, &mut registry, &mut again, 60_000));
    assert_eq!(again.room.as_deref(), Some(code.as_str()));
    assert!(!server.rooms()[0].members()[1].disconnected);
    assert!(!client_reconnected(&mut server, &mut registry, &mut again, 60_000));

    let mut c = ClientContext { identity: identity("c", "C"), key: 3, room: Some(code.clone()) };
    client_disconnected(&mut server, &mut registry, &mut c, 2_000);
    assert!(sweep_expired(&mut server, &mut registry, 62_000).is_empty());
    let updates = sweep_expired(&mut server, &mut registry, 62_001);
    assert_eq!(updates.len(), 1);
    let mut recipients = updates[0].recipients.clone();
    recipients.sort();
    assert_eq!(recipients, vec![1, 20]);
    assert_eq!(server.rooms()[0].members().len(), 2);
}

#[test]
fn team_from_palette() {
    let mut fabric = ChannelCollection::new();
    let ch = fabric.create_one();
    let t = GameTeam::new(4, 2, ch);
    assert_eq!((t.id, t.name.as_str(), t.gen_index), (4, "Blue", 2));
    assert_eq!((t.color.r, t.color.g, t.color.b), (0x00, 0x95, 0xFF));
    assert!(t == GameTeam::new(4, 5, ch));
    assert!(t != GameTeam::new(3, 2, ch));
}

#[test]
fn sync_packet_for_members_only() {
    let (server, _code) = started_game(Medal::Silver);
    let room = &server.rooms()[0];
    let packet = tmbingo::server::build_sync_packet(room, &identity("b", "B")).unwrap();
    assert!(!packet.host);
    assert_eq!(packet.room_name, "Test");
    assert_eq!(packet.status.members.len(), 3);
    assert_eq!(packet.game_data.unwrap().start_time, 5000);
    assert!(tmbingo::server::build_sync_packet(room, &identity("z", "Z")).is_none());
}

#[test]
fn full_room_refuses_even_a_member() {
    let mut server = GameServer::new();
    let mut c = config(3, Medal::Gold);
    c.size = 1;
    let a = identity("a", "A");
    let code = server.create_new_room(c, &a, 1).unwrap().join_code;
    assert!(matches!(server.join_room(&a, 1, &code, &None), Err(JoinRoomError::PlayerLimitReached)));
    assert_eq!(server.rooms()[0].members().len(), 1);
}

#[test]
fn leaving_drops_team_channels() {
    let mut server = GameServer::new();
    let a = identity("a", "A");
    let code = server.create_new_room(config(3, Medal::Gold), &a, 1).unwrap().join_code;
    let teams = server.rooms()[0].teams();
    assert!(server.leave_room(&a, 1, &code).is_none());
    for t in teams {
        assert!(server.channels().broadcast(t.channel_id).is_empty());
    }
}

#[test]
fn dead_subscribers_leave_the_room_channel() {
    let mut server = GameServer::new();
    let code = server.create_new_room(config(3, Medal::Gold), &identity("a", "A"), 1).unwrap().join_code;
    let (_, d) = server.join_room(&identity("b", "B"), 2, &code, &None).ok().unwrap();
    server.cleanup_channel(d.channel, &vec![1]);
    assert_eq!(server.channels().broadcast(d.channel), vec![2]);
}
