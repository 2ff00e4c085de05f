use tmbingo::requests::{handle_request, process, BaseRequest, ClientContext, CreateRoom, CreateRoomRequest, Request, Response};
use tmbingo::events::ClientEvent;
use tmbingo::room::{ClaimError, JoinRoomError, MapMode, Medal, PlayerIdentity, RoomConfiguration, RoomVisibility};
use tmbingo::server::RequestError;
use tmbingo::server::GameServer;

fn ctx(id: &str, key: u64) -> ClientContext {
    ClientContext { identity: PlayerIdentity { account_id: id.to_owned(), display_name: id.to_uppercase() }, key, room: None }
}

fn config() -> RoomConfiguration {
    RoomConfiguration {
        name: "Test".to_owned(),
        visibility: RoomVisibility::Public,
        password: None,
        size: 0,
        randomize: false,
        chat_enabled: true,
        grid_size: 3,
        selection: MapMode::TOTD,
        medal: Medal::Silver,
        time_limit: 0,
        mappack_id: None,
    }
}

#[test]
fn reply_carries_the_request_sequence() {
    let mut server = GameServer::new();
    let mut a = ctx("a", 1);
    let out = process(&mut server, &mut a, BaseRequest { sequence: 42, request: Request::Ping }, 0);
    assert_eq!(out.reply.sequence, 42);
    assert!(matches!(out.reply.response, Response::Pong));
    let out = process(&mut server, &mut a, BaseRequest { sequence: 7, request: Request::StartGame }, 0);
    assert_eq!(out.reply.sequence, 7);
    match out.reply.response {
        Response::Error(e) => assert_eq!(e.error, "You are not in a room."),
        _ => panic!("expected an error"),
    }
    let reply = BaseRequest { sequence: 9, request: Request::Sync }.build_reply(Response::Acknowledged);
    assert_eq!(reply.sequence, 9);
}

#[test]
fn create_then_join_through_requests() {
    let mut server = GameServer::new();
    let mut a = ctx("a", 1);
    let created = handle_request(&mut server, &mut a, CreateRoomRequest { config: config() }.into_request(), 0);
    let code = match created.response {
        Response::CreateRoom(resp) => resp.join_code,
        _ => panic!("expected a created room"),
    };
    assert_eq!(a.room.as_deref(), Some(code.as_str()));
    let fetch = created.fetch.unwrap();
    assert_eq!((fetch.mode, fetch.count), (MapMode::TOTD, 9));

    let mut b = ctx("b", 2);
    let joined = handle_request(&mut server, &mut b, Request::JoinRoom { join_code: code.clone(), password: None }, 0);
    assert!(matches!(joined.response, Response::JoinRoom(_)));
    assert_eq!(joined.dispatches.len(), 1);
    assert_eq!(joined.dispatches[0].recipients, vec![1]);
    assert_eq!(b.room.as_deref(), Some(code.as_str()));

    let missing = handle_request(&mut server, &mut ctx("c", 3), Request::JoinRoom { join_code: "nope".to_owned(), password: None }, 0);
    match missing.response {
        Response::Error(e) => assert_eq!(e.error, "No room was found with code nope."),
        _ => panic!("expected an error"),
    }

    let synced = handle_request(&mut server, &mut b, Request::Sync, 0);
    match synced.response {
        Response::Sync(p) => assert!(!p.host && p.game_data.is_none()),
        _ => panic!("expected a sync packet"),
    }
    let left = handle_request(&mut server, &mut b, Request::LeaveRoom, 0);
    assert!(matches!(left.response, Response::Acknowledged));
    assert!(b.room.is_none());
    assert_eq!(server.rooms()[0].members().len(), 1);
}

#[test]
fn creating_a_room_leaves_the_previous_one() {
    let mut server = GameServer::new();
    let mut a = ctx("a", 1);
    handle_request(&mut server, &mut a, Request::CreateRoom(CreateRoom(config())), 0);
    handle_request(&mut server, &mut a, Request::CreateRoom(CreateRoom(config())), 0);
    assert_eq!(server.room_count(), 1);
    assert_eq!(server.rooms()[0].join_code(), a.room.as_ref().unwrap());
}

#[test]
fn error_messages() {
    assert_eq!(JoinRoomError::DoesNotExist("123456".to_owned()).message(), "No room was found with code 123456.");
    assert_eq!(JoinRoomError::PlayerLimitReached.message(), "The room is already full.");
    assert_eq!(RequestError::NotOperator.message(), "Only an operator of the room may do this.");
    assert_eq!(ClaimError::Rejected.message(), "The claim does not beat the current record.");
}

#[test]
fn client_events_map_to_requests() {
    assert!(matches!(ClientEvent::ChangeTeam { team_id: 3 }.into_request(), Request::ChangeTeam { team_id: 3 }));
    assert!(matches!(ClientEvent::LeaveRoom.into_request(), Request::LeaveRoom));
}
