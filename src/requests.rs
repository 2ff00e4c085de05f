//! Requests from clients, the responses they get, and the dispatcher that
//! applies a request to the server on behalf of one connection.

use vstd::prelude::*;

use crate::config::TEAM_COUNT;
use crate::events::{ClientEvent, Dispatch};
use crate::gamemap::{GameMap, MapQuery};
use crate::room::{has_account, ClaimError, JoinRoomError, MapChange, Medal, PlayerIdentity, RoomConfiguration};
use crate::server::{
    code_in_use, join_allowed, room_at, start_allowed, CreateRoomResponse, GameServer, JoinRoomResponse,
    RequestError, SyncPacket,
};

verus! {

/// The body of a room creation request: the room's configuration.
#[derive(Debug)]
pub struct CreateRoom(pub RoomConfiguration);

/// A room creation request as it is read from the wire.
#[derive(Debug)]
pub struct CreateRoomRequest {
    pub config: RoomConfiguration,
}

impl CreateRoomRequest {
    pub fn into_request(self) -> (r: Request)
        ensures
            r == Request::CreateRoom(CreateRoom(self.config)),
    {
        Request::CreateRoom(CreateRoom(self.config))
    }
}

/// A request, tagged by name on the wire.
#[derive(Debug)]
pub enum Request {
    Ping,
    CreateRoom(CreateRoom),
    JoinRoom { join_code: String, password: Option<String> },
    EditRoomConfig(RoomConfiguration),
    CreateTeam,
    ChangeTeam { team_id: usize },
    StartGame,
    ClaimCell { uid: String, time: u64, medal: Medal },
    LeaveRoom,
    Sync,
}

/// A refusal, with its reason for the user.
#[derive(Debug)]
pub struct Error {
    pub error: String,
}

/// The answer to a request.
#[derive(Debug)]
pub enum Response {
    Pong,
    /// The request was carried out and has nothing to report.
    Acknowledged,
    Error(Error),
    CreateRoom(CreateRoomResponse),
    JoinRoom(JoinRoomResponse),
    Sync(SyncPacket),
}

/// A request and the sequence number the client gave it.
#[derive(Debug)]
pub struct BaseRequest {
    pub sequence: u32,
    pub request: Request,
}

/// A response, carrying the sequence number of its request.
#[derive(Debug)]
pub struct BaseResponse {
    pub sequence: u32,
    pub response: Response,
}

impl BaseRequest {
    /// Wraps `response` as the reply to this request.
    pub fn build_reply(&self, response: Response) -> (r: BaseResponse)
        ensures
            r.sequence == self.sequence,
            r.response == response,
    {
        BaseResponse { sequence: self.sequence, response }
    }
}

/// A connection's view of itself: who it is, its key, and its room.
#[derive(Debug)]
pub struct ClientContext {
    pub identity: PlayerIdentity,
    pub key: u64,
    pub room: Option<String>,
}

/// Everything a request produced: the response, the events to deliver,
/// the maps to hand back to their queue, and the maps to fetch for the room.
#[derive(Debug)]
pub struct Reply {
    pub response: Response,
    pub dispatches: Vec<Dispatch>,
    pub returned: Option<MapChange>,
    pub fetch: Option<MapQuery>,
}

fn text(s: &str) -> (r: String)
    ensures
        r@ == s@,
{
    String::from_str(s)
}

fn refusal(s: &str) -> (r: Response)
    ensures
        r is Error,
{
    Response::Error(Error { error: text(s) })
}

fn not_in_room() -> (r: Response)
    ensures
        r is Error,
{
    refusal("You are not in a room.")
}

impl JoinRoomError {
    /// The reason as shown to the user.
    pub fn message(&self) -> (r: String)
        ensures
            *self is PlayerLimitReached ==> r@ == "The room is already full."@,
            *self is HasStarted ==> r@ == "The game has already started."@,
            *self is WrongPassword ==> r@ == "The password is incorrect."@,
            *self matches JoinRoomError::DoesNotExist(code) ==> r@ == "No room was found with code "@ + code@ + "."@,
    {
        match self {
            JoinRoomError::PlayerLimitReached => text("The room is already full."),
            JoinRoomError::DoesNotExist(code) => {
                let s = text("No room was found with code ");
                s.concat(code.as_str()).concat(".")
            },
            JoinRoomError::HasStarted => text("The game has already started."),
            JoinRoomError::WrongPassword => text("The password is incorrect."),
        }
    }
}

impl RequestError {
    /// The reason as shown to the user.
    pub fn message(&self) -> (r: String)
        ensures
            *self == RequestError::NotInRoom ==> r@ == "You are not in a room."@,
            *self == RequestError::NotOperator ==> r@ == "Only an operator of the room may do this."@,
            *self == RequestError::HasStarted ==> r@ == "The game has already started."@,
            *self == RequestError::MapsIncomplete ==> r@ == "The maps are not loaded yet."@,
    {
        match self {
            RequestError::NotInRoom => text("You are not in a room."),
            RequestError::NotOperator => text("Only an operator of the room may do this."),
            RequestError::HasStarted => text("The game has already started."),
            RequestError::MapsIncomplete => text("The maps are not loaded yet."),
        }
    }
}

impl ClaimError {
    /// The reason as shown to the user.
    pub fn message(&self) -> (r: String)
        ensures
            *self == ClaimError::NotStarted ==> r@ == "The game has not started."@,
            *self == ClaimError::NotAMember ==> r@ == "You are not in this room."@,
            *self == ClaimError::UnknownMap ==> r@ == "This map is not part of the grid."@,
            *self == ClaimError::Rejected ==> r@ == "The claim does not beat the current record."@,
    {
        match self {
            ClaimError::NotStarted => text("The game has not started."),
            ClaimError::NotAMember => text("You are not in this room."),
            ClaimError::UnknownMap => text("This map is not part of the grid."),
            ClaimError::Rejected => text("The claim does not beat the current record."),
        }
    }
}

impl ClientEvent {
    /// The request a client event stands for.
    pub fn into_request(self) -> (r: Request)
        ensures
            self matches ClientEvent::ChangeTeam { team_id } ==> r == (Request::ChangeTeam { team_id }),
            self is LeaveRoom ==> r is LeaveRoom,
    {
        match self {
            ClientEvent::ChangeTeam { team_id } => Request::ChangeTeam { team_id },
            ClientEvent::LeaveRoom => Request::LeaveRoom,
        }
    }
}

fn reply(response: Response, dispatches: Vec<Dispatch>) -> (r: Reply)
    ensures
        r.response == response,
        r.dispatches == dispatches,
        r.returned is None,
        r.fetch is None,
{
    Reply { response, dispatches, returned: None, fetch: None }
}

/// Applies `request` for the connection `ctx` at time `now`.
pub fn handle_request(server: &mut GameServer, ctx: &mut ClientContext, request: Request, now: u64) -> (r: Reply)
    requires
        old(server).wf(),
    ensures
        final(server).wf(),
        final(ctx).identity == old(ctx).identity,
        final(ctx).key == old(ctx).key,
        request is Ping ==> r.response is Pong && final(server).spec_rooms() == old(server).spec_rooms()
            && *final(ctx) == *old(ctx),
        old(ctx).room is None && !(request is Ping || request is CreateRoom || request is JoinRoom) ==>
            r.response is Error && final(server).spec_rooms() == old(server).spec_rooms() && *final(ctx) == *old(ctx),
        r.response matches Response::CreateRoom(resp) ==> final(ctx).room == Some(resp.join_code)
            && code_in_use(final(server).spec_rooms(), resp.join_code@)
            && resp.max_teams == TEAM_COUNT
            && resp.teams@.len() == 2
            && final(server).spec_rooms().last().spec_join_code() == resp.join_code@
            && resp.teams@ == final(server).spec_rooms().last().spec_teams(),
        request is CreateRoom && old(server).spec_rooms().len() == 0 ==> r.response is CreateRoom,
        request is JoinRoom && r.response is JoinRoom ==> (final(ctx).room matches Some(code)
            && (request matches Request::JoinRoom { join_code, .. } && code@ == join_code@)),
        request is LeaveRoom ==> final(ctx).room is None,
        r.response is Sync ==> *final(ctx) == *old(ctx) && final(server).spec_rooms() == old(server).spec_rooms(),
        old(ctx).room is None ==> (request matches Request::JoinRoom { join_code, password } ==>
            (r.response is JoinRoom <==> exists|i: int| room_at(old(server).spec_rooms(), join_code@, i)
                && join_allowed(#[trigger] old(server).spec_rooms()[i], old(ctx).identity, password))),
        old(ctx).room matches Some(code) ==> (request is StartGame ==>
            (r.response is Acknowledged <==> exists|i: int| room_at(old(server).spec_rooms(), code@, i)
                && start_allowed(#[trigger] old(server).spec_rooms()[i], old(ctx).identity))),
        old(ctx).room matches Some(code) ==> (request is Sync ==>
            (r.response is Sync <==> exists|i: int| room_at(old(server).spec_rooms(), code@, i)
                && has_account((#[trigger] old(server).spec_rooms()[i]).spec_members(), old(ctx).identity.account_id@))),
{
    match request {
        Request::Ping => reply(Response::Pong, Vec::new()),
        Request::CreateRoom(CreateRoom(config)) => {
            let mut dispatches: Vec<Dispatch> = Vec::new();
            match &ctx.room {
                Some(code) => {
                    if let Some(d) = server.leave_room(&ctx.identity, ctx.key, code) {
                        dispatches.push(d);
                    }
                },
                None => {},
            }
            ctx.room = None;
            let query = MapQuery::new(config.selection, config.grid_cells(), config.mappack_id);
            match server.create_new_room(config, &ctx.identity, ctx.key) {
                Some(resp) => {
                    proof {
                        let n = server.spec_rooms().len() - 1;
                        assert(server.spec_rooms()[n].spec_join_code() == resp.join_code@);
                    }
                    ctx.room = Some(resp.join_code.clone());
                    Reply { response: Response::CreateRoom(resp), dispatches, returned: None, fetch: Some(query) }
                },
                None => reply(refusal("No free join code was found; try again."), dispatches),
            }
        },
        Request::JoinRoom { join_code, password } => {
            let mut dispatches: Vec<Dispatch> = Vec::new();
            match &ctx.room {
                Some(code) => {
                    if *code != join_code {
                        if let Some(d) = server.leave_room(&ctx.identity, ctx.key, code) {
                            dispatches.push(d);
                        }
                        ctx.room = None;
                    }
                },
                None => {},
            }
            match server.join_room(&ctx.identity, ctx.key, &join_code, &password) {
                Ok((resp, d)) => {
                    dispatches.push(d);
                    ctx.room = Some(join_code);
                    reply(Response::JoinRoom(resp), dispatches)
                },
                Err(e) => reply(Response::Error(Error { error: e.message() }), dispatches),
            }
        },
        Request::LeaveRoom => {
            let mut dispatches: Vec<Dispatch> = Vec::new();
            match &ctx.room {
                Some(code) => {
                    if let Some(d) = server.leave_room(&ctx.identity, ctx.key, code) {
                        dispatches.push(d);
                    }
                    ctx.room = None;
                    reply(Response::Acknowledged, dispatches)
                },
                None => reply(not_in_room(), dispatches),
            }
        },
        _ => {
            let code = match &ctx.room {
                Some(c) => c.clone(),
                None => {
                    return reply(not_in_room(), Vec::new());
                },
            };
            handle_in_room(server, ctx, request, &code, now)
        },
    }
}

/// The requests that act on the client's current room `code`.
fn handle_in_room(server: &mut GameServer, ctx: &ClientContext, request: Request, code: &String, now: u64) -> (r: Reply)
    requires
        old(server).wf(),
        !(request is Ping || request is CreateRoom || request is JoinRoom || request is LeaveRoom),
    ensures
        final(server).wf(),
        !(r.response is CreateRoom) && !(r.response is JoinRoom) && !(r.response is Pong),
        r.response is Sync ==> final(server).spec_rooms() == old(server).spec_rooms(),
        request is StartGame ==> (r.response is Acknowledged <==> exists|i: int| room_at(old(server).spec_rooms(), code@, i)
            && start_allowed(#[trigger] old(server).spec_rooms()[i], ctx.identity)),
        request is Sync ==> (r.response is Sync <==> exists|i: int| room_at(old(server).spec_rooms(), code@, i)
            && has_account((#[trigger] old(server).spec_rooms()[i]).spec_members(), ctx.identity.account_id@)),
{
    match request {
        Request::EditRoomConfig(config) => {
            let selection = config.selection;
            let mappack_id = config.mappack_id;
            match server.edit_config(&ctx.identity, code, config) {
                Ok((change, d)) => {
                    let mut dispatches: Vec<Dispatch> = Vec::new();
                    dispatches.push(d);
                    let fetch = if change.deficit > 0 {
                        Some(MapQuery::new(selection, change.deficit, mappack_id))
                    } else {
                        None
                    };
                    Reply { response: Response::Acknowledged, dispatches, returned: Some(change), fetch }
                },
                Err(e) => reply(Response::Error(Error { error: e.message() }), Vec::new()),
            }
        },
        Request::CreateTeam => {
            match server.create_team(&ctx.identity, code) {
                Ok(Some(d)) => {
                    let mut dispatches: Vec<Dispatch> = Vec::new();
                    dispatches.push(d);
                    reply(Response::Acknowledged, dispatches)
                },
                Ok(None) => reply(Response::Acknowledged, Vec::new()),
                Err(e) => reply(Response::Error(Error { error: e.message() }), Vec::new()),
            }
        },
        Request::ChangeTeam { team_id } => {
            match server.change_team(&ctx.identity, code, team_id) {
                Some(d) => {
                    let mut dispatches: Vec<Dispatch> = Vec::new();
                    dispatches.push(d);
                    reply(Response::Acknowledged, dispatches)
                },
                None => reply(refusal("This team does not exist."), Vec::new()),
            }
        },
        Request::StartGame => {
            match server.start_game(&ctx.identity, code, now) {
                Ok(d) => {
                    let mut dispatches: Vec<Dispatch> = Vec::new();
                    dispatches.push(d);
                    reply(Response::Acknowledged, dispatches)
                },
                Err(e) => reply(Response::Error(Error { error: e.message() }), Vec::new()),
            }
        },
        Request::ClaimCell { uid, time, medal } => {
            match server.claim_cell(&ctx.identity, code, &uid, time, medal) {
                Ok(ds) => reply(Response::Acknowledged, ds),
                Err(e) => reply(Response::Error(Error { error: e.message() }), Vec::new()),
            }
        },
        _ => {
            match server.sync(&ctx.identity, code) {
                Ok(p) => reply(Response::Sync(p), Vec::new()),
                Err(e) => reply(refusal("Sync failed, the game you joined may have ended already."), Vec::new()),
            }
        },
    }
}

/// Handles one request and builds its one response, which carries the
/// request's sequence number.
pub fn process(server: &mut GameServer, ctx: &mut ClientContext, request: BaseRequest, now: u64) -> (r: Processed)
    requires
        old(server).wf(),
    ensures
        final(server).wf(),
        r.reply.sequence == request.sequence,
{
    let sequence = request.sequence;
    let Reply { response, dispatches, returned, fetch } = handle_request(server, ctx, request.request, now);
    Processed { reply: BaseResponse { sequence, response }, dispatches, returned, fetch }
}

/// A handled request: its one reply, and what else it produced (see [`Reply`]).
#[derive(Debug)]
pub struct Processed {
    pub reply: BaseResponse,
    pub dispatches: Vec<Dispatch>,
    pub returned: Option<MapChange>,
    pub fetch: Option<MapQuery>,
}

} // verus!
