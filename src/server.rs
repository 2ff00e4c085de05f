//! The room registry: creates, finds and closes rooms by join code, routes
//! requests to them and says which clients each resulting event goes to.

use vstd::prelude::*;

use crate::chance::random_below;
use crate::channel::{ChannelAddress, ChannelCollection};
use crate::config::{
    joincode_alphabet, joincode_char, JOINCODE_ALPHABET_SIZE, JOINCODE_LENGTH, MAX_JOINCODE_DRAWS,
    TEAM_COUNT,
};
use crate::events::{Dispatch, ServerEvent};
use crate::game::{bingos, fresh_lines, ActiveGameData, MapCell};
use crate::gamemap::{clone_maps, GameMap};
use crate::room::{
    claim_ok, has_account, is_first_map, network_player, new_slot, promoted, status_of, ClaimError,
    ClaimOutcome, GameRoom, GameTeam, JoinRoomError, MapChange, PlayerIdentity, RoomConfiguration,
    RoomStatus,
};
use crate::text::push_char;

verus! {

/// A well-formed join code: its fixed length, drawn from the alphabet.
pub open spec fn is_join_code(code: Seq<char>) -> bool {
    &&& code.len() == JOINCODE_LENGTH
    &&& forall|i: int| 0 <= i < code.len() ==> in_alphabet(#[trigger] code[i])
}

/// Whether `c` is one of the join-code characters.
pub open spec fn in_alphabet(c: char) -> bool {
    exists|k: int| 0 <= k < JOINCODE_ALPHABET_SIZE && c == joincode_alphabet(k)
}

pub open spec fn code_in_use(rooms: Seq<GameRoom>, code: Seq<char>) -> bool {
    exists|i: int| 0 <= i < rooms.len() && (#[trigger] rooms[i]).spec_join_code() == code
}

/// No two live rooms share a join code.
pub open spec fn codes_unique(rooms: Seq<GameRoom>) -> bool {
    forall|i: int, j: int| 0 <= i < j < rooms.len() ==> (#[trigger] rooms[i]).spec_join_code() != (#[trigger] rooms[j]).spec_join_code()
}

/// Whether `password` opens `room`: always when it has none.
pub open spec fn password_ok(room: GameRoom, password: Option<String>) -> bool {
    match room.spec_config().password {
        None => true,
        Some(p) => (password matches Some(g) && g@ == p@),
    }
}

/// Whether `client` may join `room` with `password`: the password fits, the
/// game has not started, and the room is not full.
pub open spec fn join_allowed(room: GameRoom, client: PlayerIdentity, password: Option<String>) -> bool {
    &&& password_ok(room, password)
    &&& !room.started()
    &&& (room.spec_config().size == 0 || room.spec_members().len() < room.spec_config().size)
}

/// Whether `client` may start the game of `room`.
pub open spec fn start_allowed(room: GameRoom, client: PlayerIdentity) -> bool {
    room.spec_is_operator(client.account_id@) && !room.started()
        && room.spec_maps().len() == room.spec_config().cell_count()
}

/// Reply to a room creation.
#[derive(Debug)]
pub struct CreateRoomResponse {
    pub name: String,
    pub join_code: String,
    pub max_teams: usize,
    pub teams: Vec<GameTeam>,
}

/// Reply to a successful join.
#[derive(Debug)]
pub struct JoinRoomResponse {
    pub name: String,
    pub config: RoomConfiguration,
    pub status: RoomStatus,
}

/// Why a request about a room was refused.
#[derive(Debug, Clone, Copy, PartialEq, Eq, Structural)]
pub enum RequestError {
    NotInRoom,
    NotOperator,
    HasStarted,
    MapsIncomplete,
}

/// A draw of a join code.
fn draw_join_code() -> (r: String)
    ensures
        is_join_code(r@),
{
    let mut code = String::new();
    let mut i: usize = 0;
    while i < JOINCODE_LENGTH
        invariant
            i <= JOINCODE_LENGTH,
            code@.len() == i,
            forall|j: int| 0 <= j < i ==> in_alphabet(#[trigger] code@[j]),
        decreases JOINCODE_LENGTH - i,
    {
        let k = random_below(JOINCODE_ALPHABET_SIZE);
        let c = joincode_char(k);
        let ghost prev = code@;
        push_char(&mut code, c);
        assert forall|j: int| 0 <= j < i + 1 implies in_alphabet(#[trigger] code@[j]) by {
            if j < i {
                assert(code@[j] == prev[j]);
            } else {
                assert(code@[j] == joincode_alphabet(k as int));
            }
        }
        i = i + 1;
    }
    code
}

/// Every room of the server and the channels that carry their events.
pub struct GameServer {
    rooms: Vec<GameRoom>,
    channels: ChannelCollection,
}

impl GameServer {
    pub closed spec fn spec_rooms(&self) -> Seq<GameRoom> {
        self.rooms@
    }

    pub closed spec fn spec_channels(&self) -> ChannelCollection {
        self.channels
    }

    /// The clients subscribed to a channel.
    pub open spec fn subscribers(&self, addr: ChannelAddress) -> Set<u64> {
        self.spec_channels().subscribers(addr)
    }

    pub open spec fn wf(&self) -> bool {
        &&& self.spec_channels().wf()
        &&& codes_unique(self.spec_rooms())
        &&& forall|i: int| 0 <= i < self.spec_rooms().len() ==> (#[trigger] self.spec_rooms()[i]).wf()
    }

    /// A server with no rooms.
    pub fn new() -> (r: Self)
        ensures
            r.wf(),
            r.spec_rooms().len() == 0,
    {
        GameServer { rooms: Vec::new(), channels: ChannelCollection::new() }
    }

    pub fn room_count(&self) -> (r: usize)
        ensures
            r == self.spec_rooms().len(),
    {
        self.rooms.len()
    }

    /// The live rooms, in order of creation.
    pub fn rooms(&self) -> (r: &Vec<GameRoom>)
        ensures
            r@ == self.spec_rooms(),
    {
        &self.rooms
    }

    pub fn channels(&self) -> (r: &ChannelCollection)
        ensures
            *r == self.spec_channels(),
    {
        &self.channels
    }

    /// Position of the room with join code `join_code`.
    pub fn find_room(&self, join_code: &String) -> (r: Option<usize>)
        ensures
            r is None <==> !code_in_use(self.spec_rooms(), join_code@),
            r matches Some(i) ==> i < self.spec_rooms().len() && self.spec_rooms()[i as int].spec_join_code() == join_code@,
    {
        let mut i: usize = 0;
        while i < self.rooms.len()
            invariant
                i <= self.rooms@.len(),
                forall|k: int| 0 <= k < i ==> (#[trigger] self.rooms@[k]).spec_join_code() != join_code@,
            decreases self.rooms@.len() - i,
        {
            if *self.rooms[i].join_code() == *join_code {
                assert(self.spec_rooms()[i as int].spec_join_code() == join_code@);
                return Some(i);
            }
            i = i + 1;
        }
        None
    }

    /// A join code that no live room uses, drawn at random; `None` when
    /// every one of a bounded number of draws was taken.
    pub fn generate_roomcode(&self) -> (r: Option<String>)
        ensures
            r matches Some(c) ==> is_join_code(c@) && !code_in_use(self.spec_rooms(), c@),
            self.spec_rooms().len() == 0 ==> r is Some,
    {
        let mut attempt: usize = 0;
        while attempt < MAX_JOINCODE_DRAWS
            invariant
                self.spec_rooms().len() == 0 ==> attempt == 0,
            decreases MAX_JOINCODE_DRAWS - attempt,
        {
            let code = draw_join_code();
            if self.find_room(&code).is_none() {
                return Some(code);
            }
            attempt = attempt + 1;
        }
        None
    }

    /// Creates a room owned by `host`, with two teams, and subscribes the
    /// host's connection `host_key` to it. `None` (nothing changed) when no
    /// free join code was drawn.
    pub fn create_new_room(&mut self, config: RoomConfiguration, host: &PlayerIdentity, host_key: u64) -> (r: Option<CreateRoomResponse>)
        requires
            old(self).wf(),
        ensures
            final(self).wf(),
            old(self).spec_rooms().len() == 0 ==> r is Some,
            r is None ==> final(self).spec_rooms() == old(self).spec_rooms(),
            r matches Some(resp) ==> {
                let room = final(self).spec_rooms().last();
                &&& final(self).spec_rooms() == old(self).spec_rooms().push(room)
                &&& is_join_code(resp.join_code@)
                &&& !code_in_use(old(self).spec_rooms(), resp.join_code@)
                &&& room.spec_join_code() == resp.join_code@
                &&& room.spec_config() == config
                &&& resp.name@ == config.name@
                &&& resp.max_teams == TEAM_COUNT
                &&& resp.teams@ == room.spec_teams()
                &&& room.spec_teams().len() == 2
                &&& room.spec_members() == seq![new_slot(config, 2, *host, true)]
                &&& room.spec_maps().len() == 0
                &&& !room.started()
                &&& final(self).subscribers(room.spec_channel()) == set![host_key]
            },
    {
        let join_code = match self.generate_roomcode() {
            Some(c) => c,
            None => {
                return None;
            },
        };
        let ghost code = join_code@;
        let room_channel = self.channels.create_one();
        let mut room = GameRoom::create(config, join_code, room_channel);
        let c1 = self.channels.create_one();
        let _ = room.create_team(c1);
        let c2 = self.channels.create_one();
        let _ = room.create_team(c2);
        let _ = room.player_join(host, true);
        proof {
            assert(!has_account(Seq::<crate::room::PlayerData>::empty(), host.account_id@));
            assert(room.spec_members() =~= seq![new_slot(room.spec_config(), 2, *host, true)]);
        }
        let _ = self.channels.subscribe(room_channel, host_key);
        proof {
            assert(self.channels.subscribers(room_channel) =~= set![host_key]);
        }
        let resp = CreateRoomResponse {
            name: room.name().clone(),
            join_code: room.join_code().clone(),
            max_teams: TEAM_COUNT,
            teams: room.teams(),
        };
        let ghost before = self.rooms@;
        self.rooms.push(room);
        proof {
            assert forall|i: int, j: int| 0 <= i < j < self.rooms@.len() implies
                (#[trigger] self.rooms@[i]).spec_join_code() != (#[trigger] self.rooms@[j]).spec_join_code() by {
                if j == before.len() {
                    assert(before[i] == self.rooms@[i]);
                    if before[i].spec_join_code() == code {
                        assert(code_in_use(before, code));
                    }
                }
            }
            assert forall|i: int| 0 <= i < self.rooms@.len() implies (#[trigger] self.rooms@[i]).wf() by {
                if i < before.len() {
                    assert(before[i] == self.rooms@[i]);
                }
            }
        }
        Some(resp)
    }
}


/// Replacing one room by another with the same join code keeps codes unique.
proof fn lemma_replace_keeps_codes(rooms: Seq<GameRoom>, i: int, room: GameRoom)
    requires
        codes_unique(rooms),
        0 <= i < rooms.len(),
        room.spec_join_code() == rooms[i].spec_join_code(),
    ensures
        codes_unique(rooms.update(i, room)),
{
    let u = rooms.update(i, room);
    assert forall|a: int, b: int| 0 <= a < b < u.len() implies
        (#[trigger] u[a]).spec_join_code() != (#[trigger] u[b]).spec_join_code() by {
        assert(u[a].spec_join_code() == rooms[a].spec_join_code());
        assert(u[b].spec_join_code() == rooms[b].spec_join_code());
    }
}

/// Removing a room keeps codes unique.
proof fn lemma_remove_keeps_codes(rooms: Seq<GameRoom>, i: int)
    requires
        codes_unique(rooms),
        0 <= i < rooms.len(),
    ensures
        codes_unique(rooms.remove(i)),
        !code_in_use(rooms.remove(i), rooms[i].spec_join_code()),
{
    let u = rooms.remove(i);
    assert forall|a: int, b: int| 0 <= a < b < u.len() implies
        (#[trigger] u[a]).spec_join_code() != (#[trigger] u[b]).spec_join_code() by {
        let a0 = if a < i { a } else { a + 1 };
        let b0 = if b < i { b } else { b + 1 };
        assert(u[a] == rooms[a0]);
        assert(u[b] == rooms[b0]);
    }
    if code_in_use(u, rooms[i].spec_join_code()) {
        let w = choose|w: int| 0 <= w < u.len() && (#[trigger] u[w]).spec_join_code() == rooms[i].spec_join_code();
        let w0 = if w < i { w } else { w + 1 };
        assert(u[w] == rooms[w0]);
    }
}

impl GameServer {
    /// Takes the room at `i` out of the list.
    fn take_room(&mut self, i: usize) -> (room: GameRoom)
        requires
            old(self).wf(),
            i < old(self).spec_rooms().len(),
        ensures
            room == old(self).spec_rooms()[i as int],
            room.wf(),
            final(self).spec_rooms() == old(self).spec_rooms().remove(i as int),
            final(self).spec_channels() == old(self).spec_channels(),
    {
        self.rooms.remove(i)
    }

    /// Puts a room taken at `i` back, after a change that kept its join code.
    fn restore_room(&mut self, i: usize, room: GameRoom, Ghost(full): Ghost<Seq<GameRoom>>)
        requires
            i < full.len(),
            old(self).spec_rooms() == full.remove(i as int),
            codes_unique(full),
            forall|k: int| 0 <= k < full.len() ==> (#[trigger] full[k]).wf(),
            room.wf(),
            room.spec_join_code() == full[i as int].spec_join_code(),
            old(self).spec_channels().wf(),
        ensures
            final(self).wf(),
            final(self).spec_rooms() == full.update(i as int, room),
            final(self).spec_channels() == old(self).spec_channels(),
    {
        self.rooms.insert(i, room);
        proof {
            assert(self.rooms@ =~= full.update(i as int, room));
            lemma_replace_keeps_codes(full, i as int, room);
            assert forall|k: int| 0 <= k < self.rooms@.len() implies (#[trigger] self.rooms@[k]).wf() by {
                if k != i {
                    assert(self.rooms@[k] == full[k]);
                }
            }
        }
    }

    /// The only room with join code `join_code`.
    proof fn lemma_code_unique(&self, i: int, join_code: Seq<char>)
        requires
            self.wf(),
            0 <= i < self.spec_rooms().len(),
            self.spec_rooms()[i].spec_join_code() == join_code,
        ensures
            forall|k: int| 0 <= k < self.spec_rooms().len() && (#[trigger] self.spec_rooms()[k]).spec_join_code() == join_code ==> k == i,
            self.spec_rooms()[i].wf(),
    {
        assert forall|k: int| 0 <= k < self.spec_rooms().len() && (#[trigger] self.spec_rooms()[k]).spec_join_code() == join_code implies k == i by {
            if k < i {
                assert(self.spec_rooms()[k].spec_join_code() != self.spec_rooms()[i].spec_join_code());
            } else if k > i {
                assert(self.spec_rooms()[i].spec_join_code() != self.spec_rooms()[k].spec_join_code());
            }
        }
    }

    /// Adds `client` (connection `key`) to the room `join_code`. Existing
    /// subscribers are sent a `RoomUpdate` before the newcomer is subscribed.
    pub fn join_room(
        &mut self,
        client: &PlayerIdentity,
        key: u64,
        join_code: &String,
        password: &Option<String>,
    ) -> (r: Result<(JoinRoomResponse, Dispatch), JoinRoomError>)
        requires
            old(self).wf(),
        ensures
            final(self).wf(),
            !code_in_use(old(self).spec_rooms(), join_code@) ==> (r matches Err(JoinRoomError::DoesNotExist(c)) && c@ == join_code@),
            r is Err ==> final(self).spec_rooms() == old(self).spec_rooms() && final(self).spec_channels() == old(self).spec_channels(),
            forall|i: int| 0 <= i < old(self).spec_rooms().len() && (#[trigger] old(self).spec_rooms()[i]).spec_join_code() == join_code@ ==> {
                let room = old(self).spec_rooms()[i];
                let pw_ok = match room.spec_config().password {
                    None => true,
                    Some(p) => (password matches Some(g) && g@ == p@),
                };
                let member = has_account(room.spec_members(), client.account_id@);
                &&& !pw_ok ==> (r matches Err(JoinRoomError::WrongPassword))
                &&& pw_ok && room.started() ==> (r matches Err(JoinRoomError::HasStarted))
                &&& pw_ok && !room.started() && room.spec_config().size != 0
                    && room.spec_members().len() >= room.spec_config().size ==> (r matches Err(JoinRoomError::PlayerLimitReached))
                &&& r is Ok <==> join_allowed(room, *client, *password)
                &&& r matches Ok((resp, d)) ==> {
                    let after = final(self).spec_rooms()[i];
                    &&& final(self).spec_rooms().len() == old(self).spec_rooms().len()
                    &&& forall|k: int| 0 <= k < old(self).spec_rooms().len() && k != i ==> #[trigger] final(self).spec_rooms()[k] == old(self).spec_rooms()[k]
                    &&& member ==> after.spec_members() == room.spec_members()
                    &&& !member ==> after.spec_members() == room.spec_members().push(
                        new_slot(room.spec_config(), room.spec_teams().len() as int, *client, false))
                    &&& after.spec_teams() == room.spec_teams()
                    &&& after.spec_config() == room.spec_config()
                    &&& after.spec_channel() == room.spec_channel()
                    &&& resp.name@ == room.spec_config().name@
                    &&& resp.config == room.spec_config()
                    &&& status_of(after, resp.status)
                    &&& (d.event matches ServerEvent::RoomUpdate(st) && status_of(after, st))
                    &&& d.channel == room.spec_channel()
                    &&& d.recipients@.no_duplicates()
                    &&& d.recipients@.to_set() == old(self).subscribers(room.spec_channel())
                    &&& old(self).spec_channels().view().contains_key(room.spec_channel().key()) ==>
                        final(self).subscribers(room.spec_channel()) == old(self).subscribers(room.spec_channel()).insert(key)
                }
            },
    {
        let i = match self.find_room(join_code) {
            Some(i) => i,
            None => {
                return Err(JoinRoomError::DoesNotExist(join_code.clone()));
            },
        };
        proof {
            self.lemma_code_unique(i as int, join_code@);
        }
        if !self.rooms[i].check_password(password) {
            return Err(JoinRoomError::WrongPassword);
        }
        let ghost full = self.rooms@;
        let mut room = self.take_room(i);
        let joined = room.player_join(client, false);
        match joined {
            Err(e) => {
                self.restore_room(i, room, Ghost(full));
                proof {
                    assert(self.rooms@ =~= full);
                }
                Err(e)
            },
            Ok(_) => {
                let channel = room.channel();
                let recipients = self.channels.broadcast(channel);
                let event = ServerEvent::RoomUpdate(room.status());
                let _ = self.channels.subscribe(channel, key);
                let resp = JoinRoomResponse { name: room.name().clone(), config: room.config().clone(), status: room.status() };
                self.restore_room(i, room, Ghost(full));
                Ok((resp, Dispatch { recipients, event, channel }))
            },
        }
    }
}

/// What merging fetched maps into a room gave: maps to hand back to their
/// queue, and the event for the room.
#[derive(Debug)]
pub struct MapsMerge {
    pub surplus: Vec<GameMap>,
    pub dispatch: Option<Dispatch>,
}

/// The state of a room as a reconnecting client needs it.
#[derive(Debug)]
pub struct SyncPacket {
    pub room_name: String,
    pub join_code: String,
    pub host: bool,
    pub config: RoomConfiguration,
    pub status: RoomStatus,
    pub maps: Vec<GameMap>,
    pub game_data: Option<ActiveGameData>,
}

/// `account` holds a slot in the live room with join code `code`.
pub open spec fn member_of(rooms: Seq<GameRoom>, code: Seq<char>, account: Seq<char>) -> bool {
    exists|i: int| room_at(rooms, code, i) && has_account((#[trigger] rooms[i]).spec_members(), account)
}

/// The room at `i` is the one with join code `join_code`.
pub open spec fn room_at(rooms: Seq<GameRoom>, join_code: Seq<char>, i: int) -> bool {
    0 <= i < rooms.len() && rooms[i].spec_join_code() == join_code
}

/// Builds the snapshot of the room for `client`; `None` when the client
/// is not one of its members.
pub fn build_sync_packet(room: &GameRoom, client: &PlayerIdentity) -> (r: Option<SyncPacket>)
    requires
        room.wf(),
    ensures
        r is Some <==> has_account(room.spec_members(), client.account_id@),
        r matches Some(p) ==> {
            &&& p.room_name@ == room.spec_config().name@
            &&& p.join_code@ == room.spec_join_code()
            &&& p.host == room.spec_is_operator(client.account_id@)
            &&& p.config == room.spec_config()
            &&& p.maps@ == room.spec_maps()
            &&& p.status.teams@ == room.spec_teams()
            &&& p.status.members@.len() == room.spec_members().len()
            &&& forall|i: int| 0 <= i < p.status.members@.len() ==>
                #[trigger] p.status.members@[i] == crate::room::network_player(room.spec_members()[i])
            &&& p.game_data is Some == room.started()
            &&& p.game_data matches Some(g) ==> g.cells@ == room.cells()
                && g.start_time == room.spec_active()->Some_0.start_time
        },
{
    if room.player_index(&client.account_id).is_none() {
        return None;
    }
    let game_data = match room.game_data() {
        Some(g) => Some(g.clone()),
        None => None,
    };
    Some(SyncPacket {
        room_name: room.name().clone(),
        join_code: room.join_code().clone(),
        host: room.is_operator(client),
        config: room.config().clone(),
        status: room.status(),
        maps: clone_maps(room.maps()),
        game_data,
    })
}

impl GameServer {
    /// Snapshot of the room `join_code` for one of its members.
    pub fn sync(&self, client: &PlayerIdentity, join_code: &String) -> (r: Result<SyncPacket, RequestError>)
        requires
            self.wf(),
        ensures
            r is Ok <==> exists|i: int| room_at(self.spec_rooms(), join_code@, i)
                && has_account((#[trigger] self.spec_rooms()[i]).spec_members(), client.account_id@),
            r matches Err(e) ==> e == RequestError::NotInRoom,
    {
        match self.find_room(join_code) {
            Some(i) => {
                proof {
                    self.lemma_code_unique(i as int, join_code@);
                }
                match build_sync_packet(&self.rooms[i], client) {
                    Some(p) => Ok(p),
                    None => Err(RequestError::NotInRoom),
                }
            },
            None => Err(RequestError::NotInRoom),
        }
    }

    /// Removes `client` from the room `join_code` and unsubscribes `key`.
    /// A room left without members is closed together with its channels
    /// (`None`); otherwise the remaining subscribers get a `RoomUpdate`.
    pub fn leave_room(&mut self, client: &PlayerIdentity, key: u64, join_code: &String) -> (r: Option<Dispatch>)
        requires
            old(self).wf(),
        ensures
            final(self).wf(),
            !code_in_use(old(self).spec_rooms(), join_code@) ==> r is None && final(self).spec_rooms() == old(self).spec_rooms(),
            forall|i: int| #[trigger] room_at(old(self).spec_rooms(), join_code@, i) ==> {
                let room = old(self).spec_rooms()[i];
                let rest = if exists|m: int| 0 <= m < room.spec_members().len()
                    && (#[trigger] room.spec_members()[m]).identity.account_id@ == client.account_id@ {
                    room.spec_members().remove(choose|m: int| 0 <= m < room.spec_members().len()
                        && (#[trigger] room.spec_members()[m]).identity.account_id@ == client.account_id@)
                } else {
                    room.spec_members()
                };
                &&& rest.len() == 0 ==> {
                    &&& r is None
                    &&& final(self).spec_rooms() == old(self).spec_rooms().remove(i)
                    &&& !final(self).spec_channels().view().contains_key(room.spec_channel().key())
                    &&& forall|t: int| 0 <= t < room.spec_teams().len() ==>
                        !final(self).spec_channels().view().contains_key((#[trigger] room.spec_teams()[t]).channel_id.key())
                }
                &&& rest.len() > 0 ==> {
                    let after = final(self).spec_rooms()[i];
                    &&& final(self).spec_rooms() == old(self).spec_rooms().update(i, after)
                    &&& after.spec_members() == promoted(rest)
                    &&& after.spec_teams() == room.spec_teams()
                    &&& after.spec_config() == room.spec_config()
                    &&& after.spec_channel() == room.spec_channel()
                    &&& r matches Some(d) && (d.event matches ServerEvent::RoomUpdate(st) && status_of(after, st))
                        && d.channel == room.spec_channel() && d.recipients@.no_duplicates()
                        && d.recipients@.to_set() == final(self).subscribers(room.spec_channel())
                    &&& final(self).subscribers(room.spec_channel()) == old(self).subscribers(room.spec_channel()).remove(key)
                    &&& forall|t: int| 0 <= t < room.spec_teams().len() ==>
                        final(self).subscribers((#[trigger] room.spec_teams()[t]).channel_id)
                            == old(self).subscribers(room.spec_teams()[t].channel_id).remove(key)
                }
            },
            !member_of(final(self).spec_rooms(), join_code@, client.account_id@),
            r matches Some(d) ==> d.event is RoomUpdate,
            forall|c: Seq<char>, a: Seq<char>| #[trigger] member_of(final(self).spec_rooms(), c, a) ==> member_of(old(self).spec_rooms(), c, a),
    {
        let i = match self.find_room(join_code) {
            Some(i) => i,
            None => {
                return None;
            },
        };
        proof {
            self.lemma_code_unique(i as int, join_code@);
        }
        let ghost full = self.rooms@;
        let mut room = self.take_room(i);
        let ghost before = room;
        let channel = room.channel();
        let ghost start = *self;
        let _ = self.channels.unsubscribe(channel, key);
        proof {
            assert(self.subscribers(channel) =~= start.subscribers(channel).remove(key));
        }
        let ghost mid = *self;
        self.unsubscribe_teams(&room, key);
        proof {
            assert(mid.subscribers(channel).remove(key) =~= mid.subscribers(channel));
            assert(self.subscribers(channel) == mid.subscribers(channel)
                || self.subscribers(channel) == mid.subscribers(channel).remove(key));
            assert(self.subscribers(channel) =~= start.subscribers(channel).remove(key));
            assert forall|t: int| 0 <= t < before.spec_teams().len() implies
                self.subscribers((#[trigger] before.spec_teams()[t]).channel_id)
                    =~= start.subscribers(before.spec_teams()[t].channel_id).remove(key) by {
                let a = before.spec_teams()[t].channel_id;
                assert(self.subscribers(a) == mid.subscribers(a).remove(key));
                if a == channel {
                    assert(mid.subscribers(a).remove(key) =~= mid.subscribers(a));
                } else {
                    assert(mid.subscribers(a) == start.subscribers(a));
                }
            }
        }
        let should_close = room.player_remove(client);
        proof {
            let members = before.spec_members();
            if exists|m: int| 0 <= m < members.len() && (#[trigger] members[m]).identity.account_id@ == client.account_id@ {
                let m = choose|m: int| 0 <= m < members.len() && (#[trigger] members[m]).identity.account_id@ == client.account_id@;
                assert(room.spec_members() == promoted(members.remove(m)));
            } else {
                assert(!has_account(members, client.account_id@));
            }
            assert(room.spec_members().len() == 0 ==> promoted(room.spec_members()).len() == 0);
        }
        if should_close {
            proof {
                lemma_remove_keeps_codes(full, i as int);
                assert forall|k: int| 0 <= k < self.rooms@.len() implies (#[trigger] self.rooms@[k]).wf() by {
                    let k0 = if k < i { k } else { k + 1 };
                    assert(self.rooms@[k] == full[k0]);
                }
            }
            self.close_channels(&room);
            proof {
                assert forall|c: Seq<char>, a: Seq<char>| #[trigger] member_of(self.rooms@, c, a) implies member_of(full, c, a) by {
                    let j = choose|j: int| room_at(self.rooms@, c, j) && has_account((#[trigger] self.rooms@[j]).spec_members(), a);
                    let j0 = if j < i { j } else { j + 1 };
                    assert(self.rooms@[j] == full[j0]);
                    assert(room_at(full, c, j0));
                }
                if member_of(self.rooms@, join_code@, client.account_id@) {
                    let j = choose|j: int| room_at(self.rooms@, join_code@, j) && has_account((#[trigger] self.rooms@[j]).spec_members(), client.account_id@);
                    assert(code_in_use(self.rooms@, join_code@));
                }
            }
            None
        } else {
            let recipients = self.channels.broadcast(channel);
            let event = ServerEvent::RoomUpdate(room.status());
            let ghost after = room;
            self.restore_room(i, room, Ghost(full));
            proof {
                assert forall|c: Seq<char>, a: Seq<char>| #[trigger] member_of(self.rooms@, c, a) implies member_of(full, c, a) by {
                    let j = choose|j: int| room_at(self.rooms@, c, j) && has_account((#[trigger] self.rooms@[j]).spec_members(), a);
                    if j == i {
                        assert(has_account(before.spec_members(), a));
                        assert(room_at(full, c, j));
                    } else {
                        assert(self.rooms@[j] == full[j]);
                        assert(room_at(full, c, j));
                    }
                }
                if member_of(self.rooms@, join_code@, client.account_id@) {
                    let j = choose|j: int| room_at(self.rooms@, join_code@, j) && has_account((#[trigger] self.rooms@[j]).spec_members(), client.account_id@);
                    if j != i {
                        assert(self.rooms@[j] == full[j]);
                        if j < i {
                            assert(full[j].spec_join_code() != full[i as int].spec_join_code());
                        } else {
                            assert(full[i as int].spec_join_code() != full[j].spec_join_code());
                        }
                    }
                }
            }
            Some(Dispatch { recipients, event, channel })
        }
    }

    /// Unsubscribes `key` from the channel of every team of `room`.
    fn unsubscribe_teams(&mut self, room: &GameRoom, key: u64)
        requires
            old(self).wf(),
        ensures
            final(self).wf(),
            final(self).spec_rooms() == old(self).spec_rooms(),
            final(self).spec_channels().view().dom() == old(self).spec_channels().view().dom(),
            forall|a: ChannelAddress| #[trigger] final(self).subscribers(a) == old(self).subscribers(a)
                || final(self).subscribers(a) == old(self).subscribers(a).remove(key),
            forall|t: int| 0 <= t < room.spec_teams().len() ==>
                final(self).subscribers((#[trigger] room.spec_teams()[t]).channel_id) == old(self).subscribers(room.spec_teams()[t].channel_id).remove(key),
    {
        let teams = room.teams();
        let mut t: usize = 0;
        while t < teams.len()
            invariant
                self.wf(),
                self.rooms@ == old(self).rooms@,
                teams@ == room.spec_teams(),
                t <= teams@.len(),
                self.channels.view().dom() == old(self).channels.view().dom(),
                forall|a: ChannelAddress| #[trigger] self.subscribers(a) == old(self).subscribers(a)
                    || self.subscribers(a) == old(self).subscribers(a).remove(key),
                forall|u: int| 0 <= u < t ==>
                    self.subscribers((#[trigger] teams@[u]).channel_id) == old(self).subscribers(teams@[u].channel_id).remove(key),
            decreases teams@.len() - t,
        {
            let addr = teams[t].channel_id;
            let ghost cur = *self;
            let _ = self.channels.unsubscribe(addr, key);
            proof {
                let o = old(self).subscribers(addr);
                assert(cur.subscribers(addr) == o || cur.subscribers(addr) == o.remove(key));
                assert(o.remove(key).remove(key) =~= o.remove(key));
                if cur.spec_channels().view().contains_key(addr.key()) {
                    assert(self.subscribers(addr) == cur.subscribers(addr).remove(key));
                } else {
                    assert(!old(self).spec_channels().view().dom().contains(addr.key()));
                    assert(o =~= Set::<u64>::empty());
                    assert(o.remove(key) =~= o);
                    assert(self.subscribers(addr) == cur.subscribers(addr));
                }
                assert(self.subscribers(addr) == o.remove(key));
                assert forall|a: ChannelAddress| #[trigger] self.subscribers(a) == old(self).subscribers(a)
                    || self.subscribers(a) == old(self).subscribers(a).remove(key) by {
                    if a != addr {
                        assert(self.subscribers(a) == cur.subscribers(a));
                    }
                }
                assert forall|u: int| 0 <= u < t + 1 implies
                    self.subscribers((#[trigger] teams@[u]).channel_id) == old(self).subscribers(teams@[u].channel_id).remove(key) by {
                    if teams@[u].channel_id != addr {
                        assert(self.subscribers(teams@[u].channel_id) == cur.subscribers(teams@[u].channel_id));
                    }
                }
            }
            t = t + 1;
        }
    }

    /// Closes the channel of a room and those of its teams.
    fn close_channels(&mut self, room: &GameRoom)
        requires
            old(self).wf(),
        ensures
            final(self).wf(),
            final(self).spec_rooms() == old(self).spec_rooms(),
            !final(self).spec_channels().view().contains_key(room.spec_channel().key()),
            forall|t: int| 0 <= t < room.spec_teams().len() ==>
                !final(self).spec_channels().view().contains_key((#[trigger] room.spec_teams()[t]).channel_id.key()),
    {
        let channel = room.channel();
        let _ = self.channels.remove(channel);
        let teams = room.teams();
        let mut t: usize = 0;
        while t < teams.len()
            invariant
                self.wf(),
                self.rooms@ == old(self).rooms@,
                teams@ == room.spec_teams(),
                !self.channels.view().contains_key(channel.key()),
                forall|u: int| 0 <= u < t ==> !self.channels.view().contains_key((#[trigger] teams@[u]).channel_id.key()),
                t <= teams@.len(),
            decreases teams@.len() - t,
        {
            let _ = self.channels.remove(teams[t].channel_id);
            t = t + 1;
        }
    }

    /// Marks `client`'s slot in `join_code` as disconnected and unsubscribes
    /// `key`; the slot itself stays. Returns whether the client is a member.
    pub fn disconnect(&mut self, client: &PlayerIdentity, key: u64, join_code: &String) -> (r: bool)
        requires
            old(self).wf(),
        ensures
            final(self).wf(),
            r == exists|i: int| room_at(old(self).spec_rooms(), join_code@, i)
                && has_account((#[trigger] old(self).spec_rooms()[i]).spec_members(), client.account_id@),
            !r ==> final(self).spec_rooms() == old(self).spec_rooms() && final(self).spec_channels() == old(self).spec_channels(),
            forall|i: int| #[trigger] room_at(old(self).spec_rooms(), join_code@, i) && r ==> {
                let room = old(self).spec_rooms()[i];
                let after = final(self).spec_rooms()[i];
                &&& final(self).spec_rooms() == old(self).spec_rooms().update(i, after)
                &&& forall|m: int| 0 <= m < room.spec_members().len()
                    && (#[trigger] room.spec_members()[m]).identity.account_id@ == client.account_id@ ==>
                    after.spec_members() == room.spec_members().update(m,
                        crate::room::PlayerData { disconnected: true, ..room.spec_members()[m] })
                &&& after.spec_config() == room.spec_config()
                &&& after.spec_teams() == room.spec_teams()
                &&& after.spec_maps() == room.spec_maps()
                &&& after.spec_active() == room.spec_active()
                &&& after.spec_channel() == room.spec_channel()
                &&& final(self).subscribers(room.spec_channel()) == old(self).subscribers(room.spec_channel()).remove(key)
            },
    {
        self.set_presence(client, key, join_code, true)
    }

    /// Gives a reconnecting `client` its slot back (`disconnected` false) and
    /// subscribes its new connection `key`. Returns whether the room still
    /// holds the client's slot.
    pub fn reconnect(&mut self, client: &PlayerIdentity, key: u64, join_code: &String) -> (r: bool)
        requires
            old(self).wf(),
        ensures
            final(self).wf(),
            r == exists|i: int| room_at(old(self).spec_rooms(), join_code@, i)
                && has_account((#[trigger] old(self).spec_rooms()[i]).spec_members(), client.account_id@),
            !r ==> final(self).spec_rooms() == old(self).spec_rooms() && final(self).spec_channels() == old(self).spec_channels(),
            forall|i: int| #[trigger] room_at(old(self).spec_rooms(), join_code@, i) && r ==> {
                let room = old(self).spec_rooms()[i];
                let after = final(self).spec_rooms()[i];
                &&& final(self).spec_rooms() == old(self).spec_rooms().update(i, after)
                &&& forall|m: int| 0 <= m < room.spec_members().len()
                    && (#[trigger] room.spec_members()[m]).identity.account_id@ == client.account_id@ ==>
                    after.spec_members() == room.spec_members().update(m,
                        crate::room::PlayerData { disconnected: false, ..room.spec_members()[m] })
                &&& after.spec_config() == room.spec_config()
                &&& after.spec_teams() == room.spec_teams()
                &&& after.spec_maps() == room.spec_maps()
                &&& after.spec_active() == room.spec_active()
                &&& after.spec_channel() == room.spec_channel()
                &&& old(self).spec_channels().view().contains_key(room.spec_channel().key()) ==>
                    final(self).subscribers(room.spec_channel()) == old(self).subscribers(room.spec_channel()).insert(key)
            },
    {
        self.set_presence(client, key, join_code, false)
    }

    fn set_presence(&mut self, client: &PlayerIdentity, key: u64, join_code: &String, gone: bool) -> (r: bool)
        requires
            old(self).wf(),
        ensures
            final(self).wf(),
            r == exists|i: int| room_at(old(self).spec_rooms(), join_code@, i)
                && has_account((#[trigger] old(self).spec_rooms()[i]).spec_members(), client.account_id@),
            !r ==> final(self).spec_rooms() == old(self).spec_rooms() && final(self).spec_channels() == old(self).spec_channels(),
            forall|i: int| #[trigger] room_at(old(self).spec_rooms(), join_code@, i) && r ==> {
                let room = old(self).spec_rooms()[i];
                let after = final(self).spec_rooms()[i];
                &&& final(self).spec_rooms() == old(self).spec_rooms().update(i, after)
                &&& forall|m: int| 0 <= m < room.spec_members().len()
                    && (#[trigger] room.spec_members()[m]).identity.account_id@ == client.account_id@ ==>
                    after.spec_members() == room.spec_members().update(m,
                        crate::room::PlayerData { disconnected: gone, ..room.spec_members()[m] })
                &&& after.spec_config() == room.spec_config()
                &&& after.spec_teams() == room.spec_teams()
                &&& after.spec_maps() == room.spec_maps()
                &&& after.spec_active() == room.spec_active()
                &&& after.spec_channel() == room.spec_channel()
                &&& gone ==> final(self).subscribers(room.spec_channel()) == old(self).subscribers(room.spec_channel()).remove(key)
                &&& !gone && old(self).spec_channels().view().contains_key(room.spec_channel().key()) ==>
                    final(self).subscribers(room.spec_channel()) == old(self).subscribers(room.spec_channel()).insert(key)
            },
    {
        let i = match self.find_room(join_code) {
            Some(i) => i,
            None => {
                return false;
            },
        };
        proof {
            self.lemma_code_unique(i as int, join_code@);
        }
        if self.rooms[i].player_index(&client.account_id).is_none() {
            return false;
        }
        let ghost full = self.rooms@;
        let mut room = self.take_room(i);
        let _ = room.set_disconnected(client, gone);
        let channel = room.channel();
        if gone {
            let _ = self.channels.unsubscribe(channel, key);
        } else {
            let _ = self.channels.subscribe(channel, key);
        }
        self.restore_room(i, room, Ghost(full));
        true
    }
}

impl GameServer {
    /// Moves `client` to `team` in `join_code`; the room gets a `RoomUpdate`
    /// when the move happened.
    pub fn change_team(&mut self, client: &PlayerIdentity, join_code: &String, team: usize) -> (r: Option<Dispatch>)
        requires
            old(self).wf(),
        ensures
            final(self).wf(),
            final(self).spec_channels() == old(self).spec_channels(),
            r is Some <==> exists|i: int| room_at(old(self).spec_rooms(), join_code@, i)
                && team < (#[trigger] old(self).spec_rooms()[i]).spec_teams().len()
                && has_account(old(self).spec_rooms()[i].spec_members(), client.account_id@),
            r is None ==> final(self).spec_rooms() == old(self).spec_rooms(),
            forall|i: int| #[trigger] room_at(old(self).spec_rooms(), join_code@, i) && r is Some ==> {
                let room = old(self).spec_rooms()[i];
                let after = final(self).spec_rooms()[i];
                &&& final(self).spec_rooms() == old(self).spec_rooms().update(i, after)
                &&& forall|m: int| 0 <= m < room.spec_members().len()
                    && (#[trigger] room.spec_members()[m]).identity.account_id@ == client.account_id@ ==>
                    after.spec_members() == room.spec_members().update(m,
                        crate::room::PlayerData { team: Some(team), ..room.spec_members()[m] })
                &&& after.spec_teams() == room.spec_teams()
                &&& after.spec_config() == room.spec_config()
                &&& r matches Some(d) && (d.event matches ServerEvent::RoomUpdate(st) && status_of(after, st))
                    && d.channel == room.spec_channel()
                    && d.recipients@.to_set() == old(self).subscribers(room.spec_channel())
            },
    {
        let i = match self.find_room(join_code) {
            Some(i) => i,
            None => {
                return None;
            },
        };
        proof {
            self.lemma_code_unique(i as int, join_code@);
        }
        let ghost full = self.rooms@;
        let mut room = self.take_room(i);
        let moved = room.change_team(client, team);
        if !moved {
            self.restore_room(i, room, Ghost(full));
            proof {
                assert(self.rooms@ =~= full);
            }
            return None;
        }
        let channel = room.channel();
        let recipients = self.channels.broadcast(channel);
        let event = ServerEvent::RoomUpdate(room.status());
        self.restore_room(i, room, Ghost(full));
        Some(Dispatch { recipients, event, channel })
    }

    /// The room at `i` if `client` may act as its operator.
    fn operator_room(&self, client: &PlayerIdentity, join_code: &String) -> (r: Result<usize, RequestError>)
        requires
            self.wf(),
        ensures
            !code_in_use(self.spec_rooms(), join_code@) ==> r == Err::<usize, RequestError>(RequestError::NotInRoom),
            r matches Ok(i) ==> room_at(self.spec_rooms(), join_code@, i as int)
                && self.spec_rooms()[i as int].spec_is_operator(client.account_id@),
            forall|i: int| #[trigger] room_at(self.spec_rooms(), join_code@, i) ==> {
                let room = self.spec_rooms()[i];
                &&& !has_account(room.spec_members(), client.account_id@) ==> r == Err::<usize, RequestError>(RequestError::NotInRoom)
                &&& has_account(room.spec_members(), client.account_id@) && !room.spec_is_operator(client.account_id@) ==>
                    r == Err::<usize, RequestError>(RequestError::NotOperator)
                &&& room.spec_is_operator(client.account_id@) ==> r == Ok::<usize, RequestError>(i as usize)
            },
    {
        match self.find_room(join_code) {
            Some(i) => {
                proof {
                    self.lemma_code_unique(i as int, join_code@);
                    if self.spec_rooms()[i as int].spec_is_operator(client.account_id@) {
                        let k = choose|k: int| 0 <= k < self.spec_rooms()[i as int].spec_members().len()
                            && (#[trigger] self.spec_rooms()[i as int].spec_members()[k]).identity.account_id@ == client.account_id@
                            && self.spec_rooms()[i as int].spec_members()[k].operator;
                        assert(has_account(self.spec_rooms()[i as int].spec_members(), client.account_id@));
                    }
                }
                if self.rooms[i].player_index(&client.account_id).is_none() {
                    Err(RequestError::NotInRoom)
                } else if !self.rooms[i].is_operator(client) {
                    Err(RequestError::NotOperator)
                } else {
                    Ok(i)
                }
            },
            None => Err(RequestError::NotInRoom),
        }
    }

    /// Applies a new configuration to `join_code` for an operator, in the
    /// lobby. Returns how the map list changed and the `RoomConfigUpdate`.
    pub fn edit_config(&mut self, client: &PlayerIdentity, join_code: &String, config: RoomConfiguration) -> (r: Result<(MapChange, Dispatch), RequestError>)
        requires
            old(self).wf(),
        ensures
            final(self).wf(),
            final(self).spec_channels() == old(self).spec_channels(),
            !code_in_use(old(self).spec_rooms(), join_code@) ==> r matches Err(RequestError::NotInRoom),
            r is Err ==> final(self).spec_rooms() == old(self).spec_rooms(),
            forall|i: int| #[trigger] room_at(old(self).spec_rooms(), join_code@, i) ==> {
                let room = old(self).spec_rooms()[i];
                let after = final(self).spec_rooms()[i];
                &&& !has_account(room.spec_members(), client.account_id@) ==> (r matches Err(RequestError::NotInRoom))
                &&& has_account(room.spec_members(), client.account_id@) && !room.spec_is_operator(client.account_id@) ==>
                    (r matches Err(RequestError::NotOperator))
                &&& room.spec_is_operator(client.account_id@) && room.started() ==> (r matches Err(RequestError::HasStarted))
                &&& r is Ok <==> room.spec_is_operator(client.account_id@) && !room.started()
                &&& r matches Ok((c, d)) ==> {
                    &&& final(self).spec_rooms() == old(self).spec_rooms().update(i, after)
                    &&& after.spec_config() == config
                    &&& c.returned_mode == room.spec_config().selection
                    &&& after.spec_members() == room.spec_members()
                    &&& after.spec_teams() == room.spec_teams()
                    &&& d.event == ServerEvent::RoomConfigUpdate(config)
                    &&& d.recipients@.to_set() == old(self).subscribers(room.spec_channel())
                }
            },
    {
        let i = match self.operator_room(client, join_code) {
            Ok(i) => i,
            Err(e) => {
                return Err(e);
            },
        };
        proof {
            self.lemma_code_unique(i as int, join_code@);
        }
        let ghost full = self.rooms@;
        let mut room = self.take_room(i);
        let copy = config.clone();
        match room.set_config(config) {
            None => {
                self.restore_room(i, room, Ghost(full));
                proof {
                    assert(self.rooms@ =~= full);
                }
                Err(RequestError::HasStarted)
            },
            Some(change) => {
                let channel = room.channel();
                let recipients = self.channels.broadcast(channel);
                self.restore_room(i, room, Ghost(full));
                Ok((change, Dispatch { recipients, event: ServerEvent::RoomConfigUpdate(copy), channel }))
            },
        }
    }

    /// Adds a team to `join_code` for an operator, opening its channel. When
    /// the palette is used up nothing changes and no event is sent (`Ok(None)`).
    pub fn create_team(&mut self, client: &PlayerIdentity, join_code: &String) -> (r: Result<Option<Dispatch>, RequestError>)
        requires
            old(self).wf(),
        ensures
            final(self).wf(),
            !code_in_use(old(self).spec_rooms(), join_code@) ==> r matches Err(RequestError::NotInRoom),
            r is Err ==> final(self).spec_rooms() == old(self).spec_rooms(),
            forall|i: int| #[trigger] room_at(old(self).spec_rooms(), join_code@, i) ==> {
                let room = old(self).spec_rooms()[i];
                let after = final(self).spec_rooms()[i];
                &&& !has_account(room.spec_members(), client.account_id@) ==> (r matches Err(RequestError::NotInRoom))
                &&& has_account(room.spec_members(), client.account_id@) && !room.spec_is_operator(client.account_id@) ==>
                    (r matches Err(RequestError::NotOperator))
                &&& r is Ok <==> room.spec_is_operator(client.account_id@)
                &&& r matches Ok(Some(d)) ==> {
                    &&& room.spec_teams().len() < TEAM_COUNT
                    &&& final(self).spec_rooms() == old(self).spec_rooms().update(i, after)
                    &&& after.spec_teams().len() == room.spec_teams().len() + 1
                    &&& after.spec_teams().subrange(0, room.spec_teams().len() as int) == room.spec_teams()
                    &&& after.spec_members() == room.spec_members()
                    &&& (d.event matches ServerEvent::RoomUpdate(st) && status_of(after, st))
                    &&& d.channel == room.spec_channel()
                    &&& d.recipients@.to_set() == final(self).subscribers(room.spec_channel())
                }
                &&& r matches Ok(None) ==> room.spec_teams().len() >= TEAM_COUNT
                    && final(self).spec_rooms() == old(self).spec_rooms()
            },
    {
        let i = match self.operator_room(client, join_code) {
            Ok(i) => i,
            Err(e) => {
                return Err(e);
            },
        };
        proof {
            self.lemma_code_unique(i as int, join_code@);
        }
        if self.rooms[i].teams().len() >= TEAM_COUNT {
            return Ok(None);
        }
        let ghost full = self.rooms@;
        let mut room = self.take_room(i);
        let channel = self.channels.create_one();
        let team = room.create_team(channel);
        let channel = room.channel();
        let recipients = self.channels.broadcast(channel);
        let event = ServerEvent::RoomUpdate(room.status());
        proof {
            assert(room.spec_teams().subrange(0, full[i as int].spec_teams().len() as int) =~= full[i as int].spec_teams());
        }
        self.restore_room(i, room, Ghost(full));
        Ok(Some(Dispatch { recipients, event, channel }))
    }

    /// Starts the game of `join_code` for an operator, at `now`; the room
    /// gets `GameStart` with its maps.
    pub fn start_game(&mut self, client: &PlayerIdentity, join_code: &String, now: u64) -> (r: Result<Dispatch, RequestError>)
        requires
            old(self).wf(),
        ensures
            final(self).wf(),
            final(self).spec_channels() == old(self).spec_channels(),
            !code_in_use(old(self).spec_rooms(), join_code@) ==> r matches Err(RequestError::NotInRoom),
            r is Err ==> final(self).spec_rooms() == old(self).spec_rooms(),
            forall|i: int| #[trigger] room_at(old(self).spec_rooms(), join_code@, i) ==> {
                let room = old(self).spec_rooms()[i];
                let after = final(self).spec_rooms()[i];
                &&& !has_account(room.spec_members(), client.account_id@) ==> (r matches Err(RequestError::NotInRoom))
                &&& has_account(room.spec_members(), client.account_id@) && !room.spec_is_operator(client.account_id@) ==>
                    (r matches Err(RequestError::NotOperator))
                &&& room.spec_is_operator(client.account_id@) && room.started() ==> (r matches Err(RequestError::HasStarted))
                &&& room.spec_is_operator(client.account_id@) && !room.started()
                    && room.spec_maps().len() != room.spec_config().cell_count() ==> (r matches Err(RequestError::MapsIncomplete))
                &&& r is Ok <==> start_allowed(room, *client)
                &&& r matches Ok(d) ==> {
                    &&& final(self).spec_rooms() == old(self).spec_rooms().update(i, after)
                    &&& after.started()
                    &&& crate::game::all_empty(after.cells())
                    &&& after.spec_active()->Some_0.start_time == now
                    &&& after.spec_maps() == room.spec_maps()
                    &&& after.spec_members() == room.spec_members()
                    &&& after.spec_config() == room.spec_config()
                    &&& (d.event matches ServerEvent::GameStart { maps } && maps@ == room.spec_maps())
                    &&& d.recipients@.to_set() == old(self).subscribers(room.spec_channel())
                }
            },
    {
        let i = match self.operator_room(client, join_code) {
            Ok(i) => i,
            Err(e) => {
                return Err(e);
            },
        };
        proof {
            self.lemma_code_unique(i as int, join_code@);
        }
        if self.rooms[i].has_started() {
            return Err(RequestError::HasStarted);
        }
        let ghost full = self.rooms@;
        let mut room = self.take_room(i);
        if !room.set_started(true, now) {
            self.restore_room(i, room, Ghost(full));
            proof {
                assert(self.rooms@ =~= full);
            }
            return Err(RequestError::MapsIncomplete);
        }
        let channel = room.channel();
        let recipients = self.channels.broadcast(channel);
        let maps = clone_maps(room.maps());
        self.restore_room(i, room, Ghost(full));
        Ok(Dispatch { recipients, event: ServerEvent::GameStart { maps }, channel })
    }

    /// A claim by `client` on the map `uid` of `join_code`. When accepted the
    /// room gets `CellClaim`, then one `AnnounceBingo` per newly won line.
    pub fn claim_cell(&mut self, client: &PlayerIdentity, join_code: &String, uid: &String, time: u64, medal: crate::room::Medal) -> (r: Result<Vec<Dispatch>, ClaimError>)
        requires
            old(self).wf(),
        ensures
            final(self).wf(),
            final(self).spec_channels() == old(self).spec_channels(),
            !code_in_use(old(self).spec_rooms(), join_code@) ==> r matches Err(ClaimError::NotAMember),
            r is Err ==> final(self).spec_rooms() == old(self).spec_rooms(),
            forall|i: int| #[trigger] room_at(old(self).spec_rooms(), join_code@, i) ==> {
                let room = old(self).spec_rooms()[i];
                let after = final(self).spec_rooms()[i];
                let n = room.spec_config().grid_size as int;
                &&& (r is Ok <==> claim_ok(room, client.account_id@, uid@, medal, time))
                &&& !room.started() ==> r == Err::<Vec<Dispatch>, ClaimError>(ClaimError::NotStarted)
                &&& room.started() && !has_account(room.spec_members(), client.account_id@) ==>
                    r == Err::<Vec<Dispatch>, ClaimError>(ClaimError::NotAMember)
                &&& room.started() && has_account(room.spec_members(), client.account_id@)
                    && (forall|k: int| 0 <= k < room.spec_maps().len() ==> (#[trigger] room.spec_maps()[k]).uid@ != uid@) ==>
                    r == Err::<Vec<Dispatch>, ClaimError>(ClaimError::UnknownMap)
                &&& r matches Ok(ds) ==> {
                    let fresh = fresh_lines(bingos(room.cells(), n), bingos(after.cells(), n));
                    &&& final(self).spec_rooms() == old(self).spec_rooms().update(i, after)
                    &&& after.spec_maps() == room.spec_maps()
                    &&& after.spec_members() == room.spec_members()
                    &&& after.spec_teams() == room.spec_teams()
                    &&& after.spec_config() == room.spec_config()
                    &&& after.started()
                    &&& ds@.len() == fresh.len() + 1
                    &&& (ds@[0].event matches ServerEvent::CellClaim { cell_id, claim } && {
                        &&& is_first_map(room.spec_maps(), uid@, cell_id as int)
                        &&& claim.time == time
                        &&& claim.medal == medal
                        &&& (exists|m: int| 0 <= m < room.spec_members().len()
                            && (#[trigger] room.spec_members()[m]).identity.account_id@ == client.account_id@
                            && claim.player == network_player(room.spec_members()[m]))
                        &&& after.cells() == room.cells().update(cell_id as int, MapCell { claim: Some(claim) })
                    })
                    &&& forall|k: int| 0 <= k < fresh.len() ==> (#[trigger] ds@[k + 1]).event == (ServerEvent::AnnounceBingo { line: fresh[k] })
                    &&& forall|k: int| 0 <= k < ds@.len() ==> (#[trigger] ds@[k]).recipients@.to_set() == old(self).subscribers(room.spec_channel())
                        && ds@[k].recipients@.no_duplicates() && ds@[k].channel == room.spec_channel()
                }
            },
    {
        let i = match self.find_room(join_code) {
            Some(i) => i,
            None => {
                return Err(ClaimError::NotAMember);
            },
        };
        proof {
            self.lemma_code_unique(i as int, join_code@);
        }
        let ghost full = self.rooms@;
        let mut room = self.take_room(i);
        match room.claim_cell(client, uid, time, medal) {
            Err(e) => {
                self.restore_room(i, room, Ghost(full));
                proof {
                    assert(self.rooms@ =~= full);
                }
                Err(e)
            },
            Ok(outcome) => {
                let channel = room.channel();
                let recipients = self.channels.broadcast(channel);
                let ghost oc = outcome.claim;
                let ghost lines = outcome.bingos@;
                let cell_id = outcome.cell_id;
                let mut out: Vec<Dispatch> = Vec::new();
                out.push(Dispatch {
                    recipients: recipients.clone(),
                    event: ServerEvent::CellClaim { cell_id, claim: outcome.claim },
                    channel,
                });
                let mut k: usize = 0;
                while k < outcome.bingos.len()
                    invariant
                        k <= outcome.bingos@.len(),
                        lines == outcome.bingos@,
                        out@.len() == k + 1,
                        out@[0].event == (ServerEvent::CellClaim { cell_id, claim: oc }),
                        forall|j: int| 0 <= j < k ==> (#[trigger] out@[j + 1]).event == (ServerEvent::AnnounceBingo { line: lines[j] }),
                        forall|j: int| 0 <= j < out@.len() ==> (#[trigger] out@[j]).recipients@ == recipients@
                            && out@[j].channel == channel,
                    decreases outcome.bingos@.len() - k,
                {
                    out.push(Dispatch {
                        recipients: recipients.clone(),
                        event: ServerEvent::AnnounceBingo { line: outcome.bingos[k] },
                        channel,
                    });
                    proof {
                        assert(out@[k + 1].event == ServerEvent::AnnounceBingo { line: lines[k as int] });
                    }
                    k = k + 1;
                }
                self.restore_room(i, room, Ghost(full));
                Ok(out)
            },
        }
    }

    /// Merges the outcome of a map fetch made for `join_code`. Fetched maps
    /// fill the room up to its grid; the rest, or all of them when the room is
    /// gone, are handed back. A live room gets `MapsLoadResult`.
    pub fn maps_loaded(&mut self, join_code: &String, result: Result<Vec<GameMap>, String>) -> (r: MapsMerge)
        requires
            old(self).wf(),
        ensures
            final(self).wf(),
            final(self).spec_channels() == old(self).spec_channels(),
            !code_in_use(old(self).spec_rooms(), join_code@) ==> {
                &&& final(self).spec_rooms() == old(self).spec_rooms()
                &&& r.dispatch is None
                &&& result matches Ok(maps) ==> r.surplus@ == maps@
                &&& result is Err ==> r.surplus@.len() == 0
            },
            forall|i: int| #[trigger] room_at(old(self).spec_rooms(), join_code@, i) ==> {
                let room = old(self).spec_rooms()[i];
                let after = final(self).spec_rooms()[i];
                &&& final(self).spec_rooms() == old(self).spec_rooms().update(i, after)
                &&& after.spec_members() == room.spec_members()
                &&& after.spec_config() == room.spec_config()
                &&& r.dispatch matches Some(d) && d.recipients@.to_set() == old(self).subscribers(room.spec_channel())
                &&& result matches Ok(maps) ==> (r.dispatch matches Some(d) && d.event == ServerEvent::MapsLoadResult { error: None })
                    && after.spec_maps() + r.surplus@ == room.spec_maps() + maps@
                &&& result matches Err(e) ==> (r.dispatch matches Some(d) && d.event == ServerEvent::MapsLoadResult { error: Some(e) })
                    && after.spec_maps() == room.spec_maps() && r.surplus@.len() == 0
            },
    {
        let i = match self.find_room(join_code) {
            Some(i) => i,
            None => {
                return match result {
                    Ok(maps) => MapsMerge { surplus: maps, dispatch: None },
                    Err(_) => MapsMerge { surplus: Vec::new(), dispatch: None },
                };
            },
        };
        proof {
            self.lemma_code_unique(i as int, join_code@);
        }
        let ghost full = self.rooms@;
        let mut room = self.take_room(i);
        let channel = room.channel();
        let recipients = self.channels.broadcast(channel);
        match result {
            Ok(maps) => {
                let ghost m = maps@;
                let surplus = room.add_maps(maps);
                proof {
                    let old_maps = full[i as int].spec_maps();
                    if full[i as int].started() {
                        assert(room.spec_maps() + surplus@ =~= old_maps + m) by {
                            assert(room.spec_maps() == old_maps);
                        }
                    } else {
                        let cap = full[i as int].spec_config().cell_count() - old_maps.len();
                        let k = if m.len() < cap { m.len() as int } else { cap };
                        assert(m.subrange(0, k) + m.subrange(k, m.len() as int) =~= m);
                        assert(room.spec_maps() + surplus@ =~= old_maps + m);
                    }
                }
                self.restore_room(i, room, Ghost(full));
                MapsMerge { surplus, dispatch: Some(Dispatch { recipients, event: ServerEvent::MapsLoadResult { error: None }, channel }) }
            },
            Err(e) => {
                self.restore_room(i, room, Ghost(full));
                proof {
                    assert(self.rooms@ =~= full);
                }
                MapsMerge { surplus: Vec::new(), dispatch: Some(Dispatch { recipients, event: ServerEvent::MapsLoadResult { error: Some(e) }, channel }) }
            },
        }
    }
}

impl GameServer {
    /// Closes the room `join_code` and its channels, whoever is in it.
    /// Returns whether there was such a room.
    pub fn remove_room(&mut self, join_code: &String) -> (r: bool)
        requires
            old(self).wf(),
        ensures
            final(self).wf(),
            r == code_in_use(old(self).spec_rooms(), join_code@),
            !code_in_use(final(self).spec_rooms(), join_code@),
            !r ==> final(self).spec_rooms() == old(self).spec_rooms(),
            forall|i: int| #[trigger] room_at(old(self).spec_rooms(), join_code@, i) ==> {
                &&& final(self).spec_rooms() == old(self).spec_rooms().remove(i)
                &&& !final(self).spec_channels().view().contains_key(old(self).spec_rooms()[i].spec_channel().key())
            },
    {
        let i = match self.find_room(join_code) {
            Some(i) => i,
            None => {
                return false;
            },
        };
        proof {
            self.lemma_code_unique(i as int, join_code@);
        }
        let ghost full = self.rooms@;
        let room = self.take_room(i);
        proof {
            lemma_remove_keeps_codes(full, i as int);
            assert forall|k: int| 0 <= k < self.rooms@.len() implies (#[trigger] self.rooms@[k]).wf() by {
                let k0 = if k < i { k } else { k + 1 };
                assert(self.rooms@[k] == full[k0]);
            }
        }
        self.close_channels(&room);
        true
    }
}

impl GameServer {
    /// Drops from the channel `addr` the subscribers named in `dead`, whose
    /// mailboxes were found gone while delivering on it.
    pub fn cleanup_channel(&mut self, addr: ChannelAddress, dead: &Vec<u64>)
        requires
            old(self).wf(),
        ensures
            final(self).wf(),
            final(self).spec_rooms() == old(self).spec_rooms(),
            final(self).subscribers(addr) == old(self).subscribers(addr).difference(dead@.to_set()),
            forall|a: ChannelAddress| a != addr ==> #[trigger] final(self).subscribers(a) == old(self).subscribers(a),
    {
        let _ = self.channels.cleanup(addr, dead);
    }
}

/// No two live rooms of a well-formed server share a join code.
pub proof fn lemma_join_codes_unique(server: &GameServer, i: int, j: int)
    requires
        server.wf(),
        0 <= i < server.spec_rooms().len(),
        0 <= j < server.spec_rooms().len(),
        i != j,
    ensures
        server.spec_rooms()[i].spec_join_code() != server.spec_rooms()[j].spec_join_code(),
{
    if i > j {
        assert(server.spec_rooms()[j].spec_join_code() != server.spec_rooms()[i].spec_join_code());
    }
}

/// A slot marked disconnected and then reconnected, as `disconnect` and
/// `reconnect` change it, is the slot it was with `disconnected` false;
/// a slot that was connected before is exactly restored.
pub proof fn lemma_reconnect_restores_slot(members: Seq<crate::room::PlayerData>, m: int)
    requires
        0 <= m < members.len(),
    ensures
        ({
            let gone = members.update(m, crate::room::PlayerData { disconnected: true, ..members[m] });
            let back = gone.update(m, crate::room::PlayerData { disconnected: false, ..gone[m] });
            &&& back == members.update(m, crate::room::PlayerData { disconnected: false, ..members[m] })
            &&& back[m].identity == members[m].identity
            &&& back[m].team == members[m].team
            &&& back[m].operator == members[m].operator
            &&& !back[m].disconnected
            &&& !members[m].disconnected ==> back == members
        }),
{
    let gone = members.update(m, crate::room::PlayerData { disconnected: true, ..members[m] });
    let back = gone.update(m, crate::room::PlayerData { disconnected: false, ..gone[m] });
    assert(back =~= members.update(m, crate::room::PlayerData { disconnected: false, ..members[m] }));
    if !members[m].disconnected {
        assert(back =~= members);
    }
}
} // verus!
