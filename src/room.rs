//! A room: its configuration, members, teams, maps and the game in progress.

use vstd::prelude::*;

use crate::chance::random_below;
use crate::channel::ChannelAddress;
use crate::color::{is_hex_color, RgbColor};
use crate::config::{palette_color, palette_name, team_color_hex, team_name, TEAM_COUNT};
use crate::game::{
    bingos, claim_accepted, fresh_lines, is_claim_accepted, medal_meets, new_bingos, ActiveGameData, BingoLine,
    MapClaim, MapCell,
};
use crate::gamemap::{clone_maps, GameMap};

verus! {

/// Quality level of a race time. `Author` is the best, `NoMedal` means none was earned.
#[derive(Clone, Copy, Debug, PartialEq, Eq, Structural)]
pub enum Medal {
    Author,
    Gold,
    Silver,
    Bronze,
    NoMedal,
}

impl Medal {
    /// Position in the order Author < Gold < Silver < Bronze < NoMedal (lower is better).
    pub open spec fn spec_rank(self) -> int {
        match self {
            Medal::Author => 0,
            Medal::Gold => 1,
            Medal::Silver => 2,
            Medal::Bronze => 3,
            Medal::NoMedal => 4,
        }
    }

    pub fn rank(&self) -> (r: u8)
        ensures
            r as int == self.spec_rank(),
    {
        match self {
            Medal::Author => 0,
            Medal::Gold => 1,
            Medal::Silver => 2,
            Medal::Bronze => 3,
            Medal::NoMedal => 4,
        }
    }
}

/// A player as other clients see them.
#[derive(Debug)]
pub struct NetworkPlayer {
    pub name: String,
    pub team: Option<usize>,
}

impl Clone for NetworkPlayer {
    fn clone(&self) -> (r: Self)
        ensures
            r == *self,
    {
        NetworkPlayer { name: self.name.clone(), team: self.team }
    }
}

} // verus!

verus! {

/// Who may find a room.
#[derive(Clone, Copy, Debug, PartialEq, Eq, Structural)]
pub enum RoomVisibility {
    Public,
    Private,
}

/// Where a room's maps come from.
#[derive(Clone, Copy, Debug, PartialEq, Eq, Structural)]
pub enum MapMode {
    TOTD,
    RandomTMX,
    Mappack,
}

} // verus!

verus! {

/// Settings of a room, chosen by its operators.
#[derive(Debug)]
pub struct RoomConfiguration {
    pub name: String,
    pub visibility: RoomVisibility,
    pub password: Option<String>,
    /// Most members the room takes; 0 means no limit.
    pub size: u32,
    pub randomize: bool,
    pub chat_enabled: bool,
    /// Side of the square grid.
    pub grid_size: u8,
    pub selection: MapMode,
    /// Medal a claim must meet or beat.
    pub medal: Medal,
    /// Seconds; 0 means no limit.
    pub time_limit: u32,
    pub mappack_id: Option<u32>,
}

impl Clone for RoomConfiguration {
    fn clone(&self) -> (r: Self)
        ensures
            r == *self,
    {
        let password = match &self.password {
            Some(p) => Some(p.clone()),
            None => None,
        };
        RoomConfiguration {
            name: self.name.clone(),
            visibility: self.visibility,
            password,
            size: self.size,
            randomize: self.randomize,
            chat_enabled: self.chat_enabled,
            grid_size: self.grid_size,
            selection: self.selection,
            medal: self.medal,
            time_limit: self.time_limit,
            mappack_id: self.mappack_id,
        }
    }
}

impl RoomConfiguration {
    /// Number of cells of the grid.
    pub open spec fn cell_count(&self) -> int {
        self.grid_size as int * self.grid_size as int
    }

    pub fn grid_cells(&self) -> (r: usize)
        ensures
            r == self.cell_count(),
    {
        let n = self.grid_size as usize;
        assert(n * n <= 255 * 255) by (nonlinear_arith)
            requires n <= 255;
        n * n
    }
}

/// An authenticated player. Two identities are the same player when their
/// account ids are equal.
#[derive(Debug)]
pub struct PlayerIdentity {
    pub account_id: String,
    pub display_name: String,
}

impl Clone for PlayerIdentity {
    fn clone(&self) -> (r: Self)
        ensures
            r == *self,
    {
        PlayerIdentity { account_id: self.account_id.clone(), display_name: self.display_name.clone() }
    }
}

impl PlayerIdentity {
    pub fn same_player(&self, other: &PlayerIdentity) -> (r: bool)
        ensures
            r == (self.account_id@ == other.account_id@),
    {
        self.account_id == other.account_id
    }
}

/// A member's slot in a room.
#[derive(Debug)]
pub struct PlayerData {
    pub identity: PlayerIdentity,
    pub team: Option<usize>,
    pub operator: bool,
    pub disconnected: bool,
}

impl Clone for PlayerData {
    fn clone(&self) -> (r: Self)
        ensures
            r == *self,
    {
        PlayerData {
            identity: self.identity.clone(),
            team: self.team,
            operator: self.operator,
            disconnected: self.disconnected,
        }
    }
}

/// How a member appears to the other clients.
pub open spec fn network_player(p: PlayerData) -> NetworkPlayer {
    NetworkPlayer { name: p.identity.display_name, team: p.team }
}

impl NetworkPlayer {
    pub fn from(value: &PlayerData) -> (r: NetworkPlayer)
        ensures
            r == network_player(*value),
    {
        NetworkPlayer { name: value.identity.display_name.clone(), team: value.team }
    }
}

/// A team of a room. `id` is its position in the room's team list and
/// `gen_index` its entry in the palette, which gives its name and colour.
#[derive(Debug)]
pub struct GameTeam {
    pub id: usize,
    pub name: String,
    pub color: RgbColor,
    pub gen_index: usize,
    pub channel_id: ChannelAddress,
}

impl Clone for GameTeam {
    fn clone(&self) -> (r: Self)
        ensures
            r == *self,
    {
        GameTeam {
            id: self.id,
            name: self.name.clone(),
            color: self.color,
            gen_index: self.gen_index,
            channel_id: self.channel_id,
        }
    }
}

impl GameTeam {
    /// Team `id` of a room, from palette entry `index`.
    pub fn new(id: usize, index: usize, channel_id: ChannelAddress) -> (r: GameTeam)
        requires
            index < TEAM_COUNT,
        ensures
            r.id == id,
            r.gen_index == index,
            r.name@ == palette_name(index as int),
            r.channel_id == channel_id,
            r.color.r as int == crate::color::hex_byte(palette_color(index as int), 0),
            r.color.g as int == crate::color::hex_byte(palette_color(index as int), 2),
            r.color.b as int == crate::color::hex_byte(palette_color(index as int), 4),
    {
        proof {
            lemma_palette_colors_valid(index as int);
        }
        let color = match RgbColor::from_hex(team_color_hex(index)) {
            Ok(c) => c,
            Err(()) => {
                proof {
                    assert(false);
                }
                RgbColor { r: 0, g: 0, b: 0 }
            },
        };
        GameTeam { id, name: team_name(index), color, gen_index: index, channel_id }
    }
}

/// Teams are the same when their ids are.
impl PartialEq for GameTeam {
    fn eq(&self, other: &GameTeam) -> (r: bool) {
        self.id == other.id
    }
}

impl vstd::std_specs::cmp::PartialEqSpecImpl for GameTeam {
    open spec fn obeys_eq_spec() -> bool {
        true
    }

    open spec fn eq_spec(&self, other: &GameTeam) -> bool {
        self.id == other.id
    }
}

/// Members and teams of a room, as sent to clients.
#[derive(Debug)]
pub struct RoomStatus {
    pub members: Vec<NetworkPlayer>,
    pub teams: Vec<GameTeam>,
}

/// Why a player could not join a room.
#[derive(Debug)]
pub enum JoinRoomError {
    PlayerLimitReached,
    DoesNotExist(String),
    HasStarted,
    WrongPassword,
}

/// Why a claim on a cell was not accepted.
#[derive(Debug, Clone, Copy, PartialEq, Eq, Structural)]
pub enum ClaimError {
    NotStarted,
    NotAMember,
    UnknownMap,
    Rejected,
}

/// An accepted claim and the lines it completed.
#[derive(Debug)]
pub struct ClaimOutcome {
    pub cell_id: usize,
    pub claim: MapClaim,
    pub bingos: Vec<BingoLine>,
}

/// Maps that a configuration change hands back, and how many it still needs.
#[derive(Debug)]
pub struct MapChange {
    pub returned: Vec<GameMap>,
    pub returned_mode: MapMode,
    pub deficit: usize,
}

pub open spec fn has_account(members: Seq<PlayerData>, account: Seq<char>) -> bool {
    exists|i: int| 0 <= i < members.len() && (#[trigger] members[i]).identity.account_id@ == account
}

pub open spec fn unique_accounts(members: Seq<PlayerData>) -> bool {
    forall|i: int, j: int|
        0 <= i < j < members.len() ==> (#[trigger] members[i]).identity.account_id@ != (#[trigger] members[j]).identity.account_id@
}

pub open spec fn has_operator(members: Seq<PlayerData>) -> bool {
    exists|i: int| 0 <= i < members.len() && (#[trigger] members[i]).operator
}

/// Teams are numbered by position, come from distinct palette entries and
/// carry their entry's name.
pub open spec fn teams_wf(teams: Seq<GameTeam>) -> bool {
    &&& teams.len() <= TEAM_COUNT
    &&& forall|i: int| 0 <= i < teams.len() ==> {
        &&& (#[trigger] teams[i]).id == i
        &&& teams[i].gen_index < TEAM_COUNT
        &&& teams[i].name@ == palette_name(teams[i].gen_index as int)
    }
    &&& forall|i: int, j: int| 0 <= i < j < teams.len() ==> (#[trigger] teams[i]).gen_index != (#[trigger] teams[j]).gen_index
}

/// `s` lists the members (as others see them) and teams of `room`.
pub open spec fn status_of(room: GameRoom, s: RoomStatus) -> bool {
    &&& s.teams@ == room.spec_teams()
    &&& s.members@.len() == room.spec_members().len()
    &&& forall|i: int| 0 <= i < s.members@.len() ==> #[trigger] s.members@[i] == network_player(room.spec_members()[i])
}

/// `i` is the first position of a map with uid `uid`.
pub open spec fn is_first_map(maps: Seq<GameMap>, uid: Seq<char>, i: int) -> bool {
    0 <= i < maps.len() && maps[i].uid@ == uid && forall|k: int| 0 <= k < i ==> (#[trigger] maps[k]).uid@ != uid
}

/// Whether a claim by `account` on the map `uid` with `medal` and `time` is
/// accepted by `room`: its game runs, the player is a member, the map is on
/// the grid and the claim beats the cell of the first map with that uid.
pub open spec fn claim_ok(room: GameRoom, account: Seq<char>, uid: Seq<char>, medal: Medal, time: u64) -> bool {
    &&& room.started()
    &&& has_account(room.spec_members(), account)
    &&& exists|i: int| #[trigger] is_first_map(room.spec_maps(), uid, i)
        && claim_accepted(room.spec_config().medal, medal, time, room.cells()[i].claim)
}

/// A uid has at most one first position.
pub proof fn lemma_first_map_unique(maps: Seq<GameMap>, uid: Seq<char>, i: int, j: int)
    requires
        is_first_map(maps, uid, i),
        is_first_map(maps, uid, j),
    ensures
        i == j,
{
    if i < j {
        assert(maps[i].uid@ != uid);
    } else if j < i {
        assert(maps[j].uid@ != uid);
    }
}

/// Every claim held by `cells` meets the medal requirement `required`.
pub open spec fn claims_meet(cells: Seq<MapCell>, required: Medal) -> bool {
    forall|i: int| 0 <= i < cells.len() ==> ((#[trigger] cells[i]).claim matches Some(c) ==> medal_meets(c.medal, required))
}

pub open spec fn palette_used(teams: Seq<GameTeam>, g: int) -> bool {
    exists|i: int| 0 <= i < teams.len() && (#[trigger] teams[i]).gen_index == g
}

/// The member list once a room with no operator left has promoted its
/// longest-present member.
pub open spec fn promoted(members: Seq<PlayerData>) -> Seq<PlayerData> {
    if members.len() > 0 && !has_operator(members) {
        members.update(0, PlayerData { operator: true, ..members[0] })
    } else {
        members
    }
}

/// The slot a new member gets.
pub open spec fn new_slot(config: RoomConfiguration, team_count: int, identity: PlayerIdentity, operator: bool) -> PlayerData {
    PlayerData {
        identity,
        team: if !config.randomize && team_count > 0 { Some(0usize) } else { None },
        operator,
        disconnected: false,
    }
}

/// A room: configuration, members, teams, maps and the game in progress.
#[derive(Debug)]
pub struct GameRoom {
    config: RoomConfiguration,
    join_code: String,
    members: Vec<PlayerData>,
    teams: Vec<GameTeam>,
    maps: Vec<GameMap>,
    active: Option<ActiveGameData>,
    channel: ChannelAddress,
}

impl GameRoom {
    pub closed spec fn spec_config(&self) -> RoomConfiguration {
        self.config
    }

    pub closed spec fn spec_join_code(&self) -> Seq<char> {
        self.join_code@
    }

    pub closed spec fn spec_members(&self) -> Seq<PlayerData> {
        self.members@
    }

    pub closed spec fn spec_teams(&self) -> Seq<GameTeam> {
        self.teams@
    }

    pub closed spec fn spec_maps(&self) -> Seq<GameMap> {
        self.maps@
    }

    pub closed spec fn spec_active(&self) -> Option<ActiveGameData> {
        self.active
    }

    pub closed spec fn spec_channel(&self) -> ChannelAddress {
        self.channel
    }

    pub open spec fn started(&self) -> bool {
        self.spec_active() is Some
    }

    pub open spec fn cells(&self) -> Seq<MapCell> {
        self.spec_active()->Some_0.cells@
    }

    /// The room's invariant.
    pub open spec fn wf(&self) -> bool {
        &&& unique_accounts(self.spec_members())
        &&& teams_wf(self.spec_teams())
        &&& forall|i: int| 0 <= i < self.spec_members().len() ==>
            ((#[trigger] self.spec_members()[i]).team matches Some(t) ==> t < self.spec_teams().len())
        &&& self.spec_maps().len() <= self.spec_config().cell_count()
        &&& self.started() ==> {
            &&& self.spec_maps().len() == self.spec_config().cell_count()
            &&& self.cells().len() == self.spec_config().cell_count()
            &&& claims_meet(self.cells(), self.spec_config().medal)
        }
    }

    /// An empty room in the lobby.
    pub fn create(config: RoomConfiguration, join_code: String, channel: ChannelAddress) -> (r: Self)
        ensures
            r.wf(),
            r.spec_config() == config,
            r.spec_join_code() == join_code@,
            r.spec_channel() == channel,
            r.spec_members().len() == 0,
            r.spec_teams().len() == 0,
            r.spec_maps().len() == 0,
            !r.started(),
    {
        GameRoom {
            config,
            join_code,
            members: Vec::new(),
            teams: Vec::new(),
            maps: Vec::new(),
            active: None,
            channel,
        }
    }

    pub fn name(&self) -> (r: &String)
        ensures
            r@ == self.spec_config().name@,
    {
        &self.config.name
    }

    pub fn join_code(&self) -> (r: &String)
        ensures
            r@ == self.spec_join_code(),
    {
        &self.join_code
    }

    pub fn config(&self) -> (r: &RoomConfiguration)
        ensures
            *r == self.spec_config(),
    {
        &self.config
    }

    pub fn maps(&self) -> (r: &Vec<GameMap>)
        ensures
            r@ == self.spec_maps(),
    {
        &self.maps
    }

    pub fn game_data(&self) -> (r: &Option<ActiveGameData>)
        ensures
            *r == self.spec_active(),
    {
        &self.active
    }

    pub fn has_started(&self) -> (r: bool)
        ensures
            r == self.started(),
    {
        self.active.is_some()
    }

    pub fn channel(&self) -> (r: ChannelAddress)
        ensures
            r == self.spec_channel(),
    {
        self.channel
    }

    pub fn members(&self) -> (r: &Vec<PlayerData>)
        ensures
            r@ == self.spec_members(),
    {
        &self.members
    }

    /// Position of the member with account id `account`.
    pub fn player_index(&self, account: &String) -> (r: Option<usize>)
        ensures
            r is None <==> !has_account(self.spec_members(), account@),
            r matches Some(i) ==> i < self.spec_members().len()
                && self.spec_members()[i as int].identity.account_id@ == account@,
    {
        let mut i: usize = 0;
        while i < self.members.len()
            invariant
                i <= self.members@.len(),
                forall|k: int| 0 <= k < i ==> (#[trigger] self.members@[k]).identity.account_id@ != account@,
            decreases self.members@.len() - i,
        {
            if self.members[i].identity.account_id == *account {
                return Some(i);
            }
            i = i + 1;
        }
        None
    }

    /// The slot of `identity`, if it is a member.
    pub fn get_player(&self, identity: &PlayerIdentity) -> (r: Option<&PlayerData>)
        ensures
            r is None <==> !has_account(self.spec_members(), identity.account_id@),
            r matches Some(p) ==> self.spec_members().contains(*p)
                && p.identity.account_id@ == identity.account_id@,
    {
        match self.player_index(&identity.account_id) {
            Some(i) => {
                assert(self.spec_members()[i as int] == self.members@[i as int]);
                Some(&self.members[i])
            },
            None => None,
        }
    }

    pub fn get_team(&self, team: usize) -> (r: Option<&GameTeam>)
        ensures
            r is None <==> team >= self.spec_teams().len(),
            r matches Some(t) ==> *t == self.spec_teams()[team as int],
    {
        if team < self.teams.len() {
            Some(&self.teams[team])
        } else {
            None
        }
    }

    /// The members as other clients see them, in order of arrival.
    pub fn players(&self) -> (r: Vec<NetworkPlayer>)
        ensures
            r@.len() == self.spec_members().len(),
            forall|i: int| 0 <= i < r@.len() ==> #[trigger] r@[i] == network_player(self.spec_members()[i]),
    {
        let mut r: Vec<NetworkPlayer> = Vec::new();
        let mut i: usize = 0;
        while i < self.members.len()
            invariant
                i <= self.members@.len(),
                r@.len() == i,
                forall|k: int| 0 <= k < i ==> #[trigger] r@[k] == network_player(self.members@[k]),
            decreases self.members@.len() - i,
        {
            r.push(NetworkPlayer::from(&self.members[i]));
            i = i + 1;
        }
        r
    }

    pub fn teams(&self) -> (r: Vec<GameTeam>)
        ensures
            r@ == self.spec_teams(),
    {
        let mut r: Vec<GameTeam> = Vec::new();
        let mut i: usize = 0;
        while i < self.teams.len()
            invariant
                i <= self.teams@.len(),
                r@ == self.teams@.subrange(0, i as int),
            decreases self.teams@.len() - i,
        {
            r.push(self.teams[i].clone());
            i = i + 1;
        }
        assert(r@ =~= self.teams@);
        r
    }

    pub fn status(&self) -> (r: RoomStatus)
        ensures
            status_of(*self, r),
    {
        RoomStatus { members: self.players(), teams: self.teams() }
    }

    /// Whether `given` opens the room: always when it has no password.
    pub fn check_password(&self, given: &Option<String>) -> (r: bool)
        ensures
            r == match self.spec_config().password {
                None => true,
                Some(p) => (given matches Some(g) && g@ == p@),
            },
    {
        match &self.config.password {
            None => true,
            Some(p) => match given {
                Some(g) => *g == *p,
                None => false,
            },
        }
    }

    fn team_exists_with_gen(&self, g: usize) -> (r: bool)
        ensures
            r == palette_used(self.spec_teams(), g as int),
    {
        let mut i: usize = 0;
        while i < self.teams.len()
            invariant
                i <= self.teams@.len(),
                forall|k: int| 0 <= k < i ==> (#[trigger] self.teams@[k]).gen_index != g,
            decreases self.teams@.len() - i,
        {
            if self.teams[i].gen_index == g {
                return true;
            }
            i = i + 1;
        }
        false
    }

    /// Adds a team from a palette entry that no team of the room uses, drawn
    /// uniformly among those left. Fails once the palette is exhausted.
    pub fn create_team(&mut self, channel: ChannelAddress) -> (r: Option<GameTeam>)
        requires
            old(self).wf(),
        ensures
            final(self).wf(),
            r is None <==> old(self).spec_teams().len() >= TEAM_COUNT,
            r is None ==> *final(self) == *old(self),
            r matches Some(t) ==> {
                &&& final(self).spec_teams() == old(self).spec_teams().push(t)
                &&& t.id == old(self).spec_teams().len()
                &&& t.channel_id == channel
                &&& !palette_used(old(self).spec_teams(), t.gen_index as int)
                &&& final(self).spec_members() == old(self).spec_members()
                &&& final(self).spec_maps() == old(self).spec_maps()
                &&& final(self).spec_config() == old(self).spec_config()
                &&& final(self).spec_active() == old(self).spec_active()
                &&& final(self).spec_join_code() == old(self).spec_join_code()
                &&& final(self).spec_channel() == old(self).spec_channel()
            },
    {
        let team_count = self.teams.len();
        if team_count >= TEAM_COUNT {
            return None;
        }
        let mut unused: Vec<usize> = Vec::new();
        let mut g: usize = 0;
        while g < TEAM_COUNT
            invariant
                g <= TEAM_COUNT,
                forall|k: int| 0 <= k < unused@.len() ==> (#[trigger] unused@[k]) < TEAM_COUNT
                    && !palette_used(self.teams@, unused@[k] as int),
                forall|h: int| 0 <= h < g && !palette_used(self.teams@, h) ==> #[trigger] unused@.contains(h as usize),
            decreases TEAM_COUNT - g,
        {
            let ghost prev = unused@;
            if !self.team_exists_with_gen(g) {
                unused.push(g);
            }
            assert forall|h: int| 0 <= h < g + 1 && !palette_used(self.teams@, h) implies #[trigger] unused@.contains(h as usize) by {
                if h == g {
                    assert(unused@[unused@.len() - 1] == g);
                } else {
                    assert(prev.contains(h as usize));
                    let w = choose|w: int| 0 <= w < prev.len() && prev[w] == h as usize;
                    assert(unused@[w] == h as usize);
                }
            }
            g = g + 1;
        }
        proof {
            self.lemma_some_palette_free();
            let h = choose|h: int| 0 <= h < TEAM_COUNT && !palette_used(self.teams@, h);
            assert(unused@.contains(h as usize));
        }
        let pick = random_below(unused.len());
        let idx = unused[pick];
        let team = GameTeam::new(team_count, idx, channel);
        self.teams.push(team.clone());
        proof {
            assert forall|i: int, j: int| 0 <= i < j < self.teams@.len() implies
                (#[trigger] self.teams@[i]).gen_index != (#[trigger] self.teams@[j]).gen_index by {
                if j == team_count {
                    assert(old(self).teams@[i] == self.teams@[i]);
                    assert(!palette_used(old(self).teams@, idx as int));
                }
            }
            assert forall|i: int| 0 <= i < self.members@.len() implies
                ((#[trigger] self.members@[i]).team matches Some(t) ==> t < self.teams@.len()) by {
                assert(old(self).members@[i] == self.members@[i]);
            }
        }
        Some(team)
    }

    proof fn lemma_some_palette_free(&self)
        requires
            teams_wf(self.teams@),
            self.teams@.len() < TEAM_COUNT,
        ensures
            exists|h: int| 0 <= h < TEAM_COUNT && !palette_used(self.teams@, h),
    {
        let t = self.teams@;
        if forall|h: int| 0 <= h < TEAM_COUNT ==> palette_used(t, h) {
            // each palette entry is used by a distinct team: the map from entry to team is injective
            let f = |h: int| choose|i: int| 0 <= i < t.len() && (#[trigger] t[i]).gen_index == h;
            assert forall|h: int| 0 <= h < TEAM_COUNT implies 0 <= #[trigger] f(h) < t.len() && t[f(h)].gen_index == h by {
                assert(palette_used(t, h));
            }
            let s = Set::new(|i: int| 0 <= i < t.len());
            let img = Set::new(|h: int| 0 <= h < TEAM_COUNT).map(f);
            assert(Set::new(|h: int| 0 <= h < TEAM_COUNT) =~= vstd::set_lib::set_int_range(0, TEAM_COUNT as int));
            vstd::set_lib::lemma_int_range(0, TEAM_COUNT as int);
            assert(img.subset_of(vstd::set_lib::set_int_range(0, t.len() as int)));
            vstd::set_lib::lemma_int_range(0, t.len() as int);
            assert(vstd::relations::injective_on(f, Set::new(|h: int| 0 <= h < TEAM_COUNT)));
            vstd::set_lib::lemma_map_size(Set::new(|h: int| 0 <= h < TEAM_COUNT), img, f);
            vstd::set_lib::lemma_len_subset(img, vstd::set_lib::set_int_range(0, t.len() as int));
        }
    }

    /// Adds `identity` as a member. A started or full room refuses; a player
    /// who is already a member keeps their one slot.
    pub fn player_join(&mut self, identity: &PlayerIdentity, operator: bool) -> (r: Result<usize, JoinRoomError>)
        requires
            old(self).wf(),
        ensures
            final(self).wf(),
            old(self).started() ==> r matches Err(JoinRoomError::HasStarted),
            !old(self).started() && old(self).spec_config().size != 0
                && old(self).spec_members().len() >= old(self).spec_config().size ==>
                r matches Err(JoinRoomError::PlayerLimitReached),
            r is Ok && has_account(old(self).spec_members(), identity.account_id@) ==>
                (r matches Ok(i) && old(self).spec_members()[i as int].identity.account_id@ == identity.account_id@),
            r is Err || has_account(old(self).spec_members(), identity.account_id@) ==> *final(self) == *old(self),
            r is Ok && !has_account(old(self).spec_members(), identity.account_id@) ==> {
                &&& r == Ok::<usize, JoinRoomError>(old(self).spec_members().len() as usize)
                &&& final(self).spec_members() == old(self).spec_members().push(
                    new_slot(old(self).spec_config(), old(self).spec_teams().len() as int, *identity, operator))
                &&& final(self).spec_teams() == old(self).spec_teams()
                &&& final(self).spec_maps() == old(self).spec_maps()
                &&& final(self).spec_config() == old(self).spec_config()
                &&& final(self).spec_active() == old(self).spec_active()
                &&& final(self).spec_join_code() == old(self).spec_join_code()
                &&& final(self).spec_channel() == old(self).spec_channel()
            },
            r is Err <==> old(self).started() || (old(self).spec_config().size != 0
                && old(self).spec_members().len() >= old(self).spec_config().size),
    {
        if self.active.is_some() {
            return Err(JoinRoomError::HasStarted);
        }
        if self.config.size != 0 && self.members.len() as u64 >= self.config.size as u64 {
            return Err(JoinRoomError::PlayerLimitReached);
        }
        if let Some(i) = self.player_index(&identity.account_id) {
            return Ok(i);
        }
        let team = if !self.config.randomize && self.teams.len() > 0 {
            Some(0usize)
        } else {
            None
        };
        let slot = PlayerData { identity: identity.clone(), team, operator, disconnected: false };
        let at = self.members.len();
        self.members.push(slot);
        proof {
            assert forall|i: int, j: int| 0 <= i < j < self.members@.len() implies
                (#[trigger] self.members@[i]).identity.account_id@ != (#[trigger] self.members@[j]).identity.account_id@ by {
                if j == at {
                    assert(old(self).members@[i] == self.members@[i]);
                }
            }
        }
        Ok(at)
    }

    /// Removes `identity`'s slot. When no operator is left, the longest-present
    /// member becomes one. Returns whether the room is now empty and should close.
    pub fn player_remove(&mut self, identity: &PlayerIdentity) -> (should_close: bool)
        requires
            old(self).wf(),
        ensures
            final(self).wf(),
            should_close == (final(self).spec_members().len() == 0),
            !has_account(final(self).spec_members(), identity.account_id@),
            forall|a: Seq<char>| has_account(final(self).spec_members(), a) ==> has_account(old(self).spec_members(), a),
            forall|i: int| 0 <= i < old(self).spec_members().len()
                && old(self).spec_members()[i].identity.account_id@ == identity.account_id@ ==>
                final(self).spec_members() == promoted(old(self).spec_members().remove(i)),
            !has_account(old(self).spec_members(), identity.account_id@) ==>
                final(self).spec_members() == promoted(old(self).spec_members()),
            final(self).spec_teams() == old(self).spec_teams(),
            final(self).spec_maps() == old(self).spec_maps(),
            final(self).spec_config() == old(self).spec_config(),
            final(self).spec_active() == old(self).spec_active(),
            final(self).spec_join_code() == old(self).spec_join_code(),
            final(self).spec_channel() == old(self).spec_channel(),
    {
        let ghost before = self.members@;
        let found = self.player_index(&identity.account_id);
        match found {
            Some(i) => {
                self.members.remove(i);
                proof {
                    assert(self.members@ =~= before.remove(i as int));
                    assert forall|k: int| 0 <= k < before.len()
                        && before[k].identity.account_id@ == identity.account_id@ implies k == i by {
                        if k != i {
                            if k < i {
                                assert(before[k].identity.account_id@ != before[i as int].identity.account_id@);
                            } else {
                                assert(before[i as int].identity.account_id@ != before[k].identity.account_id@);
                            }
                        }
                    }
                    assert forall|a: int, b: int| 0 <= a < b < self.members@.len() implies
                        (#[trigger] self.members@[a]).identity.account_id@ != (#[trigger] self.members@[b]).identity.account_id@ by {
                        let a0 = if a < i { a } else { a + 1 };
                        let b0 = if b < i { b } else { b + 1 };
                        assert(self.members@[a] == before[a0]);
                        assert(self.members@[b] == before[b0]);
                    }
                    assert forall|k: int| 0 <= k < self.members@.len() implies
                        ((#[trigger] self.members@[k]).team matches Some(t) ==> t < self.teams@.len()) by {
                        let k0 = if k < i { k } else { k + 1 };
                        assert(self.members@[k] == before[k0]);
                    }
                }
            },
            None => {},
        }
        let ghost removed = self.members@;
        proof {
            assert forall|k: int| 0 <= k < removed.len() implies (#[trigger] removed[k]).identity.account_id@ != identity.account_id@ by {
                match found {
                    Some(i) => {
                        let k0 = if k < i { k } else { k + 1 };
                        assert(removed[k] == before[k0]);
                        assert(k0 != i);
                        if k0 < i {
                            assert(before[k0].identity.account_id@ != before[i as int].identity.account_id@);
                        } else {
                            assert(before[i as int].identity.account_id@ != before[k0].identity.account_id@);
                        }
                    },
                    None => {},
                }
            }
            assert forall|a: Seq<char>| has_account(removed, a) implies has_account(before, a) by {
                let k = choose|k: int| 0 <= k < removed.len() && (#[trigger] removed[k]).identity.account_id@ == a;
                match found {
                    Some(i) => {
                        let k0 = if k < i { k } else { k + 1 };
                        assert(removed[k] == before[k0]);
                    },
                    None => {},
                }
            }
        }
        self.promote_if_needed();
        proof {
            assert forall|a: Seq<char>| has_account(self.members@, a) implies has_account(removed, a) by {
                let k = choose|k: int| 0 <= k < self.members@.len() && (#[trigger] self.members@[k]).identity.account_id@ == a;
                assert(self.members@[k].identity == removed[k].identity);
            }
        }
        self.members.len() == 0
    }

    /// Makes the first member an operator when there is none.
    fn promote_if_needed(&mut self)
        requires
            unique_accounts(old(self).members@),
        ensures
            final(self).members@ == promoted(old(self).members@),
            unique_accounts(final(self).members@),
            forall|i: int| 0 <= i < final(self).members@.len() ==> (#[trigger] final(self).members@[i]).team == old(self).members@[i].team,
            final(self).teams@ == old(self).teams@,
            final(self).maps@ == old(self).maps@,
            final(self).config == old(self).config,
            final(self).active == old(self).active,
            final(self).join_code == old(self).join_code,
            final(self).channel == old(self).channel,
    {
        if self.members.len() == 0 {
            return;
        }
        let mut i: usize = 0;
        while i < self.members.len()
            invariant
                *self == *old(self),
                unique_accounts(old(self).members@),
                i <= self.members@.len(),
                forall|k: int| 0 <= k < i ==> !(#[trigger] self.members@[k]).operator,
            decreases self.members@.len() - i,
        {
            if self.members[i].operator {
                proof {
                    assert(self.members@ == old(self).members@);
                    assert(has_operator(self.members@));
                }
                return;
            }
            i = i + 1;
        }
        let mut first = self.members[0].clone();
        first.operator = true;
        self.members.set(0, first);
        proof {
            assert(self.members@ =~= promoted(old(self).members@));
            assert forall|a: int, b: int| 0 <= a < b < self.members@.len() implies
                (#[trigger] self.members@[a]).identity.account_id@ != (#[trigger] self.members@[b]).identity.account_id@ by {
                assert(old(self).members@[a].identity == self.members@[a].identity);
                assert(old(self).members@[b].identity == self.members@[b].identity);
            }
        }
    }

    /// Moves `identity` to `team`. Does nothing when the team does not exist
    /// or the player is not a member; returns whether the move happened.
    pub fn change_team(&mut self, identity: &PlayerIdentity, team: usize) -> (r: bool)
        requires
            old(self).wf(),
        ensures
            final(self).wf(),
            r == (team < old(self).spec_teams().len() && has_account(old(self).spec_members(), identity.account_id@)),
            !r ==> *final(self) == *old(self),
            r ==> forall|i: int| 0 <= i < old(self).spec_members().len()
                && old(self).spec_members()[i].identity.account_id@ == identity.account_id@ ==>
                final(self).spec_members() == old(self).spec_members().update(i,
                    PlayerData { team: Some(team), ..old(self).spec_members()[i] }),
            final(self).spec_teams() == old(self).spec_teams(),
            final(self).spec_maps() == old(self).spec_maps(),
            final(self).spec_config() == old(self).spec_config(),
            final(self).spec_active() == old(self).spec_active(),
            final(self).spec_join_code() == old(self).spec_join_code(),
            final(self).spec_channel() == old(self).spec_channel(),
    {
        if team >= self.teams.len() {
            return false;
        }
        match self.player_index(&identity.account_id) {
            Some(i) => {
                let mut slot = self.members[i].clone();
                slot.team = Some(team);
                self.members.set(i, slot);
                proof {
                    let before = old(self).members@;
                    assert forall|k: int| 0 <= k < before.len()
                        && before[k].identity.account_id@ == identity.account_id@ implies k == i by {
                        if k < i {
                            assert(before[k].identity.account_id@ != before[i as int].identity.account_id@);
                        } else if k > i {
                            assert(before[i as int].identity.account_id@ != before[k].identity.account_id@);
                        }
                    }
                    assert forall|a: int, b: int| 0 <= a < b < self.members@.len() implies
                        (#[trigger] self.members@[a]).identity.account_id@ != (#[trigger] self.members@[b]).identity.account_id@ by {
                        assert(before[a].identity == self.members@[a].identity);
                        assert(before[b].identity == self.members@[b].identity);
                    }
                    assert forall|k: int| 0 <= k < self.members@.len() implies
                        ((#[trigger] self.members@[k]).team matches Some(t) ==> t < self.teams@.len()) by {
                        if k != i {
                            assert(self.members@[k] == before[k]);
                        }
                    }
                }
                true
            },
            None => false,
        }
    }

    /// Marks `identity`'s slot as disconnected or back. Returns whether the
    /// player is a member.
    pub fn set_disconnected(&mut self, identity: &PlayerIdentity, disconnected: bool) -> (r: bool)
        requires
            old(self).wf(),
        ensures
            final(self).wf(),
            r == has_account(old(self).spec_members(), identity.account_id@),
            !r ==> *final(self) == *old(self),
            forall|i: int| 0 <= i < old(self).spec_members().len()
                && old(self).spec_members()[i].identity.account_id@ == identity.account_id@ ==>
                final(self).spec_members() == old(self).spec_members().update(i,
                    PlayerData { disconnected, ..old(self).spec_members()[i] }),
            final(self).spec_teams() == old(self).spec_teams(),
            final(self).spec_maps() == old(self).spec_maps(),
            final(self).spec_config() == old(self).spec_config(),
            final(self).spec_active() == old(self).spec_active(),
            final(self).spec_join_code() == old(self).spec_join_code(),
            final(self).spec_channel() == old(self).spec_channel(),
    {
        match self.player_index(&identity.account_id) {
            Some(i) => {
                let mut slot = self.members[i].clone();
                slot.disconnected = disconnected;
                self.members.set(i, slot);
                proof {
                    let before = old(self).members@;
                    assert forall|k: int| 0 <= k < before.len()
                        && before[k].identity.account_id@ == identity.account_id@ implies k == i by {
                        if k < i {
                            assert(before[k].identity.account_id@ != before[i as int].identity.account_id@);
                        } else if k > i {
                            assert(before[i as int].identity.account_id@ != before[k].identity.account_id@);
                        }
                    }
                    assert forall|a: int, b: int| 0 <= a < b < self.members@.len() implies
                        (#[trigger] self.members@[a]).identity.account_id@ != (#[trigger] self.members@[b]).identity.account_id@ by {
                        assert(before[a].identity == self.members@[a].identity);
                        assert(before[b].identity == self.members@[b].identity);
                    }
                    assert forall|k: int| 0 <= k < self.members@.len() implies
                        ((#[trigger] self.members@[k]).team matches Some(t) ==> t < self.teams@.len()) by {
                        assert(self.members@[k].team == before[k].team);
                    }
                }
                true
            },
            None => false,
        }
    }
}


impl GameRoom {
    /// Adds maps up to the grid's cell count; returns those that did not fit.
    /// A started game takes none.
    pub fn add_maps(&mut self, maps: Vec<GameMap>) -> (surplus: Vec<GameMap>)
        requires
            old(self).wf(),
        ensures
            final(self).wf(),
            old(self).started() ==> *final(self) == *old(self) && surplus@ == maps@,
            !old(self).started() ==> {
                let room = old(self).spec_config().cell_count() - old(self).spec_maps().len();
                let k = if maps@.len() < room { maps@.len() as int } else { room };
                &&& final(self).spec_maps() == old(self).spec_maps() + maps@.subrange(0, k)
                &&& surplus@ == maps@.subrange(k, maps@.len() as int)
                &&& final(self).spec_members() == old(self).spec_members()
                &&& final(self).spec_teams() == old(self).spec_teams()
                &&& final(self).spec_config() == old(self).spec_config()
                &&& final(self).spec_active() == old(self).spec_active()
                &&& final(self).spec_join_code() == old(self).spec_join_code()
                &&& final(self).spec_channel() == old(self).spec_channel()
            },
    {
        let mut maps = maps;
        if self.active.is_some() {
            return maps;
        }
        let room = self.config.grid_cells() - self.maps.len();
        let k = if maps.len() < room { maps.len() } else { room };
        let surplus = maps.split_off(k);
        let mut i: usize = 0;
        let ghost start = self.maps@;
        while i < maps.len()
            invariant
                i <= maps@.len(),
                maps@.len() == k,
                self.maps@ == start + maps@.subrange(0, i as int),
                self.config == old(self).config,
                self.active == old(self).active,
                self.members == old(self).members,
                self.teams == old(self).teams,
                self.join_code == old(self).join_code,
                self.channel == old(self).channel,
            decreases maps@.len() - i,
        {
            self.maps.push(maps[i].clone());
            assert(self.maps@ =~= start + maps@.subrange(0, i + 1));
            i = i + 1;
        }
        assert(maps@.subrange(0, k as int) =~= maps@);
        surplus
    }

    /// Replaces the map list. Refused (returning `false`) once the game has
    /// started or when there are more maps than cells.
    pub fn set_maps(&mut self, maps: Vec<GameMap>) -> (r: bool)
        requires
            old(self).wf(),
        ensures
            final(self).wf(),
            r == (!old(self).started() && maps@.len() <= old(self).spec_config().cell_count()),
            r ==> final(self).spec_maps() == maps@,
            !r ==> *final(self) == *old(self),
            final(self).spec_members() == old(self).spec_members(),
            final(self).spec_teams() == old(self).spec_teams(),
            final(self).spec_config() == old(self).spec_config(),
            final(self).spec_active() == old(self).spec_active(),
    {
        if self.active.is_some() || maps.len() > self.config.grid_cells() {
            return false;
        }
        self.maps = maps;
        true
    }

    /// Takes up to `count` maps from the end of the list, in the lobby only.
    pub fn remove_maps(&mut self, count: usize) -> (r: Vec<GameMap>)
        requires
            old(self).wf(),
        ensures
            final(self).wf(),
            old(self).started() ==> *final(self) == *old(self) && r@.len() == 0,
            !old(self).started() ==> {
                let n = old(self).spec_maps().len();
                let keep = if count > n { 0 } else { n - count };
                &&& final(self).spec_maps() == old(self).spec_maps().subrange(0, keep)
                &&& r@ == old(self).spec_maps().subrange(keep, n as int)
            },
            final(self).spec_members() == old(self).spec_members(),
            final(self).spec_teams() == old(self).spec_teams(),
            final(self).spec_config() == old(self).spec_config(),
            final(self).spec_active() == old(self).spec_active(),
            final(self).spec_join_code() == old(self).spec_join_code(),
            final(self).spec_channel() == old(self).spec_channel(),
    {
        if self.active.is_some() {
            return Vec::new();
        }
        let n = self.maps.len();
        let keep = if count > n { 0 } else { n - count };
        self.maps.split_off(keep)
    }

    /// Takes every map, in the lobby only.
    pub fn remove_all_maps(&mut self) -> (r: Vec<GameMap>)
        requires
            old(self).wf(),
        ensures
            final(self).wf(),
            old(self).started() ==> *final(self) == *old(self) && r@.len() == 0,
            !old(self).started() ==> final(self).spec_maps().len() == 0 && r@ == old(self).spec_maps(),
            final(self).spec_members() == old(self).spec_members(),
            final(self).spec_teams() == old(self).spec_teams(),
            final(self).spec_config() == old(self).spec_config(),
            final(self).spec_active() == old(self).spec_active(),
    {
        let n = self.maps.len();
        let r = self.remove_maps(n);
        assert(old(self).spec_maps().subrange(0, n as int) =~= old(self).spec_maps());
        r
    }

    /// Applies a new configuration in the lobby and reconciles the map list:
    /// a new selection mode hands back every map and needs a full grid; a
    /// smaller grid hands back the maps past its cell count; a larger one
    /// needs the difference. Refused (`None`, nothing changed) once the game
    /// has started.
    pub fn set_config(&mut self, config: RoomConfiguration) -> (r: Option<MapChange>)
        requires
            old(self).wf(),
        ensures
            final(self).wf(),
            r is None <==> old(self).started(),
            r is None ==> *final(self) == *old(self),
            r matches Some(c) ==> {
                let old_maps = old(self).spec_maps();
                let cells = config.cell_count();
                &&& final(self).spec_config() == config
                &&& c.returned_mode == old(self).spec_config().selection
                &&& if config.selection != old(self).spec_config().selection {
                    &&& c.returned@ == old_maps
                    &&& final(self).spec_maps().len() == 0
                    &&& c.deficit == cells
                } else if old_maps.len() > cells {
                    &&& c.returned@ == old_maps.subrange(cells, old_maps.len() as int)
                    &&& final(self).spec_maps() == old_maps.subrange(0, cells)
                    &&& c.deficit == 0
                } else {
                    &&& c.returned@.len() == 0
                    &&& final(self).spec_maps() == old_maps
                    &&& c.deficit == cells - old_maps.len()
                }
                &&& final(self).spec_members() == old(self).spec_members()
                &&& final(self).spec_teams() == old(self).spec_teams()
                &&& final(self).spec_active() == old(self).spec_active()
                &&& final(self).spec_join_code() == old(self).spec_join_code()
                &&& final(self).spec_channel() == old(self).spec_channel()
            },
    {
        if self.active.is_some() {
            return None;
        }
        let returned_mode = self.config.selection;
        let cells = config.grid_cells();
        let n = self.maps.len();
        let (returned, deficit) = if config.selection != self.config.selection {
            (self.maps.split_off(0), cells)
        } else if n > cells {
            (self.maps.split_off(cells), 0)
        } else {
            (Vec::new(), cells - n)
        };
        self.config = config;
        Some(MapChange { returned, returned_mode, deficit })
    }

    /// Starts the game (`true`) with every cell empty, or ends it (`false`).
    /// Starting needs a full map list and a room in the lobby. Returns whether
    /// the state changed.
    pub fn set_started(&mut self, started: bool, now: u64) -> (r: bool)
        requires
            old(self).wf(),
        ensures
            final(self).wf(),
            started ==> r == (!old(self).started() && old(self).spec_maps().len() == old(self).spec_config().cell_count()),
            !started ==> r == old(self).started(),
            r && started ==> {
                &&& final(self).started()
                &&& final(self).spec_active()->Some_0.start_time == now
                &&& crate::game::all_empty(final(self).cells())
            },
            r && !started ==> !final(self).started(),
            !r ==> *final(self) == *old(self),
            final(self).spec_maps() == old(self).spec_maps(),
            final(self).spec_members() == old(self).spec_members(),
            final(self).spec_teams() == old(self).spec_teams(),
            final(self).spec_config() == old(self).spec_config(),
            final(self).spec_join_code() == old(self).spec_join_code(),
            final(self).spec_channel() == old(self).spec_channel(),
    {
        if started {
            if self.active.is_some() || self.maps.len() != self.config.grid_cells() {
                return false;
            }
            self.active = Some(ActiveGameData::new(self.maps.len(), now));
            true
        } else {
            if self.active.is_none() {
                return false;
            }
            self.active = None;
            true
        }
    }

    /// Position of the map with uid `uid`.
    pub fn get_map(&self, uid: &String) -> (r: Option<usize>)
        ensures
            r is None <==> forall|i: int| 0 <= i < self.spec_maps().len() ==> (#[trigger] self.spec_maps()[i]).uid@ != uid@,
            r matches Some(i) ==> i < self.spec_maps().len() && self.spec_maps()[i as int].uid@ == uid@
                && forall|k: int| 0 <= k < i ==> (#[trigger] self.spec_maps()[k]).uid@ != uid@,
    {
        let mut i: usize = 0;
        while i < self.maps.len()
            invariant
                i <= self.maps@.len(),
                forall|k: int| 0 <= k < i ==> (#[trigger] self.maps@[k]).uid@ != uid@,
            decreases self.maps@.len() - i,
        {
            if self.maps[i].uid == *uid {
                assert(self.spec_maps()[i as int].uid@ == uid@);
                return Some(i);
            }
            i = i + 1;
        }
        None
    }

    /// Every winning line of the game in progress; none in the lobby.
    pub fn check_for_bingos(&self) -> (r: Vec<BingoLine>)
        requires
            self.wf(),
        ensures
            self.started() ==> r@ == bingos(self.cells(), self.spec_config().grid_size as int),
            !self.started() ==> r@.len() == 0,
    {
        match &self.active {
            Some(a) => {
                let n = self.config.grid_size as usize;
                assert(n * n == self.config.cell_count());
                a.check_for_bingos(n)
            },
            None => Vec::new(),
        }
    }

    /// Arbitrates a claim by `identity` on the map `uid`: the game must be
    /// running, the player a member and the map on the grid; the claim is then
    /// accepted by the medal-and-time rule. An accepted claim is stored and the
    /// lines it newly completes are reported.
    pub fn claim_cell(&mut self, identity: &PlayerIdentity, uid: &String, time: u64, medal: Medal) -> (r: Result<ClaimOutcome, ClaimError>)
        requires
            old(self).wf(),
        ensures
            final(self).wf(),
            !old(self).started() ==> r == Err::<ClaimOutcome, ClaimError>(ClaimError::NotStarted),
            old(self).started() && !has_account(old(self).spec_members(), identity.account_id@) ==>
                r == Err::<ClaimOutcome, ClaimError>(ClaimError::NotAMember),
            old(self).started() && has_account(old(self).spec_members(), identity.account_id@)
                && (forall|i: int| 0 <= i < old(self).spec_maps().len() ==> (#[trigger] old(self).spec_maps()[i]).uid@ != uid@) ==>
                r == Err::<ClaimOutcome, ClaimError>(ClaimError::UnknownMap),
            r is Err ==> *final(self) == *old(self),
            r is Ok <==> claim_ok(*old(self), identity.account_id@, uid@, medal, time),
            r matches Err(ClaimError::NotStarted) ==> !old(self).started(),
            r matches Err(ClaimError::NotAMember) ==> old(self).started() && !has_account(old(self).spec_members(), identity.account_id@),
            r matches Err(ClaimError::UnknownMap) ==> old(self).started() && has_account(old(self).spec_members(), identity.account_id@)
                && forall|i: int| 0 <= i < old(self).spec_maps().len() ==> (#[trigger] old(self).spec_maps()[i]).uid@ != uid@,
            r matches Err(ClaimError::Rejected) ==> exists|i: int| 0 <= i < old(self).spec_maps().len()
                && (#[trigger] old(self).spec_maps()[i]).uid@ == uid@
                && !claim_accepted(old(self).spec_config().medal, medal, time, old(self).cells()[i].claim),
            r matches Ok(o) ==> {
                let i = o.cell_id as int;
                &&& 0 <= i < old(self).spec_maps().len()
                &&& old(self).spec_maps()[i].uid@ == uid@
                &&& forall|k: int| 0 <= k < i ==> (#[trigger] old(self).spec_maps()[k]).uid@ != uid@
                &&& claim_accepted(old(self).spec_config().medal, medal, time, old(self).cells()[i].claim)
                &&& o.claim.time == time
                &&& o.claim.medal == medal
                &&& exists|m: int| 0 <= m < old(self).spec_members().len()
                    && (#[trigger] old(self).spec_members()[m]).identity.account_id@ == identity.account_id@
                    && o.claim.player == network_player(old(self).spec_members()[m])
                &&& final(self).cells() == old(self).cells().update(i, MapCell { claim: Some(o.claim) })
                &&& final(self).started()
                &&& final(self).spec_active()->Some_0.start_time == old(self).spec_active()->Some_0.start_time
                &&& medal_meets(final(self).cells()[i].claim->Some_0.medal, final(self).spec_config().medal)
                &&& o.bingos@ == fresh_lines(
                    bingos(old(self).cells(), old(self).spec_config().grid_size as int),
                    bingos(final(self).cells(), final(self).spec_config().grid_size as int))
                &&& final(self).spec_maps() == old(self).spec_maps()
                &&& final(self).spec_members() == old(self).spec_members()
                &&& final(self).spec_teams() == old(self).spec_teams()
                &&& final(self).spec_config() == old(self).spec_config()
                &&& final(self).spec_join_code() == old(self).spec_join_code()
                &&& final(self).spec_channel() == old(self).spec_channel()
            },
    {
        if self.active.is_none() {
            return Err(ClaimError::NotStarted);
        }
        let m = match self.player_index(&identity.account_id) {
            Some(m) => m,
            None => {
                return Err(ClaimError::NotAMember);
            },
        };
        let cell_id = match self.get_map(uid) {
            Some(i) => i,
            None => {
                return Err(ClaimError::UnknownMap);
            },
        };
        let claim = MapClaim { player: NetworkPlayer::from(&self.members[m]), time, medal };
        let n = self.config.grid_size as usize;
        proof {
            assert(n * n == self.config.cell_count());
            assert(cell_id < n * n);
            assert(n >= 1) by (nonlinear_arith)
                requires cell_id < n * n;
        }
        let before = self.check_for_bingos();
        let required = self.config.medal;
        let acceptable = match &self.active {
            Some(a) => is_claim_accepted(required, medal, time, &a.cells[cell_id].claim),
            None => false,
        };
        proof {
            assert(is_first_map(self.maps@, uid@, cell_id as int));
            assert forall|j: int| #[trigger] is_first_map(self.maps@, uid@, j) implies j == cell_id by {
                lemma_first_map_unique(self.maps@, uid@, cell_id as int, j);
            }
        }
        if !acceptable {
            return Err(ClaimError::Rejected);
        }
        let stored = claim.clone();
        let _ = match &mut self.active {
            Some(a) => a.claim(cell_id, stored, required),
            None => false,
        };
        let after = self.check_for_bingos();
        let bingos = new_bingos(&before, &after);
        Ok(ClaimOutcome { cell_id, claim, bingos })
    }
}

impl GameRoom {
    pub open spec fn spec_is_operator(&self, account: Seq<char>) -> bool {
        exists|i: int| 0 <= i < self.spec_members().len()
            && (#[trigger] self.spec_members()[i]).identity.account_id@ == account
            && self.spec_members()[i].operator
    }

    /// Whether `identity` is a member with operator rights.
    pub fn is_operator(&self, identity: &PlayerIdentity) -> (r: bool)
        requires
            self.wf(),
        ensures
            r == self.spec_is_operator(identity.account_id@),
    {
        match self.player_index(&identity.account_id) {
            Some(i) => {
                proof {
                    if self.spec_is_operator(identity.account_id@) {
                        let k = choose|k: int| 0 <= k < self.spec_members().len()
                            && (#[trigger] self.spec_members()[k]).identity.account_id@ == identity.account_id@
                            && self.spec_members()[k].operator;
                        if k < i {
                            assert(self.members@[k].identity.account_id@ != self.members@[i as int].identity.account_id@);
                        } else if k > i {
                            assert(self.members@[i as int].identity.account_id@ != self.members@[k].identity.account_id@);
                        }
                    }
                }
                self.members[i].operator
            },
            None => false,
        }
    }
}

/// Team names and team ids are unique within a well-formed room.
pub proof fn lemma_teams_unique(room: &GameRoom, i: int, j: int)
    requires
        room.wf(),
        0 <= i < j < room.spec_teams().len(),
    ensures
        room.spec_teams()[i].name@ != room.spec_teams()[j].name@,
        room.spec_teams()[i].id != room.spec_teams()[j].id,
{
    let t = room.spec_teams();
    assert(t[i].gen_index != t[j].gen_index);
    crate::config::lemma_palette_names_distinct(t[i].gen_index as int, t[j].gen_index as int);
}

/// In a well-formed room every claim stored on a cell meets the room's
/// required medal.
pub proof fn lemma_claims_meet_medal(room: &GameRoom, i: int)
    requires
        room.wf(),
        room.started(),
        0 <= i < room.cells().len(),
        room.cells()[i].claim is Some,
    ensures
        medal_meets(room.cells()[i].claim->Some_0.medal, room.spec_config().medal),
{
}

/// A well-formed room holds at most a grid's worth of maps, and exactly that
/// many once its game has started.
pub proof fn lemma_map_count(room: &GameRoom)
    requires
        room.wf(),
    ensures
        room.spec_maps().len() <= room.spec_config().cell_count(),
        room.started() ==> room.spec_maps().len() == room.spec_config().cell_count(),
{
}

/// Every palette colour is six hex digits.
proof fn lemma_palette_colors_valid(i: int)
    requires
        0 <= i < TEAM_COUNT,
    ensures
        is_hex_color(palette_color(i)),
{
    let s = palette_color(i);
    assert forall|k: int| 0 <= k < 6 implies crate::color::is_hex_digit(#[trigger] s[k]) by {
        if i == 0 { assert(s == seq!['D', '8', '4', '3', '1', '5']); }
        if i == 1 { assert(s == seq!['8', 'B', 'C', '3', '4', 'A']); }
        if i == 2 { assert(s == seq!['0', '0', '9', '5', 'F', 'F']); }
        if i == 3 { assert(s == seq!['4', 'D', 'D', '0', 'E', '1']); }
        if i == 4 { assert(s == seq!['D', '8', '1', 'B', '6', '0']); }
        if i == 5 { assert(s == seq!['F', 'F', 'F', 'F', '0', '0']); }
    }
}

} // verus!
