//! Events pushed to clients, and the deliveries that carry them.

use vstd::prelude::*;

use crate::channel::ChannelAddress;
use crate::game::{BingoLine, MapClaim};
use crate::gamemap::GameMap;
use crate::room::{RoomConfiguration, RoomStatus};

verus! {

/// Events a client may send outside the request/response flow.
#[derive(Debug, Clone, Copy, PartialEq, Eq, Structural)]
pub enum ClientEvent {
    ChangeTeam { team_id: usize },
    LeaveRoom,
}

/// Events the server pushes, tagged by name on the wire.
#[derive(Debug)]
pub enum ServerEvent {
    RoomUpdate(RoomStatus),
    RoomConfigUpdate(RoomConfiguration),
    MapsLoadResult { error: Option<String> },
    GameStart { maps: Vec<GameMap> },
    CellClaim { cell_id: usize, claim: MapClaim },
    AnnounceBingo { line: BingoLine },
}

/// One event, the client keys it is to be delivered to (each once), and the
/// channel they were taken from, where dead subscribers are to be dropped.
#[derive(Debug)]
pub struct Dispatch {
    pub recipients: Vec<u64>,
    pub event: ServerEvent,
    pub channel: ChannelAddress,
}

} // verus!
