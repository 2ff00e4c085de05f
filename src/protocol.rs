//! The connection protocol: length-prefixed frames and the handshake.

use vstd::prelude::*;

use crate::config::{MINIMUM_MAJOR, MINIMUM_MINOR};
use crate::room::PlayerIdentity;
use crate::version::{digits_value, is_version_text, major_text, minor_text, version_lt, Version};

verus! {

/// The number written by four little-endian bytes.
pub open spec fn le_value(b: Seq<u8>) -> int {
    b[0] as int + 256 * (b[1] as int) + 65536 * (b[2] as int) + 16777216 * (b[3] as int)
}

/// The four little-endian bytes of `n`.
pub open spec fn le_bytes(n: int) -> Seq<u8> {
    seq![(n % 256) as u8, ((n / 256) % 256) as u8, ((n / 65536) % 256) as u8, ((n / 16777216) % 256) as u8]
}

/// A frame: the payload's length in four little-endian bytes, then the payload.
pub open spec fn frame_of(payload: Seq<u8>) -> Seq<u8> {
    le_bytes(payload.len() as int) + payload
}

/// What the front of a receive buffer holds.
#[derive(Debug)]
pub enum FrameParse {
    /// More bytes are needed.
    Incomplete,
    /// A whole frame: its payload, and how many bytes of the buffer it used.
    Frame { payload: Vec<u8>, consumed: usize },
    /// The announced length is over the limit; the connection must close.
    TooLong { length: u64 },
}

/// Frames `payload` for the wire.
pub fn encode_frame(payload: &Vec<u8>) -> (r: Vec<u8>)
    requires
        payload@.len() <= u32::MAX,
    ensures
        r@ == frame_of(payload@),
{
    let n = payload.len() as u32;
    let mut r: Vec<u8> = Vec::new();
    r.push((n % 256) as u8);
    r.push(((n / 256) % 256) as u8);
    r.push(((n / 65536) % 256) as u8);
    r.push(((n / 16777216) % 256) as u8);
    let mut i: usize = 0;
    while i < payload.len()
        invariant
            i <= payload@.len(),
            r@ == le_bytes(payload@.len() as int) + payload@.subrange(0, i as int),
        decreases payload@.len() - i,
    {
        r.push(payload[i]);
        assert(r@ =~= le_bytes(payload@.len() as int) + payload@.subrange(0, i + 1));
        i = i + 1;
    }
    assert(payload@.subrange(0, payload@.len() as int) =~= payload@);
    r
}

/// Reads the first frame of `buf`, refusing payloads longer than `max`.
pub fn split_frame(buf: &Vec<u8>, max: usize) -> (r: FrameParse)
    ensures
        buf@.len() < 4 ==> r is Incomplete,
        buf@.len() >= 4 ==> {
            let n = le_value(buf@);
            &&& n > max ==> (r matches FrameParse::TooLong { length } && length as int == n)
            &&& n <= max && buf@.len() < 4 + n ==> r is Incomplete
            &&& n <= max && buf@.len() >= 4 + n ==> (r matches FrameParse::Frame { payload, consumed }
                && consumed as int == 4 + n && payload@ == buf@.subrange(4, 4 + n))
        },
{
    if buf.len() < 4 {
        return FrameParse::Incomplete;
    }
    let b0 = buf[0] as u64;
    let b1 = buf[1] as u64;
    let b2 = buf[2] as u64;
    let b3 = buf[3] as u64;
    assert(b1 * 256 <= 255 * 256 && b2 * 65536 <= 255 * 65536 && b3 * 16777216 <= 255 * 16777216) by (nonlinear_arith)
        requires b1 <= 255, b2 <= 255, b3 <= 255;
    let n: u64 = b0 + 256 * b1 + 65536 * b2 + 16777216 * b3;
    if n > max as u64 {
        return FrameParse::TooLong { length: n };
    }
    let len = n as usize;
    if buf.len() - 4 < len {
        return FrameParse::Incomplete;
    }
    let mut payload: Vec<u8> = Vec::new();
    let mut i: usize = 0;
    while i < len
        invariant
            i <= len,
            4 + len <= buf@.len(),
            buf@.len() <= usize::MAX,
            payload@ == buf@.subrange(4, 4 + i),
        decreases len - i,
    {
        payload.push(buf[4 + i]);
        assert(payload@ =~= buf@.subrange(4, 4 + i + 1));
        i = i + 1;
    }
    FrameParse::Frame { payload, consumed: 4 + len }
}

/// Frame's length bytes read back give the payload's length.
pub proof fn lemma_frame_round_trip(payload: Seq<u8>)
    requires
        payload.len() <= u32::MAX,
    ensures
        le_value(frame_of(payload)) == payload.len(),
        frame_of(payload).subrange(4, 4 + payload.len() as int) == payload,
{
    let n = payload.len() as int;
    let f = frame_of(payload);
    assert(f[0] as int == n % 256);
    assert(f[1] as int == (n / 256) % 256);
    assert(f[2] as int == (n / 65536) % 256);
    assert(f[3] as int == (n / 16777216) % 256);
    assert((n % 256) + 256 * ((n / 256) % 256) + 65536 * ((n / 65536) % 256) + 16777216 * ((n / 16777216) % 256) == n) by (nonlinear_arith)
        requires 0 <= n <= 0xffff_ffff;
    assert(f.subrange(4, 4 + n) =~= payload);
}

/// Outcome of a handshake as the client sees it.
#[derive(Debug, Clone, Copy, PartialEq, Eq, Structural)]
pub enum HandshakeCode {
    Accepted,
    ParseError,
    IncompatibleVersion,
    AuthFailure,
    AuthRefused,
    CanReconnect,
}

impl HandshakeCode {
    pub open spec fn spec_code(self) -> int {
        match self {
            HandshakeCode::Accepted => 0,
            HandshakeCode::ParseError => 1,
            HandshakeCode::IncompatibleVersion => 2,
            HandshakeCode::AuthFailure => 3,
            HandshakeCode::AuthRefused => 4,
            HandshakeCode::CanReconnect => 5,
        }
    }

    /// The number sent in the handshake response.
    pub fn code(&self) -> (r: i32)
        ensures
            r as int == self.spec_code(),
    {
        match self {
            HandshakeCode::Accepted => 0,
            HandshakeCode::ParseError => 1,
            HandshakeCode::IncompatibleVersion => 2,
            HandshakeCode::AuthFailure => 3,
            HandshakeCode::AuthRefused => 4,
            HandshakeCode::CanReconnect => 5,
        }
    }
}

/// The oldest client version served.
pub fn minimum_version() -> (r: Version)
    ensures
        r.key() == (MINIMUM_MAJOR as int, MINIMUM_MINOR as int),
{
    Version(MINIMUM_MAJOR, MINIMUM_MINOR, String::new())
}

/// Checks the version a client announced: it must parse, and must not be
/// below the minimum.
pub fn check_version(version: &str) -> (r: Result<Version, HandshakeCode>)
    ensures
        !is_version_text(version@) ==> r == Err::<Version, HandshakeCode>(HandshakeCode::ParseError),
        is_version_text(version@) && version_lt(
            (digits_value(major_text(version@)), digits_value(minor_text(version@))),
            (MINIMUM_MAJOR as int, MINIMUM_MINOR as int),
        ) ==> r == Err::<Version, HandshakeCode>(HandshakeCode::IncompatibleVersion),
        r is Ok <==> is_version_text(version@) && !version_lt(
            (digits_value(major_text(version@)), digits_value(minor_text(version@))),
            (MINIMUM_MAJOR as int, MINIMUM_MINOR as int),
        ),
        r matches Ok(v) ==> v.key() == (digits_value(major_text(version@)), digits_value(minor_text(version@))),
{
    match Version::parse(version) {
        Err(()) => Err(HandshakeCode::ParseError),
        Ok(v) => {
            if v.is_below(&minimum_version()) {
                Err(HandshakeCode::IncompatibleVersion)
            } else {
                Ok(v)
            }
        },
    }
}

/// What the identity service answered.
#[derive(Debug)]
pub enum AuthOutcome {
    Identified(PlayerIdentity),
    /// The service refused the token, with its message.
    Refused(String),
    /// The service could not be reached or answered nonsense.
    Failed(String),
}

/// The handshake code for an answer of the identity service; a known
/// player with a way back into a room is told it can reconnect.
pub fn auth_code(auth: &AuthOutcome, can_reconnect: bool) -> (r: HandshakeCode)
    ensures
        r == auth_code_spec(*auth, can_reconnect),
        auth is Failed ==> r == HandshakeCode::AuthFailure,
        auth is Refused ==> r == HandshakeCode::AuthRefused,
        auth is Identified && can_reconnect ==> r == HandshakeCode::CanReconnect,
        auth is Identified && !can_reconnect ==> r == HandshakeCode::Accepted,
{
    match auth {
        AuthOutcome::Identified(_) => if can_reconnect {
            HandshakeCode::CanReconnect
        } else {
            HandshakeCode::Accepted
        },
        AuthOutcome::Refused(_) => HandshakeCode::AuthRefused,
        AuthOutcome::Failed(_) => HandshakeCode::AuthFailure,
    }
}

/// The handshake response frame's content.
#[derive(Debug)]
pub struct HandshakeResponse {
    pub code: HandshakeCode,
    pub username: Option<String>,
}

/// Response to a handshake that failed: the code alone.
pub fn handshake_end(code: HandshakeCode) -> (r: HandshakeResponse)
    ensures
        r.code == code,
        r.username is None,
{
    HandshakeResponse { code, username: None }
}

/// Response to a successful handshake: the code and the player's name.
pub fn handshake_success(identity: &PlayerIdentity, reconnect: bool) -> (r: HandshakeResponse)
    ensures
        r.code == (if reconnect { HandshakeCode::CanReconnect } else { HandshakeCode::Accepted }),
        r.username matches Some(n) && n@ == identity.display_name@,
{
    HandshakeResponse {
        code: if reconnect { HandshakeCode::CanReconnect } else { HandshakeCode::Accepted },
        username: Some(identity.display_name.clone()),
    }
}

/// The end of a handshake once the identity service has answered: the
/// player, when known, and the response to send. An unknown player gets the
/// failure code alone; a known one its name, and `CanReconnect` when it has
/// a way back into a room.
pub fn handshake_reply(auth: AuthOutcome, can_reconnect: bool) -> (r: (Option<PlayerIdentity>, HandshakeResponse))
    ensures
        r.1.code == auth_code_spec(auth, can_reconnect),
        auth matches AuthOutcome::Identified(p) ==> (r.0 == Some(p) && (r.1.username matches Some(n) && n@ == p.display_name@)),
        !(auth is Identified) ==> r.0 is None && r.1.username is None,
{
    let code = auth_code(&auth, can_reconnect);
    match auth {
        AuthOutcome::Identified(p) => {
            let response = handshake_success(&p, can_reconnect);
            (Some(p), response)
        },
        _ => (None, handshake_end(code)),
    }
}

/// The code `auth_code` gives.
pub open spec fn auth_code_spec(auth: AuthOutcome, can_reconnect: bool) -> HandshakeCode {
    match auth {
        AuthOutcome::Identified(_) => if can_reconnect { HandshakeCode::CanReconnect } else { HandshakeCode::Accepted },
        AuthOutcome::Refused(_) => HandshakeCode::AuthRefused,
        AuthOutcome::Failed(_) => HandshakeCode::AuthFailure,
    }
}

/// Where a connection is in its life.
#[derive(Debug, Clone, Copy, PartialEq, Eq, Structural)]
pub enum ConnectionState {
    Closed,
    Connecting,
    Connected,
    Closing,
}

impl ConnectionState {
    /// A handshake may only start on a fresh connection.
    pub fn can_handshake(&self) -> (r: bool)
        ensures
            r == (*self == ConnectionState::Closed),
    {
        *self == ConnectionState::Closed
    }

    /// Messages other than the handshake go out on an established connection only.
    pub fn can_send(&self) -> (r: bool)
        ensures
            r == (*self == ConnectionState::Connected),
    {
        *self == ConnectionState::Connected
    }
}

/// An authenticated client, and the room it may go back to.
#[derive(Debug)]
pub struct InitialClientState {
    pub identity: PlayerIdentity,
    pub player: Option<String>,
}

impl InitialClientState {
    pub fn new(identity: PlayerIdentity, player: Option<String>) -> (r: Self)
        ensures
            r.identity == identity,
            r.player == player,
    {
        InitialClientState { identity, player }
    }
}

} // verus!
