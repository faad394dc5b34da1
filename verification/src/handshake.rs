//! The first bytes a game client and the server exchange on a new connection:
//! the client picks a service, then either gets its login session greeting or,
//! for the cache (JS5) service, has its client revision checked.

use vstd::prelude::*;

verus! {

/// Service byte that opens a login connection.
pub const LOGIN_SERVICE: u8 = 14;
/// Service byte that opens a cache (JS5) connection.
pub const JS5_SERVICE: u8 = 15;
/// Session id that the login greeting hands every client.
pub const LOGIN_SESSION_ID: u64 = 0;

/// The big-endian encoding of a 64-bit value.
pub open spec fn be_u64_bytes(v: u64) -> Seq<u8> {
    Seq::new(8, |k: int| ((v as int / pow256(7 - k)) % 256) as u8)
}

/// 256 to the power `k`.
pub open spec fn pow256(k: int) -> int
    decreases k,
{
    if k <= 0 { 1 } else { 256 * pow256(k - 1) }
}

/// The unsigned value of the big-endian bytes `s[0..n]`.
pub open spec fn be_value(s: Seq<u8>, n: int) -> int
    decreases n,
{
    if n <= 0 { 0 } else { 256 * be_value(s, n - 1) + s[n - 1] }
}

/// The signed 32-bit value of the big-endian bytes `s[0..4]` (two's complement).
pub open spec fn be_i32(s: Seq<u8>) -> int {
    if be_value(s, 4) < 0x8000_0000 { be_value(s, 4) } else { be_value(s, 4) - 0x1_0000_0000 }
}

/// The big-endian two's complement encoding of a signed 32-bit value.
pub open spec fn be_i32_bytes(v: i32) -> Seq<u8> {
    let u = if v >= 0 { v as int } else { v + 0x1_0000_0000 };
    seq![((u / 0x100_0000) % 256) as u8, ((u / 0x1_0000) % 256) as u8, ((u / 0x100) % 256) as u8, (u % 256) as u8]
}

/// What the service byte of a new connection selects.
#[derive(Clone, Copy, Debug, PartialEq, Eq, Structural)]
pub enum Service {
    Login,
    Js5,
    Unknown,
}

/// The service that a service byte selects.
pub open spec fn spec_service(b: u8) -> Service {
    if b == LOGIN_SERVICE { Service::Login } else if b == JS5_SERVICE { Service::Js5 } else { Service::Unknown }
}

/// Picks the service that the client asked for.
pub fn select_service(service_selection: u8) -> (s: Service)
    ensures
        s == spec_service(service_selection),
{
    if service_selection == LOGIN_SERVICE {
        Service::Login
    } else if service_selection == JS5_SERVICE {
        Service::Js5
    } else {
        Service::Unknown
    }
}

/// The greeting that opens a login connection: a zero byte, then the session
/// id as a big-endian 64-bit integer.
pub open spec fn spec_login_greeting(session_id: u64) -> Seq<u8> {
    seq![0u8] + be_u64_bytes(session_id)
}

/// The greeting that opens a login connection.
pub fn login_greeting(session_id: u64) -> (bytes: Vec<u8>)
    ensures
        bytes@ == spec_login_greeting(session_id),
{
    let mut bytes: Vec<u8> = Vec::new();
    bytes.push(0u8);
    let mut k: u64 = 0;
    let mut div: u64 = 0x100_0000_0000_0000;
    proof { reveal_with_fuel(pow256, 8); }
    while k < 8
        invariant
            k <= 8,
            div == pow256(7 - k),
            bytes@.len() == 1 + k,
            bytes@[0] == 0,
            forall|t: int| 0 <= t < k ==> bytes@[1 + t] == be_u64_bytes(session_id)[t],
        decreases 8 - k,
    {
        proof { reveal_with_fuel(pow256, 8); }
        bytes.push(((session_id / div) % 256) as u8);
        if k < 7 {
            div = div / 256;
        }
        k = k + 1;
    }
    assert(bytes@ =~= spec_login_greeting(session_id));
    bytes
}

/// Decodes a big-endian signed 32-bit integer from four bytes.
pub fn decode_i32_be(bytes: &[u8]) -> (v: i32)
    requires
        bytes@.len() == 4,
    ensures
        v == be_i32(bytes@),
{
    proof { reveal_with_fuel(be_value, 5); }
    let u: u32 = bytes[0] as u32 * 0x100_0000 + bytes[1] as u32 * 0x1_0000 + bytes[2] as u32 * 0x100 + bytes[3] as u32;
    if u < 0x8000_0000 {
        u as i32
    } else {
        (u - 0x8000_0000) as i32 + i32::MIN
    }
}

/// Where a connection's handshake stands.
#[derive(Clone, Copy, Debug, PartialEq, Eq, Structural)]
pub enum HandshakeState {
    /// Waiting for the service byte.
    AwaitingService,
    /// Cache connection: waiting for the client's 4-byte revision.
    AwaitingRevision,
    /// Nothing more is read or sent on this connection.
    Finished,
}

/// What the connection reports back after an action.
pub enum HandshakeEvent {
    /// The bytes that a `Read` asked for.
    Received(Vec<u8>),
    /// The read failed (the peer went away or the bytes never came).
    ReadFailed,
}

/// What the server does next on the connection.
pub enum HandshakeAction {
    /// Read exactly this many bytes and report them.
    Read(usize),
    /// Send these bytes, then close the connection.
    SendAndClose(Vec<u8>),
    /// Close the connection.
    Close,
}

/// The content of an event.
pub enum EventView {
    Received(Seq<u8>),
    ReadFailed,
}

/// The content of an action.
pub enum ActionView {
    Read(nat),
    SendAndClose(Seq<u8>),
    Close,
}

impl View for HandshakeEvent {
    type V = EventView;

    open spec fn view(&self) -> EventView {
        match self {
            HandshakeEvent::Received(b) => EventView::Received(b@),
            HandshakeEvent::ReadFailed => EventView::ReadFailed,
        }
    }
}

impl View for HandshakeAction {
    type V = ActionView;

    open spec fn view(&self) -> ActionView {
        match self {
            HandshakeAction::Read(n) => ActionView::Read(*n as nat),
            HandshakeAction::SendAndClose(b) => ActionView::SendAndClose(b@),
            HandshakeAction::Close => ActionView::Close,
        }
    }
}

/// One step of the handshake of a server at `revision`: the state after the
/// event, and the action to take. A login connection is greeted with its
/// session id; a cache connection whose client revision equals the server's is
/// answered with a zero byte; anything else closes the connection.
pub open spec fn spec_step(revision: i32, session_id: u64, state: HandshakeState, event: EventView)
    -> (HandshakeState, ActionView)
{
    match (state, event) {
        (HandshakeState::AwaitingService, EventView::Received(b)) if b.len() == 1 => match spec_service(b[0]) {
            Service::Login => (HandshakeState::Finished, ActionView::SendAndClose(spec_login_greeting(session_id))),
            Service::Js5 => (HandshakeState::AwaitingRevision, ActionView::Read(4)),
            Service::Unknown => (HandshakeState::Finished, ActionView::Close),
        },
        (HandshakeState::AwaitingRevision, EventView::Received(b)) if b.len() == 4 =>
            if be_i32(b) == revision {
                (HandshakeState::Finished, ActionView::SendAndClose(seq![0u8]))
            } else {
                (HandshakeState::Finished, ActionView::Close)
            },
        _ => (HandshakeState::Finished, ActionView::Close),
    }
}

/// The handshake of one connection.
pub struct Handshake {
    /// The client revision this server serves.
    pub revision: i32,
    /// The session id a login connection is greeted with.
    pub session_id: u64,
    pub state: HandshakeState,
}

impl Handshake {
    /// Starts the handshake of a new connection: the first thing to do is to
    /// read the service byte.
    pub fn start(revision: i32) -> (r: (Handshake, HandshakeAction))
        ensures
            r.0.revision == revision,
            r.0.session_id == LOGIN_SESSION_ID,
            r.0.state == HandshakeState::AwaitingService,
            r.1@ == ActionView::Read(1),
    {
        (Handshake { revision, session_id: LOGIN_SESSION_ID, state: HandshakeState::AwaitingService }, HandshakeAction::Read(1))
    }

    /// Takes the event that the last action produced and decides the next action.
    pub fn step(&mut self, event: HandshakeEvent) -> (action: HandshakeAction)
        ensures
            final(self).revision == old(self).revision,
            final(self).session_id == old(self).session_id,
            (final(self).state, action@) == spec_step(old(self).revision, old(self).session_id, old(self).state, event@),
    {
        match (self.state, event) {
            (HandshakeState::AwaitingService, HandshakeEvent::Received(b)) if b.len() == 1 => {
                match select_service(b[0]) {
                    Service::Login => {
                        self.state = HandshakeState::Finished;
                        HandshakeAction::SendAndClose(login_greeting(self.session_id))
                    },
                    Service::Js5 => {
                        self.state = HandshakeState::AwaitingRevision;
                        HandshakeAction::Read(4)
                    },
                    Service::Unknown => {
                        self.state = HandshakeState::Finished;
                        HandshakeAction::Close
                    },
                }
            },
            (HandshakeState::AwaitingRevision, HandshakeEvent::Received(b)) if b.len() == 4 => {
                self.state = HandshakeState::Finished;
                if decode_i32_be(b.as_slice()) == self.revision {
                    let reply: Vec<u8> = vec![0u8];
                    assert(reply@ =~= seq![0u8]);
                    HandshakeAction::SendAndClose(reply)
                } else {
                    HandshakeAction::Close
                }
            },
            _ => {
                self.state = HandshakeState::Finished;
                HandshakeAction::Close
            },
        }
    }
}

/// Every handshake ends: a finished handshake only closes; a cache
/// handshake reads its revision once and is then finished; a handshake is
/// finished after any action other than a read; and a read is never asked for
/// after the revision has been read.
pub proof fn law_handshake_finishes(revision: i32, session_id: u64, state: HandshakeState, event: EventView)
    ensures
        state == HandshakeState::Finished ==>
            spec_step(revision, session_id, state, event) == (HandshakeState::Finished, ActionView::Close),
        state == HandshakeState::AwaitingRevision ==>
            spec_step(revision, session_id, state, event).0 == HandshakeState::Finished,
        state == HandshakeState::AwaitingService ==>
            spec_step(revision, session_id, state, event).0 != HandshakeState::AwaitingService,
        !(spec_step(revision, session_id, state, event).1 is Read) ==>
            spec_step(revision, session_id, state, event).0 == HandshakeState::Finished,
{
}

proof fn lemma_be_value_of_be_u64_bytes(v: u64, n: int)
    requires
        0 <= n <= 8,
    ensures
        be_value(be_u64_bytes(v), n) == v as int / pow256(8 - n),
    decreases n,
{
    reveal_with_fuel(pow256, 9);
    let p = pow256(8 - n);
    assert(p > 0);
    if n == 0 {
        assert(pow256(8) == 0x1_0000_0000_0000_0000);
        assert(v as int / pow256(8) == 0) by (nonlinear_arith)
            requires 0 <= v < pow256(8), pow256(8) > 0;
    } else {
        lemma_be_value_of_be_u64_bytes(v, n - 1);
        let b = be_u64_bytes(v);
        assert(b[n - 1] == ((v as int / pow256(7 - (n - 1))) % 256) as u8);
        assert(pow256(8 - (n - 1)) == 256 * p);
        let x = v as int / p;
        assert(v as int / (p * 256) == x / 256) by {
            vstd::arithmetic::div_mod::lemma_div_denominator(v as int, p, 256);
        }
        assert(x == 256 * (x / 256) + x % 256) by {
            vstd::arithmetic::div_mod::lemma_fundamental_div_mod(x, 256);
        }
        assert(p * 256 == 256 * p);
    }
}

/// The login greeting is a zero byte followed by eight bytes from which the
/// client reads back (big-endian) the session id it was given.
pub proof fn law_login_greeting_carries_session_id(session_id: u64)
    ensures
        spec_login_greeting(session_id).len() == 9,
        spec_login_greeting(session_id)[0] == 0,
        be_value(spec_login_greeting(session_id).drop_first(), 8) == session_id,
{
    reveal_with_fuel(pow256, 9);
    lemma_be_value_of_be_u64_bytes(session_id, 8);
    assert(spec_login_greeting(session_id).drop_first() =~= be_u64_bytes(session_id));
}

/// Decoding the big-endian encoding of a revision gives the revision back.
pub proof fn lemma_be_i32_roundtrip(r: i32)
    ensures
        be_i32_bytes(r).len() == 4,
        be_i32(be_i32_bytes(r)) == r,
{
    reveal_with_fuel(be_value, 5);
    let u: int = if r >= 0 { r as int } else { r + 0x1_0000_0000 };
    let s = be_i32_bytes(r);
    assert(0 <= u < 0x1_0000_0000);
    assert(be_value(s, 4) == ((s[0] * 256 + s[1]) * 256 + s[2]) * 256 + s[3]);
    assert(((((u / 0x100_0000) % 256) * 256 + (u / 0x1_0000) % 256) * 256 + (u / 0x100) % 256) * 256 + u % 256 == u)
        by (nonlinear_arith)
        requires 0 <= u < 0x1_0000_0000;
}

/// A cache connection from a client at the server's revision is answered
/// with a single zero byte and closed; one from any other revision is closed
/// without an answer.
pub proof fn law_js5_revision_check(revision: i32, session_id: u64, client_revision: i32)
    ensures
        spec_step(revision, session_id, HandshakeState::AwaitingRevision, EventView::Received(be_i32_bytes(client_revision)))
            == if client_revision == revision {
                (HandshakeState::Finished, ActionView::SendAndClose(seq![0u8]))
            } else {
                (HandshakeState::Finished, ActionView::Close)
            },
{
    lemma_be_i32_roundtrip(client_revision);
}

} // verus!
