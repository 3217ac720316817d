use crate::codec::{
    decode, decoded, encoding, valid_payload, FramingError, Packet, PacketModel, PacketType,
    MAX_PAYLOAD,
};
use crate::correlator::Correlator;
use vstd::prelude::*;
use vstd::utf8::encode_utf8;

verus! {

/// Where a session stands in its life.
#[derive(Clone, Copy, Debug, PartialEq, Eq, Structural)]
pub enum SessionState {
    /// The stream is open and no login was sent yet.
    Connecting,
    /// A login was sent and its reply is awaited.
    Authenticating,
    /// Logged in: commands may be sent.
    Ready,
    /// Torn down: every operation fails.
    Closed,
}

/// A rejection by the protocol.
#[derive(Clone, Copy, Debug, PartialEq, Eq, Structural)]
pub enum AuthError {
    /// The server answered with the sentinel id: the password was refused.
    Denied,
    /// A command was attempted before a successful login.
    NotAuthenticated,
}

/// Why a session operation failed.
#[derive(Clone, Copy, Debug, PartialEq, Eq, Structural)]
pub enum ClientError {
    Auth(AuthError),
    Framing(FramingError),
    /// The session is closed.
    ConnectionClosed,
    /// The previous request has not been answered yet.
    RequestInFlight,
    /// A login was attempted on a session that is already logged in.
    AlreadyAuthenticated,
    /// The payload holds a terminator byte or is too long to frame.
    InvalidPayload,
    /// Every request id has been used.
    RequestIdsExhausted,
    /// A reply came whose request id is not the one awaited.
    UnexpectedReply,
}

/// The id by which the server signals a failed login.
pub const AUTH_FAILED_ID: i32 = -1;

/// The mathematical value of a session.
pub struct ClientModel {
    pub state: SessionState,
    pub next_id: i32,
    pub awaiting: Option<i32>,
    pub pending: Map<i32, Seq<u8>>,
}

/// The invariant of a session: ids are handed out upwards from a
/// non-negative start, at most one request is outstanding, and only the
/// outstanding request has buffered fragments.
pub open spec fn wf(s: ClientModel) -> bool {
    &&& 0 <= s.next_id
    &&& match s.awaiting {
        Some(id) => 0 <= id < s.next_id && (s.state == SessionState::Authenticating || s.state
            == SessionState::Ready),
        None => s.state != SessionState::Authenticating,
    }
    &&& forall|k: i32| #[trigger] s.pending.contains_key(k) ==> s.awaiting == Some(k)
}

/// The session after it was torn down: nothing outstanding, nothing buffered.
pub open spec fn closed(s: ClientModel) -> ClientModel {
    ClientModel {
        state: SessionState::Closed,
        next_id: s.next_id,
        awaiting: None,
        pending: Map::empty(),
    }
}

/// What is buffered for `id`, empty when nothing is.
pub open spec fn buffered(s: ClientModel, id: i32) -> Seq<u8> {
    if s.pending.contains_key(id) {
        s.pending[id]
    } else {
        Seq::empty()
    }
}

/// The session once the response to `id` was delivered.
pub open spec fn delivered(s: ClientModel, id: i32) -> ClientModel {
    ClientModel {
        state: if s.state == SessionState::Authenticating {
            SessionState::Ready
        } else {
            s.state
        },
        next_id: s.next_id,
        awaiting: None,
        pending: s.pending.remove(id),
    }
}

/// Sends a request of type `t`: the next id is taken and the frame to write
/// is handed out.
pub open spec fn issue_step(s: ClientModel, t: PacketType, payload: Seq<u8>, then: SessionState) -> (
    ClientModel,
    Result<Seq<u8>, ClientError>,
) {
    if !valid_payload(payload) {
        (s, Err(ClientError::InvalidPayload))
    } else if s.next_id == i32::MAX {
        (s, Err(ClientError::RequestIdsExhausted))
    } else {
        (
            ClientModel {
                state: then,
                next_id: (s.next_id + 1) as i32,
                awaiting: Some(s.next_id),
                pending: s.pending,
            },
            Ok(encoding(PacketModel { request_id: s.next_id, packet_type: t, payload })),
        )
    }
}

/// What a login does to a session, and the frame it hands out.
pub open spec fn login_step(s: ClientModel, payload: Seq<u8>) -> (
    ClientModel,
    Result<Seq<u8>, ClientError>,
) {
    match s.state {
        SessionState::Closed => (s, Err(ClientError::ConnectionClosed)),
        SessionState::Authenticating => (s, Err(ClientError::RequestInFlight)),
        SessionState::Ready => (s, Err(ClientError::AlreadyAuthenticated)),
        SessionState::Connecting => issue_step(
            s,
            PacketType::Login,
            payload,
            SessionState::Authenticating,
        ),
    }
}

/// What a command does to a session, and the frame it hands out.
pub open spec fn command_step(s: ClientModel, payload: Seq<u8>) -> (
    ClientModel,
    Result<Seq<u8>, ClientError>,
) {
    match s.state {
        SessionState::Closed => (s, Err(ClientError::ConnectionClosed)),
        SessionState::Ready => if s.awaiting is Some {
            (s, Err(ClientError::RequestInFlight))
        } else {
            issue_step(s, PacketType::Command, payload, SessionState::Ready)
        },
        _ => (s, Err(ClientError::Auth(AuthError::NotAuthenticated))),
    }
}

/// What a packet read from the stream does to a session: a fragment that
/// announces more is buffered, any other reply completes the response.
pub open spec fn receive_step(s: ClientModel, p: PacketModel) -> (
    ClientModel,
    Result<Option<PacketModel>, ClientError>,
) {
    if s.state == SessionState::Closed {
        (s, Err(ClientError::ConnectionClosed))
    } else if p.request_id == AUTH_FAILED_ID {
        (closed(s), Err(ClientError::Auth(AuthError::Denied)))
    } else if s.awaiting != Some(p.request_id) {
        (closed(s), Err(ClientError::UnexpectedReply))
    } else if p.packet_type == PacketType::MultiPacketResponse {
        (
            ClientModel {
                pending: s.pending.insert(p.request_id, buffered(s, p.request_id) + p.payload),
                ..s
            },
            Ok(None),
        )
    } else {
        (
            delivered(s, p.request_id),
            Ok(
                Some(
                    PacketModel {
                        request_id: p.request_id,
                        packet_type: p.packet_type,
                        payload: buffered(s, p.request_id) + p.payload,
                    },
                ),
            ),
        )
    }
}

/// What ending a fragmented response does: when the outstanding request has
/// buffered fragments, they are delivered as its response.
pub open spec fn finish_step(s: ClientModel) -> (ClientModel, Option<PacketModel>) {
    match s.awaiting {
        Some(id) => if s.state != SessionState::Closed && s.pending.contains_key(id) {
            (
                delivered(s, id),
                Some(
                    PacketModel {
                        request_id: id,
                        packet_type: PacketType::MultiPacketResponse,
                        payload: s.pending[id],
                    },
                ),
            )
        } else {
            (s, None)
        },
        None => (s, None),
    }
}

/// What reading one frame from `stream` does to a session: a frame that
/// cannot be read tears the session down.
pub open spec fn frame_step(s: ClientModel, stream: Seq<u8>) -> (
    ClientModel,
    Result<(Option<PacketModel>, int), ClientError>,
) {
    if s.state == SessionState::Closed {
        (s, Err(ClientError::ConnectionClosed))
    } else {
        match decoded(stream) {
            Err(e) => (closed(s), Err(ClientError::Framing(e))),
            Ok((p, n)) => {
                let (t, r) = receive_step(s, p);
                (
                    t,
                    match r {
                        Ok(o) => Ok((o, n)),
                        Err(e) => Err(e),
                    },
                )
            },
        }
    }
}

/// One thing that can happen to a session.
pub enum SessionEvent {
    Login(Seq<u8>),
    Command(Seq<u8>),
    Receive(PacketModel),
    Finish,
    Close,
}

/// The session after one event.
pub open spec fn step(s: ClientModel, e: SessionEvent) -> ClientModel {
    match e {
        SessionEvent::Login(p) => login_step(s, p).0,
        SessionEvent::Command(p) => command_step(s, p).0,
        SessionEvent::Receive(p) => receive_step(s, p).0,
        SessionEvent::Finish => finish_step(s).0,
        SessionEvent::Close => closed(s),
    }
}

/// The request id that an event sent out, if it sent a request.
pub open spec fn issued(s: ClientModel, e: SessionEvent) -> Option<i32> {
    match e {
        SessionEvent::Login(p) => if login_step(s, p).1 is Ok {
            Some(s.next_id)
        } else {
            None
        },
        SessionEvent::Command(p) => if command_step(s, p).1 is Ok {
            Some(s.next_id)
        } else {
            None
        },
        _ => None,
    }
}

/// The session after a sequence of events, in order.
pub open spec fn run(s: ClientModel, es: Seq<SessionEvent>) -> ClientModel
    decreases es.len(),
{
    if es.len() == 0 {
        s
    } else {
        step(run(s, es.drop_last()), es.last())
    }
}

proof fn lemma_step_next_id(s: ClientModel, e: SessionEvent)
    ensures
        step(s, e).next_id >= s.next_id,
        issued(s, e) matches Some(id) ==> id == s.next_id && step(s, e).next_id == id + 1,
{
}

proof fn lemma_run_next_id(s: ClientModel, es: Seq<SessionEvent>, i: int, j: int)
    requires
        0 <= i <= j <= es.len(),
    ensures
        run(s, es.take(i)).next_id <= run(s, es.take(j)).next_id,
    decreases j - i,
{
    if i < j {
        lemma_run_next_id(s, es, i, j - 1);
        assert(es.take(j).drop_last() =~= es.take(j - 1));
        lemma_step_next_id(run(s, es.take(j - 1)), es[j - 1]);
    }
}

/// Request ids go up: of two events of a run that both sent a request, the
/// later one carries the larger id, and the first request of a session
/// carries its start id. So no id is used twice.
pub proof fn lemma_request_ids_increase(s: ClientModel, es: Seq<SessionEvent>, i: int, j: int)
    requires
        wf(s),
        0 <= i < j < es.len(),
        issued(run(s, es.take(i)), es[i]) is Some,
        issued(run(s, es.take(j)), es[j]) is Some,
    ensures
        issued(run(s, es.take(i)), es[i])->0 < issued(run(s, es.take(j)), es[j])->0,
        issued(run(s, es.take(j)), es[j])->0 >= s.next_id,
{
    lemma_step_next_id(run(s, es.take(i)), es[i]);
    assert(es.take(i + 1).drop_last() =~= es.take(i));
    lemma_run_next_id(s, es, i + 1, j);
    lemma_run_next_id(s, es, 0, j);
    assert(es.take(0) =~= Seq::<SessionEvent>::empty());
}

/// A sentinel reply at any point of the handshake refuses the login and
/// closes the session.
pub proof fn lemma_denied_login_closes(s: ClientModel, p: PacketModel)
    requires
        wf(s),
        s.state == SessionState::Authenticating,
        p.request_id == AUTH_FAILED_ID,
    ensures
        receive_step(s, p).1 == Err::<Option<PacketModel>, ClientError>(
            ClientError::Auth(AuthError::Denied),
        ),
        receive_step(s, p).0.state == SessionState::Closed,
{
}

/// A response in two fragments, the first announcing more, reaches the
/// caller once, as the two payloads joined in the order they arrived.
pub proof fn lemma_fragments_joined(s: ClientModel, f1: PacketModel, f2: PacketModel)
    requires
        wf(s),
        s.state != SessionState::Closed,
        s.awaiting == Some(f1.request_id),
        !s.pending.contains_key(f1.request_id),
        f2.request_id == f1.request_id,
        f1.packet_type == PacketType::MultiPacketResponse,
        f2.packet_type != PacketType::MultiPacketResponse,
    ensures
        receive_step(s, f1).1 == Ok::<Option<PacketModel>, ClientError>(None),
        receive_step(receive_step(s, f1).0, f2).1 == Ok::<Option<PacketModel>, ClientError>(
            Some(
                PacketModel {
                    request_id: f1.request_id,
                    packet_type: f2.packet_type,
                    payload: f1.payload + f2.payload,
                },
            ),
        ),
{
    let s1 = receive_step(s, f1).0;
    assert(buffered(s, f1.request_id) + f1.payload =~= f1.payload);
    assert(buffered(s1, f1.request_id) == f1.payload);
}

/// A command before a successful login fails as not authenticated and hands
/// out no frame: nothing is written and the session is unchanged.
pub proof fn lemma_command_needs_login(s: ClientModel, payload: Seq<u8>)
    requires
        s.state == SessionState::Connecting || s.state == SessionState::Authenticating,
    ensures
        command_step(s, payload) == (s, Err::<Seq<u8>, ClientError>(
            ClientError::Auth(AuthError::NotAuthenticated),
        )),
{
}

/// A reply, as a model.
pub open spec fn reply_model(o: Option<Packet>) -> Option<PacketModel> {
    match o {
        Some(p) => Some(p@),
        None => None,
    }
}

/// The replies of a session, as models.
pub open spec fn reply_result(r: Result<Option<Packet>, ClientError>) -> Result<
    Option<PacketModel>,
    ClientError,
> {
    match r {
        Ok(Some(p)) => Ok(Some(p@)),
        Ok(None) => Ok(None),
        Err(e) => Err(e),
    }
}

/// The bytes of a handed-out frame, or the error.
pub open spec fn frame_result(r: Result<Vec<u8>, ClientError>) -> Result<Seq<u8>, ClientError> {
    match r {
        Ok(f) => Ok(f@),
        Err(e) => Err(e),
    }
}

/// The protocol side of one session: request ids, the login handshake and
/// the reassembly of responses. It writes and reads nothing itself: it hands
/// out the frames to write and takes the packets that were read.
pub struct Client {
    state: SessionState,
    next_id: i32,
    awaiting: Option<i32>,
    pending: Correlator,
}

impl View for Client {
    type V = ClientModel;

    closed spec fn view(&self) -> ClientModel {
        ClientModel {
            state: self.state,
            next_id: self.next_id,
            awaiting: self.awaiting,
            pending: self.pending@,
        }
    }
}

/// Whether no byte of `b` is the terminator.
fn has_no_zero(b: &Vec<u8>) -> (r: bool)
    ensures
        r == crate::codec::no_zero(b@),
{
    let mut i: usize = 0;
    while i < b.len()
        invariant
            i <= b@.len(),
            forall|j: int| 0 <= j < i ==> b@[j] != 0,
        decreases b@.len() - i,
    {
        if b[i] == 0 {
            return false;
        }
        i += 1;
    }
    true
}

impl Client {
    /// A session whose first request id is 0.
    pub fn new() -> (r: Client)
        ensures
            wf(r@),
            r@ == (ClientModel {
                state: SessionState::Connecting,
                next_id: 0,
                awaiting: None,
                pending: Map::empty(),
            }),
    {
        Self::with_start_id(0)
    }

    /// A session whose first request id is `start`.
    pub fn with_start_id(start: i32) -> (r: Client)
        requires
            0 <= start,
        ensures
            wf(r@),
            r@ == (ClientModel {
                state: SessionState::Connecting,
                next_id: start,
                awaiting: None,
                pending: Map::empty(),
            }),
    {
        Client {
            state: SessionState::Connecting,
            next_id: start,
            awaiting: None,
            pending: Correlator::new(),
        }
    }

    /// Where the session stands.
    pub fn state(&self) -> (r: SessionState)
        ensures
            r == self@.state,
    {
        self.state
    }

    /// The id that the next request will carry.
    pub fn next_request_id(&self) -> (r: i32)
        ensures
            r == self@.next_id,
    {
        self.next_id
    }

    /// The id of the request whose response is awaited, if any.
    pub fn awaiting(&self) -> (r: Option<i32>)
        ensures
            r == self@.awaiting,
    {
        self.awaiting
    }

    fn issue(&mut self, packet: Packet, then: SessionState) -> (r: Result<Vec<u8>, ClientError>)
        requires
            wf(old(self)@),
            old(self)@.awaiting is None,
            then != SessionState::Closed && then != SessionState::Connecting,
            packet@.request_id == old(self)@.next_id,
        ensures
            wf(final(self)@),
            (final(self)@, frame_result(r)) == issue_step(
                old(self)@,
                packet@.packet_type,
                packet@.payload,
                then,
            ),
    {
        if packet.payload.len() > MAX_PAYLOAD || !has_no_zero(&packet.payload) {
            return Err(ClientError::InvalidPayload);
        }
        if self.next_id == i32::MAX {
            return Err(ClientError::RequestIdsExhausted);
        }
        let frame = packet.encode();
        self.awaiting = Some(self.next_id);
        self.next_id = self.next_id + 1;
        self.state = then;
        Ok(frame)
    }

    /// Starts the handshake: takes the next request id and hands out the
    /// login frame that carries the password.
    pub fn login(&mut self, password: String) -> (r: Result<Vec<u8>, ClientError>)
        requires
            wf(old(self)@),
        ensures
            wf(final(self)@),
            (final(self)@, frame_result(r)) == login_step(old(self)@, encode_utf8(password@)),
    {
        match self.state {
            SessionState::Closed => Err(ClientError::ConnectionClosed),
            SessionState::Authenticating => Err(ClientError::RequestInFlight),
            SessionState::Ready => Err(ClientError::AlreadyAuthenticated),
            SessionState::Connecting => {
                let packet = Packet::login(self.next_id, password);
                self.issue(packet, SessionState::Authenticating)
            },
        }
    }

    /// Sends a command: takes the next request id and hands out the command
    /// frame. Before a successful login it fails and changes nothing.
    pub fn command(&mut self, command: String) -> (r: Result<Vec<u8>, ClientError>)
        requires
            wf(old(self)@),
        ensures
            wf(final(self)@),
            (final(self)@, frame_result(r)) == command_step(old(self)@, encode_utf8(command@)),
    {
        match self.state {
            SessionState::Closed => Err(ClientError::ConnectionClosed),
            SessionState::Ready => {
                if self.awaiting.is_some() {
                    return Err(ClientError::RequestInFlight);
                }
                let packet = Packet::command(self.next_id, command);
                self.issue(packet, SessionState::Ready)
            },
            _ => Err(ClientError::Auth(AuthError::NotAuthenticated)),
        }
    }

    /// Takes a packet read from the stream. A fragment that announces more is
    /// buffered (`Ok(None)`); any other reply to the outstanding request
    /// completes it and its whole payload is handed out. The sentinel id
    /// refuses the login and a reply to any other id is an anomaly: both close
    /// the session.
    pub fn receive(&mut self, packet: Packet) -> (r: Result<Option<Packet>, ClientError>)
        requires
            wf(old(self)@),
        ensures
            wf(final(self)@),
            (final(self)@, reply_result(r)) == receive_step(old(self)@, packet@),
    {
        if self.state == SessionState::Closed {
            return Err(ClientError::ConnectionClosed);
        }
        if packet.request_id == AUTH_FAILED_ID {
            self.close();
            return Err(ClientError::Auth(AuthError::Denied));
        }
        let id = match self.awaiting {
            Some(id) if id == packet.request_id => id,
            _ => {
                self.close();
                return Err(ClientError::UnexpectedReply);
            },
        };
        if packet.packet_type == PacketType::MultiPacketResponse {
            self.pending.append(id, packet.payload.as_slice());
            return Ok(None);
        }
        let mut tail = packet.payload;
        let payload = match self.pending.take(id) {
            Some(mut head) => {
                head.append(&mut tail);
                head
            },
            None => tail,
        };
        self.awaiting = None;
        if self.state == SessionState::Authenticating {
            self.state = SessionState::Ready;
        }
        assert forall|k: i32| !self.pending@.contains_key(k) by {
            if old(self).pending@.contains_key(k) {
                assert(old(self)@.pending.contains_key(k));
            }
        }
        Ok(Some(Packet { request_id: id, packet_type: packet.packet_type, payload }))
    }

    /// Reads one frame from the start of `stream` and takes its packet, as
    /// `receive` does; also returns how many bytes the frame took. A frame
    /// that cannot be read closes the session.
    pub fn recv(&mut self, stream: &[u8]) -> (r: Result<(Option<Packet>, usize), ClientError>)
        requires
            wf(old(self)@),
        ensures
            wf(final(self)@),
            final(self)@ == frame_step(old(self)@, stream@).0,
            match r {
                Ok((o, n)) => frame_step(old(self)@, stream@).1 == Ok::<
                    (Option<PacketModel>, int),
                    ClientError,
                >((reply_model(o), n as int)),
                Err(e) => frame_step(old(self)@, stream@).1 == Err::<
                    (Option<PacketModel>, int),
                    ClientError,
                >(e),
            },
    {
        if self.state == SessionState::Closed {
            return Err(ClientError::ConnectionClosed);
        }
        match decode(stream) {
            Err(e) => {
                self.close();
                Err(ClientError::Framing(e))
            },
            Ok((p, n)) => match self.receive(p) {
                Ok(o) => Ok((o, n)),
                Err(e) => Err(e),
            },
        }
    }

    /// Ends a fragmented response when the transport's policy says no more
    /// fragments follow: the fragments buffered for the outstanding request
    /// are handed out as its response. `None` when nothing is buffered.
    pub fn finish_response(&mut self) -> (r: Option<Packet>)
        requires
            wf(old(self)@),
        ensures
            wf(final(self)@),
            final(self)@ == finish_step(old(self)@).0,
            match r {
                Some(p) => finish_step(old(self)@).1 == Some(p@),
                None => finish_step(old(self)@).1 is None,
            },
    {
        if self.state == SessionState::Closed {
            return None;
        }
        let id = match self.awaiting {
            Some(id) => id,
            None => {
                return None;
            },
        };
        match self.pending.take(id) {
            Some(payload) => {
                self.awaiting = None;
                if self.state == SessionState::Authenticating {
                    self.state = SessionState::Ready;
                }
                Some(Packet { request_id: id, packet_type: PacketType::MultiPacketResponse, payload })
            },
            None => {
                assert(self.pending@ =~= old(self).pending@);
                None
            },
        }
    }

    /// Tears the session down: the outstanding request, if any, is abandoned
    /// and its buffered fragments dropped. Returns the abandoned request id.
    pub fn close(&mut self) -> (r: Option<i32>)
        requires
            wf(old(self)@),
        ensures
            wf(final(self)@),
            final(self)@ == closed(old(self)@),
            r == old(self)@.awaiting,
    {
        let r = self.awaiting;
        self.state = SessionState::Closed;
        self.awaiting = None;
        self.pending.clear();
        r
    }
}

} // verus!
