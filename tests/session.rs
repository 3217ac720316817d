use rcon::codec::{decode, FramingError, Packet, PacketType};
use rcon::correlator::Correlator;
use rcon::session::{AuthError, Client, ClientError, SessionState};

fn logged_in(start: i32) -> Client {
    let mut c = Client::with_start_id(start);
    let frame = c.login(String::from("secret")).unwrap();
    let (sent, _) = decode(&frame).unwrap();
    let reply = c
        .receive(Packet::new(sent.request_id, PacketType::Command, Vec::new()))
        .unwrap()
        .unwrap();
    assert_eq!(reply.request_id, start);
    assert_eq!(c.state(), SessionState::Ready);
    c
}

#[test]
fn new_session_starts_connecting_at_zero() {
    let c = Client::new();
    assert_eq!(c.state(), SessionState::Connecting);
    assert_eq!(c.next_request_id(), 0);
    assert_eq!(c.awaiting(), None);
}

#[test]
fn login_hands_out_login_frame() {
    let mut c = Client::new();
    let frame = c.login(String::from("pw")).unwrap();
    assert_eq!(frame, vec![11, 0, 0, 0, 0, 0, 0, 0, 3, 0, 0, 0, b'p', b'w', 0]);
    assert_eq!(c.state(), SessionState::Authenticating);
    assert_eq!(c.awaiting(), Some(0));
    assert_eq!(c.next_request_id(), 1);
}

#[test]
fn login_reply_makes_session_ready() {
    let c = logged_in(0);
    assert_eq!(c.next_request_id(), 1);
    assert_eq!(c.awaiting(), None);
}

#[test]
fn sentinel_reply_denies_login_and_closes() {
    let mut c = Client::new();
    c.login(String::from("wrong")).unwrap();
    let r = c.receive(Packet::new(-1, PacketType::Command, Vec::new()));
    assert_eq!(r, Err(ClientError::Auth(AuthError::Denied)));
    assert_eq!(c.state(), SessionState::Closed);
    assert_eq!(c.awaiting(), None);
}

#[test]
fn sentinel_after_first_fragment_still_denies() {
    let mut c = Client::new();
    c.login(String::from("wrong")).unwrap();
    let r = c.receive(Packet::new(0, PacketType::MultiPacketResponse, Vec::new()));
    assert_eq!(r, Ok(None));
    let bytes = Packet::new(-1, PacketType::Command, Vec::new()).encode();
    let r = c.recv(&bytes);
    assert_eq!(r, Err(ClientError::Auth(AuthError::Denied)));
    assert_eq!(c.state(), SessionState::Closed);
}

#[test]
fn two_fragments_are_joined_in_order() {
    let mut c = logged_in(6);
    let frame = c.command(String::from("status")).unwrap();
    let (sent, _) = decode(&frame).unwrap();
    assert_eq!(sent.request_id, 7);
    let first = Packet::new(7, PacketType::MultiPacketResponse, b"players: ".to_vec()).encode();
    let second = Packet::new(7, PacketType::Command, b"3".to_vec()).encode();
    let mut stream = first.clone();
    stream.extend_from_slice(&second);
    let (o, n) = c.recv(&stream).unwrap();
    assert_eq!(o, None);
    assert_eq!(n, first.len());
    let (o, m) = c.recv(&stream[n..]).unwrap();
    assert_eq!(m, second.len());
    let reply = o.unwrap();
    assert_eq!(reply.request_id, 7);
    assert_eq!(reply.payload, b"players: 3".to_vec());
    assert_eq!(c.awaiting(), None);
}

#[test]
fn finish_delivers_buffered_fragments() {
    let mut c = logged_in(0);
    c.command(String::from("list")).unwrap();
    assert_eq!(c.finish_response(), None);
    assert_eq!(c.receive(Packet::new(1, PacketType::MultiPacketResponse, b"ab".to_vec())), Ok(None));
    assert_eq!(c.receive(Packet::new(1, PacketType::MultiPacketResponse, b"cd".to_vec())), Ok(None));
    let reply = c.finish_response().unwrap();
    assert_eq!(reply.request_id, 1);
    assert_eq!(reply.packet_type, PacketType::MultiPacketResponse);
    assert_eq!(reply.payload, b"abcd".to_vec());
    assert_eq!(c.awaiting(), None);
    assert_eq!(c.finish_response(), None);
}

#[test]
fn command_before_login_is_not_authenticated() {
    let mut c = Client::new();
    let r = c.command(String::from("list"));
    assert_eq!(r, Err(ClientError::Auth(AuthError::NotAuthenticated)));
    assert_eq!(c.state(), SessionState::Connecting);
    assert_eq!(c.next_request_id(), 0);
    c.login(String::from("pw")).unwrap();
    let r = c.command(String::from("list"));
    assert_eq!(r, Err(ClientError::Auth(AuthError::NotAuthenticated)));
    assert_eq!(c.next_request_id(), 1);
}

#[test]
fn sequential_commands_take_increasing_ids() {
    let mut c = logged_in(0);
    let mut ids = Vec::new();
    for _ in 0..3 {
        let frame = c.command(String::from("time")).unwrap();
        let (sent, _) = decode(&frame).unwrap();
        assert_eq!(sent.packet_type, PacketType::Command);
        assert_eq!(c.awaiting(), Some(sent.request_id));
        ids.push(sent.request_id);
        c.receive(Packet::new(sent.request_id, PacketType::Command, Vec::new())).unwrap();
    }
    assert_eq!(ids, vec![1, 2, 3]);
}

#[test]
fn command_while_outstanding_is_refused() {
    let mut c = logged_in(0);
    c.command(String::from("a")).unwrap();
    assert_eq!(c.command(String::from("b")), Err(ClientError::RequestInFlight));
    assert_eq!(c.next_request_id(), 2);
}

#[test]
fn second_login_is_refused() {
    let mut c = Client::new();
    c.login(String::from("pw")).unwrap();
    assert_eq!(c.login(String::from("pw")), Err(ClientError::RequestInFlight));
    let mut d = logged_in(0);
    assert_eq!(d.login(String::from("pw")), Err(ClientError::AlreadyAuthenticated));
}

#[test]
fn payload_with_terminator_is_refused() {
    let mut c = Client::new();
    assert_eq!(c.login(String::from("a\0b")), Err(ClientError::InvalidPayload));
    assert_eq!(c.state(), SessionState::Connecting);
    assert_eq!(c.next_request_id(), 0);
}

#[test]
fn exhausted_ids_are_refused() {
    let mut c = Client::with_start_id(i32::MAX);
    assert_eq!(c.login(String::from("pw")), Err(ClientError::RequestIdsExhausted));
    assert_eq!(c.state(), SessionState::Connecting);
}

#[test]
fn unexpected_reply_closes_session() {
    let mut c = logged_in(0);
    c.command(String::from("a")).unwrap();
    let r = c.receive(Packet::new(5, PacketType::Command, Vec::new()));
    assert_eq!(r, Err(ClientError::UnexpectedReply));
    assert_eq!(c.state(), SessionState::Closed);
}

#[test]
fn reply_with_nothing_outstanding_is_unexpected() {
    let mut c = Client::new();
    let r = c.receive(Packet::new(0, PacketType::Command, Vec::new()));
    assert_eq!(r, Err(ClientError::UnexpectedReply));
    assert_eq!(c.state(), SessionState::Closed);
}

#[test]
fn closed_session_refuses_everything() {
    let mut c = logged_in(0);
    c.command(String::from("a")).unwrap();
    assert_eq!(c.close(), Some(1));
    assert_eq!(c.state(), SessionState::Closed);
    assert_eq!(c.command(String::from("b")), Err(ClientError::ConnectionClosed));
    assert_eq!(c.login(String::from("b")), Err(ClientError::ConnectionClosed));
    assert_eq!(
        c.receive(Packet::new(1, PacketType::Command, Vec::new())),
        Err(ClientError::ConnectionClosed)
    );
    assert_eq!(c.recv(&[1, 2]), Err(ClientError::ConnectionClosed));
    assert_eq!(c.finish_response(), None);
    assert_eq!(c.close(), None);
}

#[test]
fn unreadable_frame_closes_session() {
    let mut c = Client::new();
    c.login(String::from("pw")).unwrap();
    let r = c.recv(&[20, 0, 0, 0, 0, 0]);
    assert_eq!(r, Err(ClientError::Framing(FramingError::TruncatedFrame)));
    assert_eq!(c.state(), SessionState::Closed);
}

#[test]
fn correlator_appends_and_takes() {
    let mut t = Correlator::new();
    assert!(!t.contains(3));
    t.append(3, b"ab");
    t.append(3, b"cd");
    assert!(t.contains(3));
    assert_eq!(t.take(3), Some(b"abcd".to_vec()));
    assert!(!t.contains(3));
    assert_eq!(t.take(3), None);
    t.append(4, b"x");
    t.clear();
    assert!(!t.contains(4));
}
