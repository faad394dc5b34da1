use alter_rsps::handshake::{
    decode_i32_be, login_greeting, select_service, Handshake, HandshakeAction, HandshakeEvent,
    HandshakeState, Service, JS5_SERVICE, LOGIN_SERVICE, LOGIN_SESSION_ID,
};

fn expect_read(action: HandshakeAction) -> usize {
    match action {
        HandshakeAction::Read(n) => n,
        _ => panic!("expected a read"),
    }
}

fn expect_send(action: HandshakeAction) -> Vec<u8> {
    match action {
        HandshakeAction::SendAndClose(b) => b,
        _ => panic!("expected a send"),
    }
}

fn expect_close(action: HandshakeAction) {
    match action {
        HandshakeAction::Close => {}
        _ => panic!("expected a close"),
    }
}

#[test]
fn service_bytes_select_services() {
    assert_eq!(select_service(14), Service::Login);
    assert_eq!(select_service(15), Service::Js5);
    assert_eq!(select_service(0), Service::Unknown);
    assert_eq!(select_service(255), Service::Unknown);
    assert_eq!(LOGIN_SERVICE, 14);
    assert_eq!(JS5_SERVICE, 15);
}

#[test]
fn login_greeting_is_zero_then_big_endian_session_id() {
    assert_eq!(login_greeting(0), vec![0, 0, 0, 0, 0, 0, 0, 0, 0]);
    assert_eq!(
        login_greeting(0x0102_0304_0506_0708),
        vec![0, 1, 2, 3, 4, 5, 6, 7, 8]
    );
    let g = login_greeting(u64::MAX);
    assert_eq!(g[0], 0);
    assert_eq!(u64::from_be_bytes(g[1..9].try_into().unwrap()), u64::MAX);
}

#[test]
fn revision_decodes_big_endian_twos_complement() {
    assert_eq!(decode_i32_be(&223i32.to_be_bytes()), 223);
    assert_eq!(decode_i32_be(&[0, 0, 0, 223]), 223);
    assert_eq!(decode_i32_be(&[0xff, 0xff, 0xff, 0xff]), -1);
    assert_eq!(decode_i32_be(&[0x80, 0, 0, 0]), i32::MIN);
    assert_eq!(decode_i32_be(&[0x7f, 0xff, 0xff, 0xff]), i32::MAX);
}

#[test]
fn login_connection_is_greeted_with_session_id() {
    let (mut hs, first) = Handshake::start(223);
    assert_eq!(expect_read(first), 1);
    let greeting = expect_send(hs.step(HandshakeEvent::Received(vec![14])));
    assert_eq!(greeting, login_greeting(LOGIN_SESSION_ID));
    assert_eq!(greeting, vec![0; 9]);
    assert_eq!(hs.state, HandshakeState::Finished);
}

#[test]
fn js5_connection_at_server_revision_gets_zero_byte() {
    let (mut hs, _) = Handshake::start(223);
    assert_eq!(expect_read(hs.step(HandshakeEvent::Received(vec![15]))), 4);
    assert_eq!(hs.state, HandshakeState::AwaitingRevision);
    let reply = expect_send(hs.step(HandshakeEvent::Received(223i32.to_be_bytes().to_vec())));
    assert_eq!(reply, vec![0]);
    assert_eq!(hs.state, HandshakeState::Finished);
}

#[test]
fn js5_connection_at_other_revision_is_closed() {
    let (mut hs, _) = Handshake::start(223);
    expect_read(hs.step(HandshakeEvent::Received(vec![15])));
    expect_close(hs.step(HandshakeEvent::Received(222i32.to_be_bytes().to_vec())));
    assert_eq!(hs.state, HandshakeState::Finished);
}

#[test]
fn unknown_service_is_closed() {
    let (mut hs, _) = Handshake::start(223);
    expect_close(hs.step(HandshakeEvent::Received(vec![16])));
    assert_eq!(hs.state, HandshakeState::Finished);
}

#[test]
fn failed_reads_close_the_connection() {
    let (mut hs, _) = Handshake::start(223);
    expect_close(hs.step(HandshakeEvent::ReadFailed));
    let (mut hs, _) = Handshake::start(223);
    expect_read(hs.step(HandshakeEvent::Received(vec![15])));
    expect_close(hs.step(HandshakeEvent::ReadFailed));
}

#[test]
fn finished_handshake_only_closes() {
    let (mut hs, _) = Handshake::start(223);
    expect_send(hs.step(HandshakeEvent::Received(vec![14])));
    expect_close(hs.step(HandshakeEvent::Received(vec![15])));
    expect_close(hs.step(HandshakeEvent::Received(vec![0, 0, 0, 223])));
    assert_eq!(hs.state, HandshakeState::Finished);
    assert_eq!(hs.revision, 223);
}

#[test]
fn wrongly_sized_reads_close_the_connection() {
    let (mut hs, _) = Handshake::start(223);
    expect_close(hs.step(HandshakeEvent::Received(vec![15, 15])));
    let (mut hs, _) = Handshake::start(223);
    expect_read(hs.step(HandshakeEvent::Received(vec![15])));
    expect_close(hs.step(HandshakeEvent::Received(vec![0, 223])));
}
