use kv::connection::{ConnAction, ConnEvent, ConnState, Connection};
use kv::frame::{decode_frame, encode_frame};
use kv::pb::{Request, Response};
use kv::store::Store;

fn frame_of(req: &Request) -> Vec<u8> {
    encode_frame(&req.encode_to_vec()).unwrap()
}

fn expect_dispatch(a: ConnAction) -> Request {
    match a {
        ConnAction::Dispatch(req) => req,
        _ => panic!("expected a request to dispatch"),
    }
}

fn expect_write(a: ConnAction) -> Vec<u8> {
    match a {
        ConnAction::Write(bytes) => bytes,
        _ => panic!("expected bytes to write"),
    }
}

#[test]
fn connection_serves_one_request() {
    let mut store = Store::new();
    let mut conn = Connection::new();
    assert_eq!(conn.state(), ConnState::Reading);
    let wire = frame_of(&Request::new_put("hello", b"world"));
    let (first, second) = wire.split_at(3);
    assert!(matches!(conn.step(ConnEvent::Received(first.to_vec())), ConnAction::Read));
    assert_eq!(conn.state(), ConnState::Reading);
    let req = expect_dispatch(conn.step(ConnEvent::Received(second.to_vec())));
    assert_eq!(req, Request::new_put("hello", b"world"));
    assert_eq!(conn.state(), ConnState::Dispatching);
    let resp = store.dispatch(&req);
    let out = expect_write(conn.step(ConnEvent::Answered(resp)));
    assert_eq!(conn.state(), ConnState::Writing);
    let (payload, rest) = decode_frame(&out).unwrap();
    assert!(rest.is_empty());
    assert_eq!(Response::decode(&payload), Ok(Response::new("hello".to_string(), b"world".to_vec())));
    assert!(matches!(conn.step(ConnEvent::Written), ConnAction::Read));
    assert_eq!(conn.state(), ConnState::Reading);
}

#[test]
fn connection_takes_pipelined_requests_one_at_a_time() {
    let mut conn = Connection::new();
    let mut wire = frame_of(&Request::new_get("a"));
    wire.extend(frame_of(&Request::new_del("b")));
    assert_eq!(expect_dispatch(conn.step(ConnEvent::Received(wire))), Request::new_get("a"));
    let _ = expect_write(conn.step(ConnEvent::Answered(Response::not_found("a".to_string()))));
    assert_eq!(expect_dispatch(conn.step(ConnEvent::Written)), Request::new_del("b"));
}

#[test]
fn connection_closes_on_a_malformed_request() {
    let mut conn = Connection::new();
    assert!(matches!(conn.step(ConnEvent::Received(vec![0, 1, 0xff])), ConnAction::Close));
    assert!(conn.is_closed());
    assert!(matches!(conn.step(ConnEvent::Received(frame_of(&Request::new_get("a")))), ConnAction::Close));
}

#[test]
fn connection_closes_when_peer_leaves_or_io_fails() {
    let mut conn = Connection::new();
    assert!(matches!(conn.step(ConnEvent::PeerClosed), ConnAction::Close));
    assert_eq!(conn.state(), ConnState::Closed);
    let mut conn = Connection::new();
    assert!(matches!(conn.step(ConnEvent::IoFailed), ConnAction::Close));
    assert!(conn.is_closed());
}

#[test]
fn connection_refuses_events_out_of_turn() {
    let mut conn = Connection::new();
    let _ = expect_dispatch(conn.step(ConnEvent::Received(frame_of(&Request::new_get("a")))));
    assert!(matches!(conn.step(ConnEvent::Received(vec![0])), ConnAction::Close));
    let mut conn = Connection::new();
    assert!(matches!(conn.step(ConnEvent::Written), ConnAction::Close));
}

#[test]
fn connection_closes_when_a_response_is_too_large() {
    let mut conn = Connection::new();
    let _ = expect_dispatch(conn.step(ConnEvent::Received(frame_of(&Request::new_get("a")))));
    let big = Response::new("a".to_string(), vec![1u8; 70000]);
    assert!(matches!(conn.step(ConnEvent::Answered(big)), ConnAction::Close));
    assert!(conn.is_closed());
}

#[test]
fn empty_request_answered_not_implemented() {
    let mut store = Store::new();
    let mut conn = Connection::new();
    let req = expect_dispatch(conn.step(ConnEvent::Received(vec![0, 0])));
    assert_eq!(req, Request { command: None });
    let resp = store.dispatch(&req);
    assert_eq!(resp, Response::not_impl());
    let out = expect_write(conn.step(ConnEvent::Answered(resp)));
    assert_eq!(out, vec![0, 3, 0x08, 0xf4, 0x03]);
}
