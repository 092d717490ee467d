//! The protocol of one connection as a state machine: bytes and answers
//! in, requests and frames out.
use vstd::prelude::*;

use crate::frame::{decode_frame, encode_frame, frame_of, lemma_frame_round_trip, split_frame, MAX_FRAME_LEN};
use crate::pb::{CommandView, Request, Response, ResponseView};
use crate::proto::{
    decode_request, decode_response, encode_request, encode_response, lemma_request_round_trip,
    lemma_response_round_trip, request_in_memory, response_in_memory,
};

verus! {

/// Where a connection stands.
#[derive(Debug, Clone, Copy, PartialEq, Eq, Structural)]
pub enum ConnState {
    /// Waiting for the bytes of a whole request frame.
    Reading,
    /// A request has been handed out to be served; waiting for its response.
    Dispatching,
    /// A response frame has been handed out to be written; waiting until it is.
    Writing,
    /// Done: the peer left, or a read, write or decode failed.
    Closed,
}

/// What happened on a connection.
pub enum ConnEvent {
    /// Bytes arrived from the peer.
    Received(Vec<u8>),
    /// The peer closed its side of the connection.
    PeerClosed,
    /// The store answered the request that was handed out.
    Answered(Response),
    /// The response frame has been written out in full.
    Written,
    /// Reading from or writing to the peer failed.
    IoFailed,
}

/// What the driver of a connection is to do next.
pub enum ConnAction {
    /// Read more bytes from the peer.
    Read,
    /// Serve this request against the store, then report the answer.
    Dispatch(Request),
    /// Write these bytes to the peer, then report that they are written.
    Write(Vec<u8>),
    /// Close the connection.
    Close,
}

/// An event as a mathematical value.
pub enum ConnEventView {
    Received(Seq<u8>),
    PeerClosed,
    Answered(ResponseView),
    Written,
    IoFailed,
}

/// An action as a mathematical value.
pub enum ConnActionView {
    Read,
    Dispatch(Option<CommandView>),
    Write(Seq<u8>),
    Close,
}

/// A connection as a mathematical value: where it stands, and the bytes read
/// but not yet taken as a frame.
pub struct ConnView {
    pub state: ConnState,
    pub buffer: Seq<u8>,
}

impl View for ConnEvent {
    type V = ConnEventView;

    open spec fn view(&self) -> ConnEventView {
        match self {
            ConnEvent::Received(b) => ConnEventView::Received(b@),
            ConnEvent::PeerClosed => ConnEventView::PeerClosed,
            ConnEvent::Answered(r) => ConnEventView::Answered(r@),
            ConnEvent::Written => ConnEventView::Written,
            ConnEvent::IoFailed => ConnEventView::IoFailed,
        }
    }
}

impl View for ConnAction {
    type V = ConnActionView;

    open spec fn view(&self) -> ConnActionView {
        match self {
            ConnAction::Read => ConnActionView::Read,
            ConnAction::Dispatch(r) => ConnActionView::Dispatch(r@),
            ConnAction::Write(b) => ConnActionView::Write(b@),
            ConnAction::Close => ConnActionView::Close,
        }
    }
}

/// The closed connection, and the action that closes it.
pub open spec fn close() -> (ConnView, ConnActionView) {
    (ConnView { state: ConnState::Closed, buffer: Seq::empty() }, ConnActionView::Close)
}

/// A reading connection with `buf` in hand: while no whole frame is there it
/// reads on; a frame that holds a request has that request served next; a
/// frame that holds no request closes the connection.
pub open spec fn take_request(buf: Seq<u8>) -> (ConnView, ConnActionView) {
    match split_frame(buf) {
        None => (ConnView { state: ConnState::Reading, buffer: buf }, ConnActionView::Read),
        Some((payload, rest)) => match decode_request(payload) {
            Some(req) => (ConnView { state: ConnState::Dispatching, buffer: rest }, ConnActionView::Dispatch(req)),
            None => close(),
        },
    }
}

/// How a connection moves on an event, and what it asks for. Requests are
/// served strictly one at a time: no frame is taken while a response is
/// pending. An event that does not fit the state closes the connection, as
/// do an I/O failure, the peer leaving and a response too large for a frame.
pub open spec fn conn_step(c: ConnView, ev: ConnEventView) -> (ConnView, ConnActionView) {
    match (c.state, ev) {
        (ConnState::Reading, ConnEventView::Received(data)) => take_request(c.buffer + data),
        (ConnState::Dispatching, ConnEventView::Answered(resp)) => {
            let payload = encode_response(resp);
            if payload.len() <= MAX_FRAME_LEN {
                (ConnView { state: ConnState::Writing, buffer: c.buffer }, ConnActionView::Write(frame_of(payload)))
            } else {
                close()
            }
        },
        (ConnState::Writing, ConnEventView::Written) => take_request(c.buffer),
        _ => close(),
    }
}

/// A reading connection with nothing in hand that receives the frame of a
/// request, with any bytes after it, hands out exactly that request to be
/// served and keeps the bytes after it.
pub proof fn lemma_request_frame_dispatched(req: Option<CommandView>, rest: Seq<u8>)
    requires
        request_in_memory(req),
        encode_request(req).len() <= MAX_FRAME_LEN,
    ensures
        conn_step(
            ConnView { state: ConnState::Reading, buffer: Seq::empty() },
            ConnEventView::Received(frame_of(encode_request(req)) + rest),
        ) == (ConnView { state: ConnState::Dispatching, buffer: rest }, ConnActionView::Dispatch(req)),
{
    let data = frame_of(encode_request(req)) + rest;
    assert(Seq::<u8>::empty() + data =~= data);
    lemma_frame_round_trip(encode_request(req), rest);
    lemma_request_round_trip(req);
}

/// A connection waiting on the store that gets the answer hands out one
/// frame to write; a peer that reads that frame, with anything after it,
/// reads back exactly the answer.
pub proof fn lemma_answer_written(c: ConnView, resp: ResponseView, rest: Seq<u8>)
    requires
        c.state == ConnState::Dispatching,
        response_in_memory(resp),
        encode_response(resp).len() <= MAX_FRAME_LEN,
    ensures
        conn_step(c, ConnEventView::Answered(resp)) == (
            ConnView { state: ConnState::Writing, buffer: c.buffer },
            ConnActionView::Write(frame_of(encode_response(resp))),
        ),
        split_frame(frame_of(encode_response(resp)) + rest) == Some((encode_response(resp), rest)),
        decode_response(encode_response(resp)) == Some(resp),
{
    lemma_frame_round_trip(encode_response(resp), rest);
    lemma_response_round_trip(resp);
}

/// The protocol of one connection: frames in, requests out to be served,
/// responses in, frames out.
pub struct Connection {
    state: ConnState,
    buffer: Vec<u8>,
}

impl View for Connection {
    type V = ConnView;

    closed spec fn view(&self) -> ConnView {
        ConnView { state: self.state, buffer: self.buffer@ }
    }
}

impl Connection {
    /// A connection just accepted: reading, with nothing in hand.
    pub fn new() -> (c: Self)
        ensures
            c@ == (ConnView { state: ConnState::Reading, buffer: Seq::empty() }),
    {
        Connection { state: ConnState::Reading, buffer: Vec::new() }
    }

    /// Where the connection stands.
    pub fn state(&self) -> (s: ConnState)
        ensures
            s == self@.state,
    {
        self.state
    }

    /// Whether the connection is done.
    pub fn is_closed(&self) -> (b: bool)
        ensures
            b <==> self@.state == ConnState::Closed,
    {
        self.state == ConnState::Closed
    }

    fn close(&mut self) -> (a: ConnAction)
        ensures
            (final(self)@, a@) == close(),
    {
        self.state = ConnState::Closed;
        self.buffer = Vec::new();
        ConnAction::Close
    }

    fn take_request(&mut self) -> (a: ConnAction)
        ensures
            (final(self)@, a@) == take_request(old(self)@.buffer),
    {
        match decode_frame(self.buffer.as_slice()) {
            Err(_) => {
                self.state = ConnState::Reading;
                ConnAction::Read
            },
            Ok((payload, rest)) => match Request::decode(payload.as_slice()) {
                Ok(req) => {
                    self.state = ConnState::Dispatching;
                    self.buffer = rest;
                    ConnAction::Dispatch(req)
                },
                Err(_) => self.close(),
            },
        }
    }

    /// Moves the connection on `ev` and says what to do next.
    pub fn step(&mut self, ev: ConnEvent) -> (a: ConnAction)
        ensures
            (final(self)@, a@) == conn_step(old(self)@, ev@),
    {
        match (self.state, ev) {
            (ConnState::Reading, ConnEvent::Received(data)) => {
                let mut data = data;
                self.buffer.append(&mut data);
                self.take_request()
            },
            (ConnState::Dispatching, ConnEvent::Answered(resp)) => {
                match encode_frame(resp.encode_to_vec().as_slice()) {
                    Ok(frame) => {
                        self.state = ConnState::Writing;
                        ConnAction::Write(frame)
                    },
                    Err(_) => self.close(),
                }
            },
            (ConnState::Writing, ConnEvent::Written) => self.take_request(),
            _ => self.close(),
        }
    }
}

} // verus!
