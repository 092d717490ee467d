//! The messages: requests carrying a get, put or del command, and responses.
use vstd::prelude::*;
use vstd::slice::slice_to_vec;

verus! {

/// Status code of a response that succeeded.
pub const CODE_OK: i32 = 0;

/// Status code of a response whose key is not in the store.
pub const CODE_NOT_FOUND: i32 = 404;

/// Status code of a response to a request that carries no command.
pub const CODE_NOT_IMPLEMENTED: i32 = 500;

/// Asks for the value stored under `key`.
#[derive(Debug, Clone, PartialEq, Eq)]
pub struct RequestGet {
    pub key: String,
}

/// Asks to store `value` under `key`, replacing what was there.
#[derive(Debug, Clone, PartialEq, Eq)]
pub struct RequestPut {
    pub key: String,
    pub value: Vec<u8>,
}

/// Asks to remove `key` and what is stored under it.
#[derive(Debug, Clone, PartialEq, Eq)]
pub struct RequestDel {
    pub key: String,
}

/// The command that a request carries.
#[derive(Debug, Clone, PartialEq, Eq)]
pub enum Command {
    Get(RequestGet),
    Put(RequestPut),
    Del(RequestDel),
}

/// A request: at most one command.
#[derive(Debug, Clone, PartialEq, Eq)]
pub struct Request {
    pub command: Option<Command>,
}

/// The answer to a request: a status code, with the key and value it concerns.
#[derive(Debug, Clone, PartialEq, Eq)]
pub struct Response {
    pub code: i32,
    pub key: String,
    pub value: Vec<u8>,
}

/// A command as a mathematical value.
pub enum CommandView {
    Get { key: Seq<char> },
    Put { key: Seq<char>, value: Seq<u8> },
    Del { key: Seq<char> },
}

/// A response as a mathematical value.
pub struct ResponseView {
    pub code: i32,
    pub key: Seq<char>,
    pub value: Seq<u8>,
}

impl View for Command {
    type V = CommandView;

    open spec fn view(&self) -> CommandView {
        match self {
            Command::Get(g) => CommandView::Get { key: g.key@ },
            Command::Put(p) => CommandView::Put { key: p.key@, value: p.value@ },
            Command::Del(d) => CommandView::Del { key: d.key@ },
        }
    }
}

impl View for Request {
    type V = Option<CommandView>;

    open spec fn view(&self) -> Option<CommandView> {
        match self.command {
            Some(c) => Some(c@),
            None => None,
        }
    }
}

impl View for Response {
    type V = ResponseView;

    open spec fn view(&self) -> ResponseView {
        ResponseView { code: self.code, key: self.key@, value: self.value@ }
    }
}

impl Response {
    /// A successful response carrying `key` and `value`.
    pub fn new(key: String, value: Vec<u8>) -> (r: Self)
        ensures
            r@ == (ResponseView { code: CODE_OK, key: key@, value: value@ }),
    {
        Response { code: CODE_OK, key, value }
    }

    /// The response for a `key` that is not in the store: no value.
    pub fn not_found(key: String) -> (r: Self)
        ensures
            r@ == (ResponseView { code: CODE_NOT_FOUND, key: key@, value: Seq::empty() }),
    {
        Response { code: CODE_NOT_FOUND, key, value: Vec::new() }
    }

    /// The response for a request without a command: no key, no value.
    pub fn not_impl() -> (r: Self)
        ensures
            r@ == (ResponseView { code: CODE_NOT_IMPLEMENTED, key: Seq::empty(), value: Seq::empty() }),
    {
        Response { code: CODE_NOT_IMPLEMENTED, key: String::new(), value: Vec::new() }
    }
}

impl Request {
    /// A request for the value stored under `key`.
    pub fn new_get(key: &str) -> (r: Self)
        ensures
            r@ == Some(CommandView::Get { key: key@ }),
    {
        Request { command: Some(Command::Get(RequestGet { key: key.to_owned() })) }
    }

    /// A request to remove `key`.
    pub fn new_del(key: &str) -> (r: Self)
        ensures
            r@ == Some(CommandView::Del { key: key@ }),
    {
        Request { command: Some(Command::Del(RequestDel { key: key.to_owned() })) }
    }

    /// A request to store `value` under `key`.
    pub fn new_put(key: &str, value: &[u8]) -> (r: Self)
        ensures
            r@ == Some(CommandView::Put { key: key@, value: value@ }),
    {
        Request {
            command: Some(Command::Put(RequestPut { key: key.to_owned(), value: slice_to_vec(value) })),
        }
    }
}

} // verus!
