//! Values that turn into bytes, and events built from two of them.
use vstd::prelude::*;

use crate::pb::{Request, Response};
use crate::proto::{encode_request, encode_response};

verus! {

/// A value that can be turned into bytes.
pub trait Encoder {
    /// What `encode` gives: the bytes, or the error it fails with.
    spec fn encoding(&self) -> Result<Seq<u8>, anyhow::Error>;

    /// The bytes of `self`.
    fn encode(&self) -> (r: Result<Vec<u8>, anyhow::Error>)
        ensures
            r is Ok <==> self.encoding() is Ok,
            r matches Ok(b) ==> self.encoding() matches Ok(s) && b@ == s,
            r matches Err(e) ==> self.encoding() matches Err(f) && e == f,
    ;
}

/// An event: an identifier with the data it carries.
pub struct Event<Id, Data> {
    id: Id,
    data: Data,
}

impl<Id, Data> Event<Id, Data> {
    /// The identifier.
    pub closed spec fn id(&self) -> Id {
        self.id
    }

    /// The data.
    pub closed spec fn data(&self) -> Data {
        self.data
    }

    /// An event with identifier `id` carrying `data`.
    pub fn new(id: Id, data: Data) -> (r: Self)
        ensures
            r.id() == id,
            r.data() == data,
    {
        Self { id, data }
    }
}

impl<Id: Encoder, Data: Encoder> Encoder for Event<Id, Data> {
    /// The identifier's bytes followed by the data's; where the identifier
    /// fails, its error, and otherwise where the data fails, the data's error.
    open spec fn encoding(&self) -> Result<Seq<u8>, anyhow::Error> {
        match self.id().encoding() {
            Err(e) => Err(e),
            Ok(a) => match self.data().encoding() {
                Err(e) => Err(e),
                Ok(b) => Ok(a + b),
            },
        }
    }

    fn encode(&self) -> (r: Result<Vec<u8>, anyhow::Error>) {
        let mut result = match self.id.encode() {
            Ok(b) => b,
            Err(e) => return Err(e),
        };
        let mut tail = match self.data.encode() {
            Ok(b) => b,
            Err(e) => return Err(e),
        };
        result.append(&mut tail);
        Ok(result)
    }
}

impl Encoder for Request {
    open spec fn encoding(&self) -> Result<Seq<u8>, anyhow::Error> {
        Ok(encode_request(self@))
    }

    fn encode(&self) -> (r: Result<Vec<u8>, anyhow::Error>) {
        Ok(self.encode_to_vec())
    }
}

impl Encoder for Response {
    open spec fn encoding(&self) -> Result<Seq<u8>, anyhow::Error> {
        Ok(encode_response(self@))
    }

    fn encode(&self) -> (r: Result<Vec<u8>, anyhow::Error>) {
        Ok(self.encode_to_vec())
    }
}

} // verus!
