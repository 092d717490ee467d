//! The binary encoding of the messages: tagged fields in the protocol
//! buffers wire format.
use vstd::prelude::*;
use vstd::slice::{slice_subrange, slice_to_vec};
use vstd::utf8::{decode_utf8, encode_utf8, encode_utf8_decode_utf8, encode_utf8_valid_utf8, valid_utf8};

use crate::pb::{Command, CommandView, Request, RequestDel, RequestGet, RequestPut, Response, ResponseView};
use prost::encoding::{DecodeContext, WireType};

use crate::varint::{lemma_parse_varint_len, lemma_varint_round_trip, parse_varint, put_varint, read_varint, varint};

verus! {

/// Wire type of a field whose value is a varint.
pub const WIRE_VARINT: u64 = 0;

/// Wire type of a field whose value is eight fixed bytes.
pub const WIRE_FIXED64: u64 = 1;

/// Wire type of a field whose value is a varint length and that many bytes.
pub const WIRE_LEN: u64 = 2;

/// Wire type of a field whose value is four fixed bytes.
pub const WIRE_FIXED32: u64 = 5;

/// Wire type of a field that opens a group of fields.
pub const WIRE_START_GROUP: u64 = 3;

/// Wire type of the key that closes a group.
pub const WIRE_END_GROUP: u64 = 4;

/// The largest field key: keys are 32-bit numbers.
pub const MAX_KEY: u64 = 0xffff_ffff;

/// The largest tag.
pub const MAX_TAG: u32 = 0x1fff_ffff;

/// How deep groups of unknown fields may nest before they are refused.
pub const SKIP_DEPTH: u64 = 100;

/// The value of one field on the wire.
pub enum WireValue {
    Varint(u64),
    Bytes(Seq<u8>),
    /// A value that is passed over: four or eight fixed bytes, or a group.
    Skipped,
}

/// The key at the front of `b`: tag, wire type, and how many bytes it spans.
/// A key is a varint that fits in 32 bits, the tag times eight plus the wire
/// type; the tag is at least 1 and the wire type at most 5.
pub open spec fn parse_key(b: Seq<u8>) -> Option<(nat, nat, nat)> {
    match parse_varint(b) {
        None => None,
        Some((key, n)) => if key > MAX_KEY || key % 8 > 5 || key / 8 == 0 {
            None
        } else {
            Some(((key / 8) as nat, (key % 8) as nat, n))
        },
    }
}

/// How many bytes at the front of `b` the value of a field with tag `tag`
/// and wire type `wt` spans, when it is passed over with `budget` levels of
/// nesting left: a varint, eight or four bytes, a length and that many bytes,
/// or a group up to the key that closes it. A closing key out of place, or
/// running out of nesting, is an error.
pub open spec fn skip_len(wt: nat, tag: nat, b: Seq<u8>, budget: nat) -> Option<nat>
    decreases budget, b.len(), 1nat,
{
    if budget == 0 {
        None
    } else if wt == WIRE_VARINT {
        match parse_varint(b) {
            Some((v, n)) => Some(n),
            None => None,
        }
    } else if wt == WIRE_FIXED64 {
        if b.len() >= 8 {
            Some(8)
        } else {
            None
        }
    } else if wt == WIRE_FIXED32 {
        if b.len() >= 4 {
            Some(4)
        } else {
            None
        }
    } else if wt == WIRE_LEN {
        match parse_varint(b) {
            Some((len, n)) => if len <= b.len() - n {
                Some((n + len) as nat)
            } else {
                None
            },
            None => None,
        }
    } else if wt == WIRE_START_GROUP {
        skip_group(tag, b, budget)
    } else {
        None
    }
}

/// How many bytes at the front of `b` the rest of a group with tag `tag`
/// spans, its closing key included: each field in it is passed over with one
/// level of nesting less, and the closing key must carry the group's tag.
pub open spec fn skip_group(tag: nat, b: Seq<u8>, budget: nat) -> Option<nat>
    decreases budget, b.len(), 0nat,
{
    if budget == 0 {
        None
    } else {
        match parse_key(b) {
            None => None,
            Some((t, w, n)) => if w == WIRE_END_GROUP {
                if t == tag {
                    Some(n)
                } else {
                    None
                }
            } else {
                match skip_len(w, t, b.skip(n as int), (budget - 1) as nat) {
                    Some(m) => if 0 < n && n + m <= b.len() {
                        match skip_group(tag, b.skip((n + m) as int), budget) {
                            Some(k) => Some(n + m + k),
                            None => None,
                        }
                    } else {
                        None
                    },
                    None => None,
                }
            },
        }
    }
}

/// The field at the front of `b`: its tag, its value and how many bytes it
/// spans. Varint and length-delimited values are read; other values are
/// passed over, groups included.
pub open spec fn parse_field(b: Seq<u8>) -> Option<(nat, WireValue, nat)> {
    match parse_key(b) {
        None => None,
        Some((tag, wt, n)) => {
            let rest = b.skip(n as int);
            if wt == WIRE_VARINT {
                match parse_varint(rest) {
                    Some((v, m)) => Some((tag, WireValue::Varint(v), n + m)),
                    None => None,
                }
            } else if wt == WIRE_LEN {
                match parse_varint(rest) {
                    Some((len, m)) => if rest.len() - m >= len {
                        Some((tag, WireValue::Bytes(rest.subrange(m as int, m + len)), (n + m + len) as nat))
                    } else {
                        None
                    },
                    None => None,
                }
            } else {
                match skip_len(wt, tag, rest, SKIP_DEPTH as nat) {
                    Some(m) => Some((tag, WireValue::Skipped, n + m)),
                    None => None,
                }
            }
        },
    }
}

/// The key and value of a get, put or del sub-message as read so far.
pub struct EntryView {
    pub key: Seq<char>,
    pub value: Seq<u8>,
}

/// `acc` after one more field of a sub-message: tag 1 is the key, a UTF-8
/// string; where `with_value` holds, tag 2 is the value; other tags are
/// skipped.
pub open spec fn apply_entry_field(acc: EntryView, with_value: bool, tag: nat, v: WireValue) -> Option<EntryView> {
    if tag == 1 {
        match v {
            WireValue::Bytes(s) => if valid_utf8(s) {
                Some(EntryView { key: decode_utf8(s), ..acc })
            } else {
                None
            },
            _ => None,
        }
    } else if tag == 2 && with_value {
        match v {
            WireValue::Bytes(s) => Some(EntryView { value: s, ..acc }),
            _ => None,
        }
    } else {
        Some(acc)
    }
}

/// `acc` after the fields in `b`, in order; `None` if one is malformed.
pub open spec fn decode_entry_from(b: Seq<u8>, with_value: bool, acc: EntryView) -> Option<EntryView>
    decreases b.len(),
{
    if b.len() == 0 {
        Some(acc)
    } else {
        match parse_field(b) {
            Some((tag, v, n)) => if 0 < n <= b.len() {
                match apply_entry_field(acc, with_value, tag, v) {
                    Some(next) => decode_entry_from(b.skip(n as int), with_value, next),
                    None => None,
                }
            } else {
                None
            },
            None => None,
        }
    }
}

/// The sub-message in `b`, read from an empty key and value.
pub open spec fn decode_entry(b: Seq<u8>, with_value: bool) -> Option<EntryView> {
    decode_entry_from(b, with_value, EntryView { key: Seq::empty(), value: Seq::empty() })
}

/// The command of a request after one more field: tags 1, 2 and 3 carry a
/// get, a put and a del, and the last of them wins; other tags are skipped.
pub open spec fn apply_request_field(acc: Option<CommandView>, tag: nat, v: WireValue) -> Option<Option<CommandView>> {
    if 1 <= tag <= 3 {
        match v {
            WireValue::Bytes(s) => match decode_entry(s, tag == 2) {
                Some(e) => Some(Some(
                    if tag == 1 {
                        CommandView::Get { key: e.key }
                    } else if tag == 2 {
                        CommandView::Put { key: e.key, value: e.value }
                    } else {
                        CommandView::Del { key: e.key }
                    },
                )),
                None => None,
            },
            _ => None,
        }
    } else {
        Some(acc)
    }
}

/// The command of a request after the fields in `b`, in order.
pub open spec fn decode_request_from(b: Seq<u8>, acc: Option<CommandView>) -> Option<Option<CommandView>>
    decreases b.len(),
{
    if b.len() == 0 {
        Some(acc)
    } else {
        match parse_field(b) {
            Some((tag, v, n)) => if 0 < n <= b.len() {
                match apply_request_field(acc, tag, v) {
                    Some(next) => decode_request_from(b.skip(n as int), next),
                    None => None,
                }
            } else {
                None
            },
            None => None,
        }
    }
}

/// The request that `b` encodes, or `None` if `b` is malformed.
pub open spec fn decode_request(b: Seq<u8>) -> Option<Option<CommandView>> {
    decode_request_from(b, None)
}

/// A response after one more field: tag 1 is the code, a varint cut to
/// 32 bits; tag 2 the key, a UTF-8 string; tag 3 the value; other tags are
/// skipped.
pub open spec fn apply_response_field(acc: ResponseView, tag: nat, v: WireValue) -> Option<ResponseView> {
    if tag == 1 {
        match v {
            WireValue::Varint(x) => Some(ResponseView { code: x as i32, ..acc }),
            _ => None,
        }
    } else if tag == 2 {
        match v {
            WireValue::Bytes(s) => if valid_utf8(s) {
                Some(ResponseView { key: decode_utf8(s), ..acc })
            } else {
                None
            },
            _ => None,
        }
    } else if tag == 3 {
        match v {
            WireValue::Bytes(s) => Some(ResponseView { value: s, ..acc }),
            _ => None,
        }
    } else {
        Some(acc)
    }
}

/// A response after the fields in `b`, in order.
pub open spec fn decode_response_from(b: Seq<u8>, acc: ResponseView) -> Option<ResponseView>
    decreases b.len(),
{
    if b.len() == 0 {
        Some(acc)
    } else {
        match parse_field(b) {
            Some((tag, v, n)) => if 0 < n <= b.len() {
                match apply_response_field(acc, tag, v) {
                    Some(next) => decode_response_from(b.skip(n as int), next),
                    None => None,
                }
            } else {
                None
            },
            None => None,
        }
    }
}

/// The empty response: code 0, no key, no value.
pub open spec fn empty_response() -> ResponseView {
    ResponseView { code: 0, key: Seq::empty(), value: Seq::empty() }
}

/// The response that `b` encodes, or `None` if `b` is malformed.
pub open spec fn decode_response(b: Seq<u8>) -> Option<ResponseView> {
    decode_response_from(b, empty_response())
}

proof fn lemma_parse_key_len(b: Seq<u8>)
    ensures
        parse_key(b) matches Some((t, w, n)) ==> 0 < n <= b.len(),
{
    lemma_parse_varint_len(b);
}

proof fn lemma_skip_len_bound(wt: nat, tag: nat, b: Seq<u8>, budget: nat)
    ensures
        skip_len(wt, tag, b, budget) matches Some(m) ==> m <= b.len(),
    decreases budget, b.len(), 1nat,
{
    lemma_parse_varint_len(b);
    if budget > 0 && wt == WIRE_START_GROUP {
        lemma_skip_group_bound(tag, b, budget);
    }
}

proof fn lemma_skip_group_bound(tag: nat, b: Seq<u8>, budget: nat)
    ensures
        skip_group(tag, b, budget) matches Some(m) ==> m <= b.len(),
    decreases budget, b.len(), 0nat,
{
    lemma_parse_key_len(b);
    if budget > 0 {
        if let Some((t, w, n)) = parse_key(b) {
            if w != WIRE_END_GROUP {
                if let Some(m) = skip_len(w, t, b.skip(n as int), (budget - 1) as nat) {
                    if 0 < n && n + m <= b.len() {
                        lemma_skip_group_bound(tag, b.skip((n + m) as int), budget);
                    }
                }
            }
        }
    }
}

/// A field spans at least one byte and no more than the bytes there are.
pub proof fn lemma_parse_field_len(b: Seq<u8>)
    ensures
        parse_field(b) matches Some((t, v, n)) ==> 0 < n <= b.len(),
{
    lemma_parse_key_len(b);
    if let Some((tag, wt, n)) = parse_key(b) {
        lemma_parse_varint_len(b.skip(n as int));
        lemma_skip_len_bound(wt, tag, b.skip(n as int), SKIP_DEPTH as nat);
    }
}

/// Relies on prost::encoding::decode_key, reading from a slice: the tag and
/// wire type of the key at the front of `b`, and how many bytes of `b`
/// follow it.
#[verifier::external_body]
fn read_key(b: &[u8]) -> (r: Option<(u32, u8, usize)>)
    ensures
        match parse_key(b@) {
            Some((tag, wt, n)) => r == Some((tag as u32, wt as u8, (b@.len() - n) as usize)),
            None => r is None,
        },
{
    let mut rest = b;
    match prost::encoding::decode_key(&mut rest) {
        Ok((tag, wire_type)) => Some((tag, wire_type as u8, rest.len())),
        Err(_) => None,
    }
}

/// Relies on prost::encoding::skip_field with a fresh decode context (100
/// levels of nesting), reading from a slice: passes over the value of a field
/// with tag `tag` and wire type `wire`, giving how many bytes of `b` follow it.
#[verifier::external_body]
fn skip_value(wire: u8, tag: u32, b: &[u8]) -> (r: Option<usize>)
    requires
        wire <= 5,
    ensures
        match skip_len(wire as nat, tag as nat, b@, SKIP_DEPTH as nat) {
            Some(m) => r == Some((b@.len() - m) as usize),
            None => r is None,
        },
{
    let wire_type = match wire {
        0 => WireType::Varint,
        1 => WireType::SixtyFourBit,
        2 => WireType::LengthDelimited,
        3 => WireType::StartGroup,
        4 => WireType::EndGroup,
        _ => WireType::ThirtyTwoBit,
    };
    let mut rest = b;
    match prost::encoding::skip_field(wire_type, tag, &mut rest, DecodeContext::default()) {
        Ok(()) => Some(rest.len()),
        Err(_) => None,
    }
}

/// Relies on prost::encoding::encode_key: appends the varint of the tag
/// times eight plus the wire type.
#[verifier::external_body]
fn put_key(buf: &mut Vec<u8>, tag: u32, wire: u8)
    requires
        1 <= tag <= MAX_TAG,
        wire <= 5,
    ensures
        final(buf)@ == old(buf)@ + varint((tag * 8 + wire) as nat),
{
    let wire_type = match wire {
        0 => WireType::Varint,
        1 => WireType::SixtyFourBit,
        2 => WireType::LengthDelimited,
        3 => WireType::StartGroup,
        4 => WireType::EndGroup,
        _ => WireType::ThirtyTwoBit,
    };
    prost::encoding::encode_key(tag, wire_type, buf)
}

/// A field read from the wire; a byte string is given by where it lies.
enum WireItem {
    Varint(u64),
    Bytes(usize, usize),
    Skipped,
}

/// Reads the field that starts at `pos` in `b`: its tag, its value and where
/// the next field starts.
fn read_field(b: &[u8], pos: usize) -> (r: Option<(u64, WireItem, usize)>)
    requires
        pos < b@.len(),
    ensures
        match parse_field(b@.skip(pos as int)) {
            None => r is None,
            Some((tag, v, n)) => r matches Some((t, item, next)) && t == tag && next == pos + n
                && next <= b@.len() && match v {
                WireValue::Varint(x) => item == WireItem::Varint(x),
                WireValue::Bytes(s) => item matches WireItem::Bytes(i, j) && pos <= i <= j <= b@.len()
                    && b@.subrange(i as int, j as int) == s,
                WireValue::Skipped => item is Skipped,
            },
        },
{
    let ghost rest = b@.skip(pos as int);
    proof {
        lemma_parse_field_len(rest);
        lemma_parse_key_len(rest);
    }
    let (tag, wt, left) = match read_key(slice_subrange(b, pos, b.len())) {
        Some(kl) => kl,
        None => return None,
    };
    let after_key = b.len() - left;
    let ghost nkey = (after_key - pos) as nat;
    let ghost rest2 = rest.skip(nkey as int);
    assert(rest2 =~= b@.skip(after_key as int));
    proof {
        lemma_parse_varint_len(rest2);
        lemma_skip_len_bound(wt as nat, tag as nat, rest2, SKIP_DEPTH as nat);
    }
    if wt as u64 == WIRE_VARINT {
        match read_varint(slice_subrange(b, after_key, b.len())) {
            Some((v, left2)) => Some((tag as u64, WireItem::Varint(v), b.len() - left2)),
            None => None,
        }
    } else if wt as u64 == WIRE_LEN {
        match read_varint(slice_subrange(b, after_key, b.len())) {
            Some((len, left2)) => {
                if (left2 as u64) < len {
                    return None;
                }
                let start = b.len() - left2;
                let end = start + len as usize;
                assert(b@.subrange(start as int, end as int) =~= rest2.subrange(
                    (start - after_key) as int,
                    (end - after_key) as int,
                ));
                Some((tag as u64, WireItem::Bytes(start, end), end))
            },
            None => None,
        }
    } else {
        match skip_value(wt, tag, slice_subrange(b, after_key, b.len())) {
            Some(left2) => Some((tag as u64, WireItem::Skipped, b.len() - left2)),
            None => None,
        }
    }
}

/// Why bytes could not be read as a message.
#[derive(Debug, Clone, Copy, PartialEq, Eq, Structural)]
pub enum DecodeError {
    /// The bytes do not follow the wire format, or a field holds a value of
    /// the wrong wire type or a string that is not UTF-8.
    Malformed,
}

/// Relies on std::string::String::from_utf8: the string that `b` encodes in
/// UTF-8, or an error if `b` is not UTF-8.
#[verifier::external_body]
fn string_from_utf8(b: Vec<u8>) -> (r: Option<String>)
    ensures
        r is Some <==> valid_utf8(b@),
        r matches Some(s) ==> s@ == decode_utf8(b@),
{
    String::from_utf8(b).ok()
}

/// The UTF-8 string in `b[i..j]`.
fn read_string(b: &[u8], i: usize, j: usize) -> (r: Option<String>)
    requires
        i <= j <= b@.len(),
    ensures
        r is Some <==> valid_utf8(b@.subrange(i as int, j as int)),
        r matches Some(s) ==> s@ == decode_utf8(b@.subrange(i as int, j as int)),
{
    string_from_utf8(slice_to_vec(slice_subrange(b, i, j)))
}

proof fn lemma_skip_skip(b: Seq<u8>, pos: int, n: int)
    requires
        0 <= pos,
        0 <= n,
        pos + n <= b.len(),
    ensures
        b.skip(pos).skip(n) == b.skip(pos + n),
{
    assert(b.skip(pos).skip(n) =~= b.skip(pos + n));
}

/// Reads a get, put or del sub-message: its key and, where `with_value`
/// holds, its value.
fn read_entry(b: &[u8], with_value: bool) -> (r: Option<(String, Vec<u8>)>)
    ensures
        match decode_entry(b@, with_value) {
            Some(e) => r matches Some((k, v)) && k@ == e.key && v@ == e.value,
            None => r is None,
        },
{
    let mut key = String::new();
    let mut value: Vec<u8> = Vec::new();
    let mut pos: usize = 0;
    assert(b@.skip(0) =~= b@);
    while pos < b.len()
        invariant
            pos <= b@.len(),
            decode_entry(b@, with_value) == decode_entry_from(
                b@.skip(pos as int),
                with_value,
                EntryView { key: key@, value: value@ },
            ),
        decreases b@.len() - pos,
    {
        proof {
            lemma_parse_field_len(b@.skip(pos as int));
        }
        match read_field(b, pos) {
            None => return None,
            Some((tag, item, next)) => {
                proof {
                    lemma_skip_skip(b@, pos as int, next - pos);
                }
                if tag == 1 {
                    match item {
                        WireItem::Bytes(i, j) => match read_string(b, i, j) {
                            Some(k) => key = k,
                            None => return None,
                        },
                        _ => return None,
                    }
                } else if tag == 2 && with_value {
                    match item {
                        WireItem::Bytes(i, j) => value = slice_to_vec(slice_subrange(b, i, j)),
                        _ => return None,
                    }
                }
                pos = next;
            },
        }
    }
    Some((key, value))
}

impl Request {
    /// Reads a request from `buf`: a get, put or del field carries the
    /// command, the last such field wins, and other fields are skipped.
    pub fn decode(buf: &[u8]) -> (r: Result<Request, DecodeError>)
        ensures
            match decode_request(buf@) {
                Some(c) => r matches Ok(req) && req@ == c,
                None => r == Err::<Request, DecodeError>(DecodeError::Malformed),
            },
    {
        let mut command: Option<Command> = None;
        let mut pos: usize = 0;
        assert(buf@.skip(0) =~= buf@);
        while pos < buf.len()
            invariant
                pos <= buf@.len(),
                decode_request(buf@) == decode_request_from(buf@.skip(pos as int), (Request { command })@),
            decreases buf@.len() - pos,
        {
            proof {
                lemma_parse_field_len(buf@.skip(pos as int));
            }
            match read_field(buf, pos) {
                None => return Err(DecodeError::Malformed),
                Some((tag, item, next)) => {
                    proof {
                        lemma_skip_skip(buf@, pos as int, next - pos);
                    }
                    if 1 <= tag && tag <= 3 {
                        match item {
                            WireItem::Bytes(i, j) => {
                                let sub = slice_subrange(buf, i, j);
                                match read_entry(sub, tag == 2) {
                                    Some((key, value)) => {
                                        command = Some(
                                            if tag == 1 {
                                                Command::Get(RequestGet { key })
                                            } else if tag == 2 {
                                                Command::Put(RequestPut { key, value })
                                            } else {
                                                Command::Del(RequestDel { key })
                                            },
                                        );
                                    },
                                    None => return Err(DecodeError::Malformed),
                                }
                            },
                            _ => return Err(DecodeError::Malformed),
                        }
                    }
                    pos = next;
                },
            }
        }
        Ok(Request { command })
    }
}

impl Response {
    /// Reads a response from `buf`: the code, key and value fields, the last
    /// of each winning, with other fields skipped.
    pub fn decode(buf: &[u8]) -> (r: Result<Response, DecodeError>)
        ensures
            match decode_response(buf@) {
                Some(v) => r matches Ok(resp) && resp@ == v,
                None => r == Err::<Response, DecodeError>(DecodeError::Malformed),
            },
    {
        let mut code: i32 = 0;
        let mut key = String::new();
        let mut value: Vec<u8> = Vec::new();
        let mut pos: usize = 0;
        assert(buf@.skip(0) =~= buf@);
        while pos < buf.len()
            invariant
                pos <= buf@.len(),
                decode_response(buf@) == decode_response_from(
                    buf@.skip(pos as int),
                    ResponseView { code, key: key@, value: value@ },
                ),
            decreases buf@.len() - pos,
        {
            proof {
                lemma_parse_field_len(buf@.skip(pos as int));
            }
            match read_field(buf, pos) {
                None => return Err(DecodeError::Malformed),
                Some((tag, item, next)) => {
                    proof {
                        lemma_skip_skip(buf@, pos as int, next - pos);
                    }
                    if tag == 1 {
                        match item {
                            WireItem::Varint(x) => code = x as i32,
                            _ => return Err(DecodeError::Malformed),
                        }
                    } else if tag == 2 {
                        match item {
                            WireItem::Bytes(i, j) => match read_string(buf, i, j) {
                                Some(k) => key = k,
                                None => return Err(DecodeError::Malformed),
                            },
                            _ => return Err(DecodeError::Malformed),
                        }
                    } else if tag == 3 {
                        match item {
                            WireItem::Bytes(i, j) => value = slice_to_vec(slice_subrange(buf, i, j)),
                            _ => return Err(DecodeError::Malformed),
                        }
                    }
                    pos = next;
                },
            }
        }
        Ok(Response { code, key, value })
    }
}

/// A length-delimited field: key, length, then the bytes `s`.
pub open spec fn len_field(tag: nat, s: Seq<u8>) -> Seq<u8> {
    varint((tag * 8 + WIRE_LEN) as nat) + varint(s.len()) + s
}

/// A bytes field, left out when `s` is empty.
pub open spec fn bytes_field(tag: nat, s: Seq<u8>) -> Seq<u8> {
    if s.len() == 0 {
        Seq::empty()
    } else {
        len_field(tag, s)
    }
}

/// A string field: its UTF-8 bytes, left out when the string is empty.
pub open spec fn string_field(tag: nat, s: Seq<char>) -> Seq<u8> {
    bytes_field(tag, encode_utf8(s))
}

/// A get, put or del sub-message: the key under tag 1, the value under tag 2.
pub open spec fn encode_entry(key: Seq<char>, value: Seq<u8>) -> Seq<u8> {
    string_field(1, key) + bytes_field(2, value)
}

/// A command: its sub-message under tag 1, 2 or 3, present even when empty.
pub open spec fn encode_command(c: CommandView) -> Seq<u8> {
    match c {
        CommandView::Get { key } => len_field(1, string_field(1, key)),
        CommandView::Put { key, value } => len_field(2, encode_entry(key, value)),
        CommandView::Del { key } => len_field(3, string_field(1, key)),
    }
}

/// The bytes of a request: its command, or nothing.
pub open spec fn encode_request(r: Option<CommandView>) -> Seq<u8> {
    match r {
        Some(c) => encode_command(c),
        None => Seq::empty(),
    }
}

/// The bytes of a response: the code under tag 1 as a varint of its 64-bit
/// sign extension, the key under tag 2, the value under tag 3; a field that
/// holds 0 or is empty is left out.
pub open spec fn encode_response(r: ResponseView) -> Seq<u8> {
    (if r.code == 0 {
        Seq::empty()
    } else {
        varint((1 * 8 + WIRE_VARINT) as nat) + varint(r.code as u64 as nat)
    }) + string_field(2, r.key) + bytes_field(3, r.value)
}

/// Appends a length-delimited field holding `s`.
fn put_len_field(buf: &mut Vec<u8>, tag: u64, s: &[u8])
    requires
        1 <= tag <= 3,
    ensures
        final(buf)@ == old(buf)@ + len_field(tag as nat, s@),
{
    put_key(buf, tag as u32, WIRE_LEN as u8);
    put_varint(buf, s.len() as u64);
    let mut bytes = slice_to_vec(s);
    buf.append(&mut bytes);
    assert(final(buf)@ =~= old(buf)@ + len_field(tag as nat, s@));
}

/// Appends a bytes field holding `s`, or nothing when `s` is empty.
fn put_bytes_field(buf: &mut Vec<u8>, tag: u64, s: &[u8])
    requires
        1 <= tag <= 3,
    ensures
        final(buf)@ == old(buf)@ + bytes_field(tag as nat, s@),
{
    if s.len() > 0 {
        put_len_field(buf, tag, s);
    } else {
        assert(old(buf)@ + bytes_field(tag as nat, s@) =~= old(buf)@);
    }
}

/// The bytes of a get, put or del sub-message.
fn entry_bytes(key: &String, value: &[u8]) -> (r: Vec<u8>)
    ensures
        r@ == encode_entry(key@, value@),
{
    let mut buf: Vec<u8> = Vec::new();
    put_bytes_field(&mut buf, 1, key.as_str().as_bytes());
    put_bytes_field(&mut buf, 2, value);
    assert(buf@ =~= encode_entry(key@, value@));
    buf
}

impl Request {
    /// The bytes of this request: its command as a sub-message, or nothing.
    pub fn encode_to_vec(&self) -> (r: Vec<u8>)
        ensures
            r@ == encode_request(self@),
    {
        let mut buf: Vec<u8> = Vec::new();
        match &self.command {
            Some(Command::Get(g)) => {
                let sub = entry_bytes(&g.key, &[]);
                assert(sub@ =~= string_field(1, g.key@));
                put_len_field(&mut buf, 1, sub.as_slice());
            },
            Some(Command::Put(p)) => {
                let sub = entry_bytes(&p.key, p.value.as_slice());
                put_len_field(&mut buf, 2, sub.as_slice());
            },
            Some(Command::Del(d)) => {
                let sub = entry_bytes(&d.key, &[]);
                assert(sub@ =~= string_field(1, d.key@));
                put_len_field(&mut buf, 3, sub.as_slice());
            },
            None => {},
        }
        assert(buf@ =~= encode_request(self@));
        buf
    }
}

impl Response {
    /// The bytes of this response.
    pub fn encode_to_vec(&self) -> (r: Vec<u8>)
        ensures
            r@ == encode_response(self@),
    {
        let mut buf: Vec<u8> = Vec::new();
        if self.code != 0 {
            put_key(&mut buf, 1, WIRE_VARINT as u8);
            put_varint(&mut buf, self.code as u64);
        }
        put_bytes_field(&mut buf, 2, self.key.as_str().as_bytes());
        put_bytes_field(&mut buf, 3, self.value.as_slice());
        assert(buf@ =~= encode_response(self@));
        buf
    }
}

proof fn lemma_parse_len_field(tag: nat, s: Seq<u8>, rest: Seq<u8>)
    requires
        1 <= tag <= 3,
        s.len() <= u64::MAX,
    ensures
        parse_field(len_field(tag, s) + rest) == Some((tag, WireValue::Bytes(s), len_field(tag, s).len())),
        len_field(tag, s).len() <= s.len() + 20,
{
    let k = (tag * 8 + WIRE_LEN) as u64;
    let len = s.len() as u64;
    let b = len_field(tag, s) + rest;
    lemma_varint_round_trip(k, varint(len as nat) + s + rest);
    assert(b =~= varint(k as nat) + (varint(len as nat) + s + rest));
    let n1 = varint(k as nat).len();
    let rest1 = b.skip(n1 as int);
    assert(rest1 =~= varint(len as nat) + (s + rest));
    lemma_varint_round_trip(len, s + rest);
    let m = varint(len as nat).len();
    assert(rest1.subrange(m as int, m + len) =~= s);
}

proof fn lemma_parse_varint_field(x: u64, rest: Seq<u8>)
    ensures
        parse_field(varint((1 * 8 + WIRE_VARINT) as nat) + varint(x as nat) + rest) == Some(
            (1nat, WireValue::Varint(x), (varint((1 * 8 + WIRE_VARINT) as nat) + varint(x as nat)).len()),
        ),
{
    let k = (1 * 8 + WIRE_VARINT) as u64;
    let b = varint(k as nat) + varint(x as nat) + rest;
    lemma_varint_round_trip(k, varint(x as nat) + rest);
    assert(b =~= varint(k as nat) + (varint(x as nat) + rest));
    let n1 = varint(k as nat).len();
    assert(b.skip(n1 as int) =~= varint(x as nat) + rest);
    lemma_varint_round_trip(x, rest);
}

proof fn lemma_string_field(tag: nat, key: Seq<char>)
    ensures
        valid_utf8(encode_utf8(key)),
        decode_utf8(encode_utf8(key)) == key,
        encode_utf8(key).len() == 0 ==> key == Seq::<char>::empty(),
{
    encode_utf8_valid_utf8(key);
    encode_utf8_decode_utf8(key);
    if encode_utf8(key).len() == 0 {
        assert(encode_utf8(key) =~= Seq::<u8>::empty());
        assert(decode_utf8(Seq::<u8>::empty()) =~= Seq::<char>::empty());
    }
}

proof fn lemma_entry_step(f: Seq<u8>, rest: Seq<u8>, with_value: bool, acc: EntryView, tag: nat, v: WireValue)
    requires
        parse_field(f + rest) == Some((tag, v, f.len())),
        f.len() > 0,
        apply_entry_field(acc, with_value, tag, v) is Some,
    ensures
        decode_entry_from(f + rest, with_value, acc) == decode_entry_from(
            rest,
            with_value,
            apply_entry_field(acc, with_value, tag, v)->0,
        ),
{
    assert((f + rest).skip(f.len() as int) =~= rest);
}

proof fn lemma_request_step(f: Seq<u8>, rest: Seq<u8>, acc: Option<CommandView>, tag: nat, v: WireValue)
    requires
        parse_field(f + rest) == Some((tag, v, f.len())),
        f.len() > 0,
        apply_request_field(acc, tag, v) is Some,
    ensures
        decode_request_from(f + rest, acc) == decode_request_from(rest, apply_request_field(acc, tag, v)->0),
{
    assert((f + rest).skip(f.len() as int) =~= rest);
}

proof fn lemma_response_step(f: Seq<u8>, rest: Seq<u8>, acc: ResponseView, tag: nat, v: WireValue)
    requires
        parse_field(f + rest) == Some((tag, v, f.len())),
        f.len() > 0,
        apply_response_field(acc, tag, v) is Some,
    ensures
        decode_response_from(f + rest, acc) == decode_response_from(rest, apply_response_field(acc, tag, v)->0),
{
    assert((f + rest).skip(f.len() as int) =~= rest);
}

proof fn lemma_bytes_field_len(tag: nat, s: Seq<u8>)
    requires
        1 <= tag <= 3,
        s.len() <= u64::MAX,
    ensures
        bytes_field(tag, s).len() <= s.len() + 20,
{
    if s.len() > 0 {
        lemma_parse_len_field(tag, s, Seq::empty());
    }
}

proof fn lemma_entry_round_trip(key: Seq<char>, value: Seq<u8>, with_value: bool)
    requires
        encode_utf8(key).len() <= u64::MAX,
        value.len() <= u64::MAX,
        with_value || value.len() == 0,
    ensures
        decode_entry(encode_entry(key, value), with_value) == Some(EntryView { key, value }),
{
    let f1 = string_field(1, key);
    let f2 = bytes_field(2, value);
    let empty = Seq::<u8>::empty();
    let acc0 = EntryView { key: Seq::empty(), value: Seq::empty() };
    let acc1 = EntryView { key, value: Seq::empty() };
    lemma_string_field(1, key);
    assert(encode_entry(key, value) =~= f1 + (f2 + empty));
    if encode_utf8(key).len() > 0 {
        lemma_parse_len_field(1, encode_utf8(key), f2 + empty);
        lemma_entry_step(f1, f2 + empty, with_value, acc0, 1, WireValue::Bytes(encode_utf8(key)));
    } else {
        assert(f1 + (f2 + empty) =~= f2 + empty);
    }
    if value.len() > 0 {
        lemma_parse_len_field(2, value, empty);
        lemma_entry_step(f2, empty, with_value, acc1, 2, WireValue::Bytes(value));
    } else {
        assert(f2 + empty =~= empty);
        assert(value =~= Seq::<u8>::empty());
    }
}

/// Whether the key and value of a request together are shorter than 2^63
/// bytes, as anything in memory is.
pub open spec fn request_in_memory(r: Option<CommandView>) -> bool {
    r matches Some(c) ==> match c {
        CommandView::Get { key } => encode_utf8(key).len() < 0x8000_0000_0000_0000,
        CommandView::Put { key, value } => encode_utf8(key).len() + value.len() < 0x8000_0000_0000_0000,
        CommandView::Del { key } => encode_utf8(key).len() < 0x8000_0000_0000_0000,
    }
}

/// Whether the key and value of a response are each shorter than 2^64
/// bytes, as anything in memory is.
pub open spec fn response_in_memory(r: ResponseView) -> bool {
    encode_utf8(r.key).len() <= u64::MAX && r.value.len() <= u64::MAX
}

/// Reading back the bytes of a request gives the request: its command, with
/// the same key and value.
pub proof fn lemma_request_round_trip(r: Option<CommandView>)
    requires
        request_in_memory(r),
    ensures
        decode_request(encode_request(r)) == Some(r),
{
    let empty = Seq::<u8>::empty();
    if let Some(c) = r {
        let (tag, sub) = match c {
            CommandView::Get { key } => (1nat, string_field(1, key)),
            CommandView::Put { key, value } => (2nat, encode_entry(key, value)),
            CommandView::Del { key } => (3nat, string_field(1, key)),
        };
        match c {
            CommandView::Get { key } => {
                assert(encode_entry(key, Seq::empty()) =~= string_field(1, key));
                lemma_entry_round_trip(key, Seq::empty(), false);
            },
            CommandView::Put { key, value } => {
                lemma_entry_round_trip(key, value, true);
            },
            CommandView::Del { key } => {
                assert(encode_entry(key, Seq::empty()) =~= string_field(1, key));
                lemma_entry_round_trip(key, Seq::empty(), false);
            },
        }
        match c {
            CommandView::Get { key } => lemma_bytes_field_len(1, encode_utf8(key)),
            CommandView::Put { key, value } => {
                lemma_bytes_field_len(1, encode_utf8(key));
                lemma_bytes_field_len(2, value);
            },
            CommandView::Del { key } => lemma_bytes_field_len(1, encode_utf8(key)),
        }
        let f = len_field(tag, sub);
        assert(encode_request(r) =~= f + empty);
        lemma_parse_len_field(tag, sub, empty);
        lemma_request_step(f, empty, None, tag, WireValue::Bytes(sub));
    }
}

/// Reading back the bytes of a response gives the response: the same code,
/// key and value.
pub proof fn lemma_response_round_trip(r: ResponseView)
    requires
        response_in_memory(r),
    ensures
        decode_response(encode_response(r)) == Some(r),
{
    let empty = Seq::<u8>::empty();
    let f1 = if r.code == 0 {
        Seq::empty()
    } else {
        varint((1 * 8 + WIRE_VARINT) as nat) + varint(r.code as u64 as nat)
    };
    let f2 = string_field(2, r.key);
    let f3 = bytes_field(3, r.value);
    let acc0 = empty_response();
    let acc1 = ResponseView { code: r.code, key: Seq::empty(), value: Seq::empty() };
    let acc2 = ResponseView { code: r.code, key: r.key, value: Seq::empty() };
    assert(encode_response(r) =~= f1 + (f2 + (f3 + empty)));
    if r.code != 0 {
        let c = r.code;
        assert((c as u64) as i32 == c) by (bit_vector);
        lemma_parse_varint_field(c as u64, f2 + (f3 + empty));
        lemma_response_step(f1, f2 + (f3 + empty), acc0, 1, WireValue::Varint(c as u64));
    } else {
        assert(f1 + (f2 + (f3 + empty)) =~= f2 + (f3 + empty));
    }
    lemma_string_field(2, r.key);
    if encode_utf8(r.key).len() > 0 {
        lemma_parse_len_field(2, encode_utf8(r.key), f3 + empty);
        lemma_response_step(f2, f3 + empty, acc1, 2, WireValue::Bytes(encode_utf8(r.key)));
    } else {
        assert(f2 + (f3 + empty) =~= f3 + empty);
    }
    if r.value.len() > 0 {
        lemma_parse_len_field(3, r.value, empty);
        lemma_response_step(f3, empty, acc2, 3, WireValue::Bytes(r.value));
    } else {
        assert(f3 + empty =~= empty);
        assert(r.value =~= Seq::<u8>::empty());
    }
}

} // verus!
