//! Length-delimited frames: a two-byte big-endian length, then the payload.
use vstd::prelude::*;

use bytes::BytesMut;
use tokio_util::codec::LengthDelimitedCodec;

verus! {

#[verifier::external_type_specification]
#[verifier::external_body]
pub struct ExIoError(std::io::Error);

/// Number of bytes in the length field that leads every frame.
pub const LENGTH_FIELD_LEN: usize = 2;

/// The largest payload that a frame can carry: what the length field can count.
pub const MAX_FRAME_LEN: usize = 65535;

/// `256` raised to the power `w`.
pub open spec fn pow256(w: nat) -> nat
    decreases w,
{
    if w == 0 {
        1
    } else {
        256 * pow256((w - 1) as nat)
    }
}

/// The low `w` bytes of `n`, most significant first.
pub open spec fn be_bytes(n: nat, w: nat) -> Seq<u8>
    decreases w,
{
    if w == 0 {
        seq![]
    } else {
        be_bytes(n / 256, (w - 1) as nat).push((n % 256) as u8)
    }
}

/// The number that the bytes `b` spell, most significant first.
pub open spec fn be_value(b: Seq<u8>) -> nat
    decreases b.len(),
{
    if b.len() == 0 {
        0
    } else {
        be_value(b.drop_last()) * 256 + b.last() as nat
    }
}

/// The largest frame that a length-delimited codec with a `w`-byte length
/// field accepts: what the field can count, but no more than 8 MiB.
pub open spec fn codec_max_frame(w: nat) -> nat {
    if pow256(w) - 1 < 8 * 1024 * 1024 {
        (pow256(w) - 1) as nat
    } else {
        8 * 1024 * 1024
    }
}

/// Relies on tokio_util's LengthDelimitedCodec, built with a `width`-byte
/// length field and otherwise default settings, encoding a slice: the
/// payload's length, big-endian, then the payload; an error when the payload
/// is longer than the codec's largest frame.
#[verifier::external_body]
fn codec_encode(width: usize, payload: &[u8]) -> (r: Result<Vec<u8>, std::io::Error>)
    requires
        1 <= width <= 8,
    ensures
        r is Ok <==> payload@.len() <= codec_max_frame(width as nat),
        r is Ok ==> r->Ok_0@ == be_bytes(payload@.len(), width as nat) + payload@,
{
    let mut codec = LengthDelimitedCodec::builder().length_field_length(width).new_codec();
    let mut dst = BytesMut::new();
    tokio_util::codec::Encoder::<&[u8]>::encode(&mut codec, payload, &mut dst).map(|()| dst.to_vec())
}

/// What a length-delimited codec with a `w`-byte length field makes of
/// `buf`: `None` for an error, `Some(None)` while the length field or the
/// payload it announces is not all there, and otherwise the payload with the
/// bytes after it.
pub open spec fn codec_split(w: nat, buf: Seq<u8>) -> Option<Option<(Seq<u8>, Seq<u8>)>> {
    if buf.len() < w {
        Some(None)
    } else {
        let n = be_value(buf.take(w as int));
        if n > codec_max_frame(w) {
            None
        } else if buf.len() < w + n {
            Some(None)
        } else {
            Some(Some((buf.subrange(w as int, (w + n) as int), buf.skip((w + n) as int))))
        }
    }
}

/// Relies on tokio_util's LengthDelimitedCodec, freshly built with a
/// `width`-byte length field and otherwise default settings, decoding from
/// `buf` once: nothing until the length field and the payload it announces
/// are all there, then the payload and the bytes after it; an error for an
/// announced length above the codec's largest frame.
#[verifier::external_body]
fn codec_decode(width: usize, buf: &[u8]) -> (r: Result<Option<(Vec<u8>, Vec<u8>)>, std::io::Error>)
    requires
        1 <= width <= 8,
    ensures
        match codec_split(width as nat, buf@) {
            None => r is Err,
            Some(None) => r matches Ok(None),
            Some(Some((p, rest))) => r matches Ok(Some((f, t))) && f@ == p && t@ == rest,
        },
{
    let mut codec = LengthDelimitedCodec::builder().length_field_length(width).new_codec();
    let mut src = BytesMut::from(buf);
    let frame = tokio_util::codec::Decoder::decode(&mut codec, &mut src)?;
    Ok(frame.map(|f| (f.to_vec(), src.to_vec())))
}

/// Why a frame could not be made or read.
#[derive(Debug, Clone, Copy, PartialEq, Eq, Structural)]
pub enum FrameError {
    /// The payload is longer than the length field can count.
    TooLarge,
    /// The buffer does not hold a whole frame yet: more input is needed.
    Incomplete,
    /// The stream ended inside a frame.
    Truncated,
}

/// The frame that carries `p`: its length in two bytes, big-endian, then `p`.
pub open spec fn frame_of(p: Seq<u8>) -> Seq<u8> {
    seq![(p.len() / 256) as u8, (p.len() % 256) as u8] + p
}

/// The frame at the front of `buf`: its payload and the bytes after it, or
/// `None` while the buffer holds no whole frame.
pub open spec fn split_frame(buf: Seq<u8>) -> Option<(Seq<u8>, Seq<u8>)> {
    if buf.len() < 2 {
        None
    } else {
        let n = buf[0] as int * 256 + buf[1] as int;
        if buf.len() < 2 + n {
            None
        } else {
            Some((buf.subrange(2, 2 + n), buf.skip(2 + n)))
        }
    }
}

proof fn lemma_two_byte_codec()
    ensures
        codec_max_frame(LENGTH_FIELD_LEN as nat) == MAX_FRAME_LEN,
        forall|n: nat| n <= MAX_FRAME_LEN ==> #[trigger] be_bytes(n, 2) == seq![(n / 256) as u8, (n % 256) as u8],
        forall|b: Seq<u8>| b.len() == 2 ==> #[trigger] be_value(b) == b[0] as nat * 256 + b[1] as nat,
{
    reveal_with_fuel(pow256, 3);
    reveal_with_fuel(be_bytes, 3);
    reveal_with_fuel(be_value, 3);
    assert forall|n: nat| n <= MAX_FRAME_LEN implies #[trigger] be_bytes(n, 2) == seq![(n / 256) as u8, (n % 256) as u8] by {
        assert((n / 256) / 256 == 0);
        assert((n / 256) % 256 == n / 256);
        assert(be_bytes(n, 2) =~= seq![(n / 256) as u8, (n % 256) as u8]);
    }
    assert forall|b: Seq<u8>| b.len() == 2 implies #[trigger] be_value(b) == b[0] as nat * 256 + b[1] as nat by {
        assert(b.drop_last().drop_last().len() == 0);
        assert(b.drop_last().last() == b[0]);
    }
}

/// Wraps `payload` in a frame; refuses a payload longer than the length field
/// can count.
pub fn encode_frame(payload: &[u8]) -> (r: Result<Vec<u8>, FrameError>)
    ensures
        r is Ok <==> payload@.len() <= MAX_FRAME_LEN,
        r matches Ok(f) ==> f@ == frame_of(payload@),
        r matches Err(e) ==> e == FrameError::TooLarge,
{
    proof {
        lemma_two_byte_codec();
    }
    match codec_encode(LENGTH_FIELD_LEN, payload) {
        Ok(f) => {
            proof {
                assert(f@ =~= frame_of(payload@));
            }
            Ok(f)
        },
        Err(_) => Err(FrameError::TooLarge),
    }
}

/// Takes the first frame off `buf`: its payload and the bytes after it, or
/// `Incomplete` while `buf` holds no whole frame.
pub fn decode_frame(buf: &[u8]) -> (r: Result<(Vec<u8>, Vec<u8>), FrameError>)
    ensures
        match split_frame(buf@) {
            Some((p, rest)) => r matches Ok((f, t)) && f@ == p && t@ == rest,
            None => r == Err::<(Vec<u8>, Vec<u8>), FrameError>(FrameError::Incomplete),
        },
{
    proof {
        lemma_two_byte_codec();
        if buf@.len() >= 2 {
            assert(be_value(buf@.take(2)) == buf@[0] as nat * 256 + buf@[1] as nat);
        }
    }
    match codec_decode(LENGTH_FIELD_LEN, buf) {
        Ok(Some(ft)) => Ok(ft),
        _ => Err(FrameError::Incomplete),
    }
}

/// Takes the first frame off what is left of a stream that has ended:
/// nothing when nothing is left, and `Truncated` when the stream ended inside
/// a frame.
pub fn decode_last_frame(buf: &[u8]) -> (r: Result<Option<(Vec<u8>, Vec<u8>)>, FrameError>)
    ensures
        buf@.len() == 0 ==> r == Ok::<_, FrameError>(None::<(Vec<u8>, Vec<u8>)>),
        buf@.len() > 0 ==> match split_frame(buf@) {
            Some((p, rest)) => r matches Ok(Some((f, t))) && f@ == p && t@ == rest,
            None => r == Err::<Option<(Vec<u8>, Vec<u8>)>, FrameError>(FrameError::Truncated),
        },
{
    if buf.len() == 0 {
        return Ok(None);
    }
    match decode_frame(buf) {
        Ok(ft) => Ok(Some(ft)),
        Err(_) => Err(FrameError::Truncated),
    }
}

/// A frame read back gives the payload it was made from, and leaves what
/// followed it untouched; a payload too long for the length field makes no
/// frame.
pub proof fn lemma_frame_round_trip(p: Seq<u8>, rest: Seq<u8>)
    requires
        p.len() <= MAX_FRAME_LEN,
    ensures
        split_frame(frame_of(p) + rest) == Some((p, rest)),
{
    let b = frame_of(p) + rest;
    let n = p.len() as int;
    assert(b[0] as int * 256 + b[1] as int == n);
    assert(b.subrange(2, 2 + n) =~= p);
    assert(b.skip(2 + n) =~= rest);
}

} // verus!
