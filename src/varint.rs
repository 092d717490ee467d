//! Varints: numbers in base-128 digits, least significant first.
use vstd::prelude::*;

verus! {

/// The base-128 digits of `v`, least significant first, each but the last
/// carrying the continuation bit.
pub open spec fn varint(v: nat) -> Seq<u8>
    decreases v,
{
    if v < 128 {
        seq![v as u8]
    } else {
        seq![(v % 128 + 128) as u8] + varint(v / 128)
    }
}

/// `128` raised to the power `k`.
pub open spec fn pow128(k: nat) -> nat
    decreases k,
{
    if k == 0 {
        1
    } else {
        128 * pow128((k - 1) as nat)
    }
}

/// Reads a base-128 number from the front of `b`, taking at most `k` bytes:
/// its value and the number of bytes it spans, or `None` if no byte below
/// `0x80` ends it within reach.
pub open spec fn leb128(b: Seq<u8>, k: nat) -> Option<(nat, nat)>
    decreases k,
{
    if k == 0 || b.len() == 0 {
        None
    } else if b[0] < 128 {
        Some((b[0] as nat, 1nat))
    } else {
        match leb128(b.drop_first(), (k - 1) as nat) {
            Some((v, n)) => Some(((b[0] - 128) as nat + 128 * v, n + 1)),
            None => None,
        }
    }
}

/// The varint at the front of `b`, with the number of bytes it spans: at
/// most ten bytes, the tenth of which may only be `0` or `1` so that the
/// value fits in 64 bits.
pub open spec fn parse_varint(b: Seq<u8>) -> Option<(u64, nat)> {
    match leb128(b, 10) {
        Some((v, n)) => if n == 10 && b[9] >= 2 {
            None
        } else {
            Some((v as u64, n))
        },
        None => None,
    }
}

/// Relies on prost::encoding::encode_varint: appends the base-128 digits of
/// `v`, least significant first, with the high bit set on all but the last.
#[verifier::external_body]
pub(crate) fn put_varint(buf: &mut Vec<u8>, v: u64)
    ensures
        final(buf)@ == old(buf)@ + varint(v as nat),
{
    prost::encoding::encode_varint(v, buf)
}

/// Relies on prost::encoding::decode_varint, reading from a slice: the value
/// of the varint at the front of `b`, and how many bytes of `b` follow it.
#[verifier::external_body]
pub(crate) fn read_varint(b: &[u8]) -> (r: Option<(u64, usize)>)
    ensures
        match parse_varint(b@) {
            Some((v, n)) => r == Some((v, (b@.len() - n) as usize)),
            None => r is None,
        },
{
    let mut rest = b;
    match prost::encoding::decode_varint(&mut rest) {
        Ok(v) => Some((v, rest.len())),
        Err(_) => None,
    }
}

proof fn lemma_leb128_len(b: Seq<u8>, k: nat)
    ensures
        leb128(b, k) matches Some((v, n)) ==> 1 <= n <= b.len() && n <= k,
    decreases k,
{
    if k > 0 && b.len() > 0 && b[0] >= 128 {
        lemma_leb128_len(b.drop_first(), (k - 1) as nat);
    }
}

/// A varint spans at least one byte and no more than the bytes there are.
pub proof fn lemma_parse_varint_len(b: Seq<u8>)
    ensures
        parse_varint(b) matches Some((v, n)) ==> 1 <= n <= b.len() && n <= 10,
{
    lemma_leb128_len(b, 10);
}

proof fn lemma_leb128_of_varint(v: nat, k: nat, rest: Seq<u8>)
    requires
        0 < k,
        v < pow128(k),
    ensures
        varint(v).len() <= k,
        leb128(varint(v) + rest, k) == Some((v, varint(v).len())),
    decreases v,
{
    let b = varint(v) + rest;
    if v < 128 {
        assert(b[0] == v as u8);
    } else {
        let k1 = (k - 1) as nat;
        if k == 1 {
            assert(pow128(1) == 128) by {
                reveal_with_fuel(pow128, 2);
            }
        }
        assert(v / 128 < pow128(k1)) by (nonlinear_arith)
            requires
                v < pow128(k),
                pow128(k) == 128 * pow128(k1),
        ;
        assert(v / 128 < v) by (nonlinear_arith)
            requires
                v >= 128,
        ;
        lemma_leb128_of_varint(v / 128, k1, rest);
        assert(b.drop_first() =~= varint(v / 128) + rest);
        assert(b[0] == (v % 128 + 128) as u8);
        assert((v % 128) + 128 * (v / 128) == v) by (nonlinear_arith);
    }
}

proof fn lemma_varint_last_byte(v: nat, j: nat)
    requires
        varint(v).len() == j + 1,
        v < 2 * pow128(j),
    ensures
        varint(v)[j as int] < 2,
    decreases j,
{
    if j == 0 {
        if v >= 128 {
            assert(varint(v / 128).len() >= 1);
        }
    } else {
        if v < 128 {
        } else {
            let j1 = (j - 1) as nat;
            assert(v / 128 < 2 * pow128(j1)) by (nonlinear_arith)
                requires
                    v < 2 * pow128(j),
                    pow128(j) == 128 * pow128(j1),
            ;
            lemma_varint_last_byte(v / 128, j1);
            assert(varint(v)[j as int] == varint(v / 128)[j1 as int]);
        }
    }
}

/// Reading back the varint of `v`, with anything after it, gives `v` and
/// stops where the varint ends.
pub proof fn lemma_varint_round_trip(v: u64, rest: Seq<u8>)
    ensures
        1 <= varint(v as nat).len() <= 10,
        parse_varint(varint(v as nat) + rest) == Some((v, varint(v as nat).len())),
{
    assert(pow128(9) == 0x8000_0000_0000_0000nat && pow128(10) == 0x4000_0000_0000_0000_00nat) by {
        reveal_with_fuel(pow128, 11);
    }
    lemma_leb128_of_varint(v as nat, 10, rest);
    let b = varint(v as nat) + rest;
    if varint(v as nat).len() == 10 {
        lemma_varint_last_byte(v as nat, 9);
        assert(b[9] == varint(v as nat)[9]);
    }
}

} // verus!
