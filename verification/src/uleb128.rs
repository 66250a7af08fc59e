//! Variable-length lengths: unsigned little-endian base 128.
//!
//! Each byte carries seven bits of the number, lowest first; its high bit says
//! that another byte follows.

use vstd::prelude::*;
use crate::error::FormatError;

verus! {

/// The longest chain of bytes that a reader follows.
pub const MAX_BYTES: usize = 5;

/// The largest length that a reader accepts: `2^31 - 1`.
pub const MAX_LENGTH: usize = 0x7fff_ffff;

/// The encoding of `n`: as few bytes as hold it.
pub open spec fn encode(n: nat) -> Seq<u8>
    decreases n,
{
    if n < 128 {
        seq![n as u8]
    } else {
        seq![(n % 128 + 128) as u8] + encode(n / 128)
    }
}

/// Following a chain of at most `limit` bytes from the front of `bytes`: the
/// number and how many bytes it took.
pub open spec fn decode_chain(bytes: Seq<u8>, limit: nat) -> Result<(nat, nat), FormatError>
    decreases limit,
{
    if limit == 0 {
        Err(FormatError::LengthOverflow)
    } else if bytes.len() == 0 {
        Err(FormatError::UnexpectedEof)
    } else if bytes[0] < 128 {
        Ok((bytes[0] as nat, 1nat))
    } else {
        match decode_chain(bytes.skip(1), (limit - 1) as nat) {
            Ok((high, used)) => Ok(((bytes[0] - 128) as nat + 128 * high, used + 1)),
            Err(e) => Err(e),
        }
    }
}

/// Reading a length from the front of `bytes`: the length and how many bytes
/// it took.
pub open spec fn decode(bytes: Seq<u8>) -> Result<(nat, nat), FormatError> {
    match decode_chain(bytes, MAX_BYTES as nat) {
        Ok((n, used)) => if n > MAX_LENGTH {
            Err(FormatError::LengthOverflow)
        } else {
            Ok((n, used))
        },
        Err(e) => Err(e),
    }
}

/// A length that a reader accepts is written in at most five bytes.
pub proof fn lemma_encode_len(n: nat)
    requires
        n <= MAX_LENGTH,
    ensures
        1 <= encode(n).len() <= MAX_BYTES,
{
    reveal_with_fuel(encode, 6);
}

/// A chain that is long enough for `n` decodes `encode(n)` to `n`, whatever
/// follows it.
pub proof fn lemma_chain_roundtrip(n: nat, limit: nat, rest: Seq<u8>)
    requires
        encode(n).len() <= limit,
    ensures
        decode_chain(encode(n) + rest, limit) == Ok::<(nat, nat), FormatError>(
            (n, encode(n).len()),
        ),
    decreases n,
{
    let bytes = encode(n) + rest;
    if n < 128 {
        assert(bytes[0] == n as u8);
    } else {
        let tail = encode(n / 128);
        assert(bytes[0] == (n % 128 + 128) as u8);
        assert(bytes.skip(1) =~= tail + rest);
        lemma_chain_roundtrip(n / 128, (limit - 1) as nat, rest);
    }
}

/// A length that a reader accepts decodes to itself, whatever follows it.
pub proof fn lemma_roundtrip(n: nat, rest: Seq<u8>)
    requires
        n <= MAX_LENGTH,
    ensures
        decode(encode(n) + rest) == Ok::<(nat, nat), FormatError>((n, encode(n).len())),
{
    lemma_encode_len(n);
    lemma_chain_roundtrip(n, MAX_BYTES as nat, rest);
}

/// Appends the encoding of `n` to `sink`.
pub fn write(n: usize, sink: &mut Vec<u8>)
    ensures
        final(sink)@ == old(sink)@ + encode(n as nat),
{
    let mut left: usize = n;
    while left >= 128
        invariant
            sink@ + encode(left as nat) == old(sink)@ + encode(n as nat),
        decreases left,
    {
        let ghost before = sink@;
        sink.push((left % 128 + 128) as u8);
        assert(sink@ + encode((left / 128) as nat) =~= before + encode(left as nat));
        left = left / 128;
    }
    let ghost before = sink@;
    sink.push(left as u8);
    assert(sink@ =~= before + encode(left as nat));
}

/// Reads a length from the front of `bytes`: the length and how many bytes it
/// took.
pub fn read(bytes: &[u8]) -> (r: Result<(usize, usize), FormatError>)
    ensures
        match r {
            Ok((n, used)) => decode(bytes@) == Ok::<(nat, nat), FormatError>(
                (n as nat, used as nat),
            ) && 1 <= used <= MAX_BYTES && used <= bytes@.len(),
            Err(e) => decode(bytes@) == Err::<(nat, nat), FormatError>(e),
        },
{
    assert(bytes@.skip(0) =~= bytes@);
    match read_chain(bytes, 0, MAX_BYTES) {
        Ok((n, used)) => {
            if n > MAX_LENGTH as u64 {
                Err(FormatError::LengthOverflow)
            } else {
                Ok((n as usize, used))
            }
        },
        Err(e) => Err(e),
    }
}

/// Follows the chain that starts at `pos`, over at most `limit` bytes.
fn read_chain(bytes: &[u8], pos: usize, limit: usize) -> (r: Result<(u64, usize), FormatError>)
    requires
        pos <= bytes@.len(),
        limit <= MAX_BYTES,
    ensures
        match r {
            Ok((n, used)) => decode_chain(bytes@.skip(pos as int), limit as nat) == Ok::<
                (nat, nat),
                FormatError,
            >((n as nat, used as nat)) && 1 <= used <= limit && pos + used <= bytes@.len()
                && n < pow128(used as nat),
            Err(e) => decode_chain(bytes@.skip(pos as int), limit as nat) == Err::<
                (nat, nat),
                FormatError,
            >(e),
        },
    decreases limit,
{
    if limit == 0 {
        return Err(FormatError::LengthOverflow);
    }
    if pos >= bytes.len() {
        return Err(FormatError::UnexpectedEof);
    }
    let b: u8 = bytes[pos];
    assert(bytes@.skip(pos as int)[0] == b);
    if b < 128 {
        assert(pow128(1) == 128) by {
            reveal_with_fuel(pow128, 2);
        }
        return Ok((b as u64, 1));
    }
    assert(bytes@.skip(pos as int).skip(1) =~= bytes@.skip(pos + 1));
    match read_chain(bytes, pos + 1, limit - 1) {
        Ok((high, used)) => {
            proof {
                lemma_pow128_bound(used as nat);
                reveal_with_fuel(pow128, 2);
            }
            Ok(((b - 128) as u64 + 128 * high, used + 1))
        },
        Err(e) => Err(e),
    }
}

/// `128^k`.
spec fn pow128(k: nat) -> nat
    decreases k,
{
    if k == 0 {
        1
    } else {
        128 * pow128((k - 1) as nat)
    }
}

/// Chains of at most five bytes stay below `2^35`.
proof fn lemma_pow128_bound(k: nat)
    requires
        k <= MAX_BYTES,
    ensures
        pow128(k) <= 0x8_0000_0000,
{
    reveal_with_fuel(pow128, 6);
}

} // verus!
