//! Big-endian integers on the wire.

use crate::error::{FelgensError, FelgensResult};
use scroll::Pread;
use vstd::prelude::*;
use vstd::slice::slice_to_vec;

verus! {

/// The 16-bit value whose big-endian encoding starts at `at` in `bytes`.
pub open spec fn be_u16_at(bytes: Seq<u8>, at: int) -> u16
    recommends
        0 <= at,
        at + 2 <= bytes.len(),
{
    (bytes[at] as int * 0x100 + bytes[at + 1] as int) as u16
}

/// The 32-bit value whose big-endian encoding starts at `at` in `bytes`.
pub open spec fn be_u32_at(bytes: Seq<u8>, at: int) -> u32
    recommends
        0 <= at,
        at + 4 <= bytes.len(),
{
    (bytes[at] as int * 0x100_0000 + bytes[at + 1] as int * 0x1_0000 + bytes[at + 2] as int * 0x100
        + bytes[at + 3] as int) as u32
}

/// The two bytes of `v`, most significant first.
pub open spec fn u16_be_bytes(v: u16) -> Seq<u8> {
    seq![(v / 0x100) as u8, (v % 0x100) as u8]
}

/// The four bytes of `v`, most significant first.
pub open spec fn u32_be_bytes(v: u32) -> Seq<u8> {
    seq![
        (v / 0x100_0000) as u8,
        (v / 0x1_0000 % 0x100) as u8,
        (v / 0x100 % 0x100) as u8,
        (v % 0x100) as u8,
    ]
}

/// `buffer` with the four bytes from `start` on replaced by `val`, most
/// significant byte first.
pub open spec fn with_u32_at(buffer: Seq<u8>, start: int, val: u32) -> Seq<u8>
    recommends
        0 <= start,
        start + 4 <= buffer.len(),
{
    buffer.subrange(0, start) + u32_be_bytes(val) + buffer.subrange(start + 4, buffer.len() as int)
}

/// Reading back what was written gives the value, wherever it stands.
pub proof fn lemma_u32_be_round_trip(prefix: Seq<u8>, v: u32, suffix: Seq<u8>)
    ensures
        be_u32_at(prefix + u32_be_bytes(v) + suffix, prefix.len() as int) == v,
{
    let all = prefix + u32_be_bytes(v) + suffix;
    let at = prefix.len() as int;
    assert(all[at] == u32_be_bytes(v)[0]);
    assert(all[at + 1] == u32_be_bytes(v)[1]);
    assert(all[at + 2] == u32_be_bytes(v)[2]);
    assert(all[at + 3] == u32_be_bytes(v)[3]);
}

/// Reading back what was written gives the value, wherever it stands.
pub proof fn lemma_u16_be_round_trip(prefix: Seq<u8>, v: u16, suffix: Seq<u8>)
    ensures
        be_u16_at(prefix + u16_be_bytes(v) + suffix, prefix.len() as int) == v,
{
    let all = prefix + u16_be_bytes(v) + suffix;
    let at = prefix.len() as int;
    assert(all[at] == u16_be_bytes(v)[0]);
    assert(all[at + 1] == u16_be_bytes(v)[1]);
}

/// The digits of a number written in base 256 are found again by division.
proof fn lemma_base_256_digits(b0: int, b1: int, b2: int, b3: int)
    requires
        0 <= b0 < 0x100,
        0 <= b1 < 0x100,
        0 <= b2 < 0x100,
        0 <= b3 < 0x100,
    ensures
        ({
            let v = b0 * 0x100_0000 + b1 * 0x1_0000 + b2 * 0x100 + b3;
            &&& 0 <= v <= u32::MAX
            &&& v / 0x100_0000 == b0
            &&& v / 0x1_0000 % 0x100 == b1
            &&& v / 0x100 % 0x100 == b2
            &&& v % 0x100 == b3
        }),
{
    let v = b0 * 0x100_0000 + b1 * 0x1_0000 + b2 * 0x100 + b3;
    assert(v / 0x100_0000 == b0);
    assert(v / 0x1_0000 == b0 * 0x100 + b1);
    assert(v / 0x100 == b0 * 0x1_0000 + b1 * 0x100 + b2);
}

/// Writing what was read changes nothing: the encoding is unique.
pub proof fn lemma_u32_be_bytes_of_read(bytes: Seq<u8>, at: int)
    requires
        0 <= at,
        at + 4 <= bytes.len(),
    ensures
        u32_be_bytes(be_u32_at(bytes, at)) == bytes.subrange(at, at + 4),
{
    lemma_base_256_digits(
        bytes[at] as int,
        bytes[at + 1] as int,
        bytes[at + 2] as int,
        bytes[at + 3] as int,
    );
    assert(u32_be_bytes(be_u32_at(bytes, at)) =~= bytes.subrange(at, at + 4));
}

/// Writing what was read changes nothing: the encoding is unique.
pub proof fn lemma_u16_be_bytes_of_read(bytes: Seq<u8>, at: int)
    requires
        0 <= at,
        at + 2 <= bytes.len(),
    ensures
        u16_be_bytes(be_u16_at(bytes, at)) == bytes.subrange(at, at + 2),
{
    let b0 = bytes[at] as int;
    let b1 = bytes[at + 1] as int;
    assert((b0 * 0x100 + b1) / 0x100 == b0);
    assert(u16_be_bytes(be_u16_at(bytes, at)) =~= bytes.subrange(at, at + 2));
}

#[verifier::external_type_specification]
#[verifier::external_body]
pub struct ExScrollError(scroll::Error);

/// `pread_with::<u16>` of scroll, on a byte slice in big-endian order.
///
/// Trusted: the read succeeds exactly when two bytes lie at `offset` inside
/// `bytes`, and then yields the value that those two bytes encode, most
/// significant first. Any other offset is an error, never a panic.
#[verifier::external_body]
fn pread_u16_be(bytes: &[u8], offset: usize) -> (r: Result<u16, scroll::Error>)
    ensures
        r is Ok <==> offset + 2 <= bytes@.len(),
        r matches Ok(v) ==> v == be_u16_at(bytes@, offset as int),
{
    bytes.pread_with::<u16>(offset, scroll::BE)
}

/// `pread_with::<u32>` of scroll, on a byte slice in big-endian order.
///
/// Trusted: the read succeeds exactly when four bytes lie at `offset` inside
/// `bytes`, and then yields the value that those four bytes encode, most
/// significant first. Any other offset is an error, never a panic.
#[verifier::external_body]
fn pread_u32_be(bytes: &[u8], offset: usize) -> (r: Result<u32, scroll::Error>)
    ensures
        r is Ok <==> offset + 4 <= bytes@.len(),
        r matches Ok(v) ==> v == be_u32_at(bytes@, offset as int),
{
    bytes.pread_with::<u32>(offset, scroll::BE)
}

/// Reads the big-endian `u16` at `offset`; `Truncated` when `bytes` ends
/// before `offset + 2`.
pub fn read_u16(bytes: &[u8], offset: usize) -> (r: FelgensResult<u16>)
    ensures
        offset + 2 <= bytes@.len() ==> r == Ok::<u16, FelgensError>(be_u16_at(bytes@, offset as int)),
        offset + 2 > bytes@.len() ==> r == Err::<u16, FelgensError>(FelgensError::Truncated),
{
    match pread_u16_be(bytes, offset) {
        Ok(v) => Ok(v),
        Err(_) => Err(FelgensError::Truncated),
    }
}

/// Reads the big-endian `u32` at `offset`; `Truncated` when `bytes` ends
/// before `offset + 4`.
pub fn read_u32(bytes: &[u8], offset: usize) -> (r: FelgensResult<u32>)
    ensures
        offset + 4 <= bytes@.len() ==> r == Ok::<u32, FelgensError>(be_u32_at(bytes@, offset as int)),
        offset + 4 > bytes@.len() ==> r == Err::<u32, FelgensError>(FelgensError::Truncated),
{
    match pread_u32_be(bytes, offset) {
        Ok(v) => Ok(v),
        Err(_) => Err(FelgensError::Truncated),
    }
}

/// Copies `buffer` and overwrites four bytes of the copy, from `start` on,
/// with `val` in big-endian order.
pub fn write_int(buffer: &[u8], start: usize, val: u32) -> (out: Vec<u8>)
    requires
        start + 4 <= buffer@.len(),
    ensures
        out@ == with_u32_at(buffer@, start as int, val),
        out@.len() == buffer@.len(),
        be_u32_at(out@, start as int) == val,
{
    let val_bytes: [u8; 4] = [
        (val / 0x100_0000) as u8,
        (val / 0x1_0000 % 0x100) as u8,
        (val / 0x100 % 0x100) as u8,
        (val % 0x100) as u8,
    ];
    let mut buf = slice_to_vec(buffer);
    let mut i: usize = 0;
    while i < 4
        invariant
            i <= 4,
            start + 4 <= buf.len(),
            buf@.len() == buffer@.len(),
            val_bytes@ == u32_be_bytes(val),
            forall|k: int| 0 <= k < buf@.len() && !(start <= k < start + i) ==> buf@[k] == buffer@[k],
            forall|k: int| 0 <= k < i ==> buf@[start + k] == val_bytes@[k],
        decreases 4 - i,
    {
        buf.set(start + i, val_bytes[i]);
        i = i + 1;
    }
    proof {
        assert(buf@ =~= with_u32_at(buffer@, start as int, val));
        lemma_u32_be_round_trip(
            buffer@.subrange(0, start as int),
            val,
            buffer@.subrange(start + 4, buffer@.len() as int),
        );
    }
    buf
}

} // verus!
