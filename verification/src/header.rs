//! The fixed 16-byte frame header.

use crate::error::{FelgensError, FelgensResult};
use crate::wire::{
    be_u16_at, be_u32_at, lemma_u16_be_bytes_of_read, lemma_u16_be_round_trip,
    lemma_u32_be_bytes_of_read, lemma_u32_be_round_trip, read_u16, read_u32, u16_be_bytes,
    u32_be_bytes, write_int,
};
use vstd::prelude::*;

verus! {

/// Length of a frame header on the wire.
pub const HEADER_LEN: usize = 16;

/// What the body of a frame holds, as told by the header's version tag.
#[derive(Debug, Clone, Copy, PartialEq, Eq, Structural)]
pub enum VersionTag {
    /// Tag 0: UTF-8 text, possibly followed by further sub-frames.
    PlainText,
    /// Tag 1: one big-endian popularity counter.
    HotCount,
    /// Tag 2: a zlib stream that holds a frame.
    Zlib,
    /// Tag 3: a brotli stream that holds a frame.
    Brotli,
    /// Any other tag, kept as it was read.
    Unrecognized(u16),
}

impl VersionTag {
    /// The meaning of a raw tag.
    pub open spec fn of(raw: u16) -> VersionTag {
        if raw == 0 {
            VersionTag::PlainText
        } else if raw == 1 {
            VersionTag::HotCount
        } else if raw == 2 {
            VersionTag::Zlib
        } else if raw == 3 {
            VersionTag::Brotli
        } else {
            VersionTag::Unrecognized(raw)
        }
    }

    /// Whether a body with this tag has to be decompressed before it is read.
    pub open spec fn compressed(self) -> bool {
        self is Zlib || self is Brotli
    }

    /// Classifies a raw tag.
    pub fn from_raw(raw: u16) -> (tag: VersionTag)
        ensures
            tag == VersionTag::of(raw),
    {
        match raw {
            0 => VersionTag::PlainText,
            1 => VersionTag::HotCount,
            2 => VersionTag::Zlib,
            3 => VersionTag::Brotli,
            other => VersionTag::Unrecognized(other),
        }
    }

    /// Whether a body with this tag has to be decompressed before it is read.
    pub fn is_compressed(&self) -> (yes: bool)
        ensures
            yes == self.compressed(),
    {
        match self {
            VersionTag::Zlib => true,
            VersionTag::Brotli => true,
            _ => false,
        }
    }
}

/// The five fields of a frame header, in wire order.
#[derive(Debug, Clone, Copy, PartialEq, Eq, Structural)]
pub struct BilibiliPackHeader {
    /// Length of the whole frame, header included.
    pub pack_len: u32,
    /// Length of the header itself; 16 in every frame this library writes.
    pub header_len: u16,
    /// Raw version tag.
    pub ver: u16,
    /// Operation code, passed through unexamined.
    pub op: u32,
    /// Sequence number, passed through unexamined.
    pub seq: u32,
}

/// A parsed header together with the bytes that follow it.
pub type BilibiliPackCtx<'a> = (BilibiliPackHeader, &'a [u8]);

impl BilibiliPackHeader {
    /// The meaning of this header's version tag.
    pub open spec fn tag(self) -> VersionTag {
        VersionTag::of(self.ver)
    }

    /// The length that this header declares for the body: `pack_len - 16`,
    /// negative where the declared frame is shorter than a header.
    pub open spec fn body_len(self) -> int {
        self.pack_len as int - HEADER_LEN as int
    }

    /// Classifies this header's version tag.
    pub fn version(&self) -> (tag: VersionTag)
        ensures
            tag == self.tag(),
    {
        VersionTag::from_raw(self.ver)
    }
}

/// The header whose encoding starts at `at` in `bytes`.
pub open spec fn header_at(bytes: Seq<u8>, at: int) -> BilibiliPackHeader
    recommends
        0 <= at,
        at + HEADER_LEN <= bytes.len(),
{
    BilibiliPackHeader {
        pack_len: be_u32_at(bytes, at),
        header_len: be_u16_at(bytes, at + 4),
        ver: be_u16_at(bytes, at + 6),
        op: be_u32_at(bytes, at + 8),
        seq: be_u32_at(bytes, at + 12),
    }
}

/// The 16 bytes that encode `h`.
pub open spec fn header_bytes(h: BilibiliPackHeader) -> Seq<u8> {
    u32_be_bytes(h.pack_len) + u16_be_bytes(h.header_len) + u16_be_bytes(h.ver) + u32_be_bytes(h.op)
        + u32_be_bytes(h.seq)
}

/// What parsing a frame gives: the header and the bytes behind it, or
/// `Truncated` when the buffer cannot hold a header.
pub open spec fn parsed(buffer: Seq<u8>) -> FelgensResult<(BilibiliPackHeader, Seq<u8>)> {
    if buffer.len() < HEADER_LEN {
        Err(FelgensError::Truncated)
    } else {
        Ok((header_at(buffer, 0), buffer.subrange(HEADER_LEN as int, buffer.len() as int)))
    }
}

/// A header is read back from its own encoding, whatever stands around it.
pub proof fn lemma_header_round_trip(prefix: Seq<u8>, h: BilibiliPackHeader, suffix: Seq<u8>)
    ensures
        header_bytes(h).len() == HEADER_LEN,
        header_at(prefix + header_bytes(h) + suffix, prefix.len() as int) == h,
{
    let all = prefix + header_bytes(h) + suffix;
    let at = prefix.len() as int;
    let f0 = u32_be_bytes(h.pack_len);
    let f1 = u16_be_bytes(h.header_len);
    let f2 = u16_be_bytes(h.ver);
    let f3 = u32_be_bytes(h.op);
    let f4 = u32_be_bytes(h.seq);
    assert(all =~= prefix + f0 + (f1 + f2 + f3 + f4 + suffix));
    lemma_u32_be_round_trip(prefix, h.pack_len, f1 + f2 + f3 + f4 + suffix);
    assert(all =~= (prefix + f0) + f1 + (f2 + f3 + f4 + suffix));
    lemma_u16_be_round_trip(prefix + f0, h.header_len, f2 + f3 + f4 + suffix);
    assert(all =~= (prefix + f0 + f1) + f2 + (f3 + f4 + suffix));
    lemma_u16_be_round_trip(prefix + f0 + f1, h.ver, f3 + f4 + suffix);
    assert(all =~= (prefix + f0 + f1 + f2) + f3 + (f4 + suffix));
    lemma_u32_be_round_trip(prefix + f0 + f1 + f2, h.op, f4 + suffix);
    assert(all =~= (prefix + f0 + f1 + f2 + f3) + f4 + suffix);
    lemma_u32_be_round_trip(prefix + f0 + f1 + f2 + f3, h.seq, suffix);
}

/// Encoding the header that was read at `at` gives the 16 bytes that stand
/// there: no two headers share an encoding.
pub proof fn lemma_header_bytes_of_read(bytes: Seq<u8>, at: int)
    requires
        0 <= at,
        at + HEADER_LEN <= bytes.len(),
    ensures
        header_bytes(header_at(bytes, at)) == bytes.subrange(at, at + HEADER_LEN),
{
    lemma_u32_be_bytes_of_read(bytes, at);
    lemma_u16_be_bytes_of_read(bytes, at + 4);
    lemma_u16_be_bytes_of_read(bytes, at + 6);
    lemma_u32_be_bytes_of_read(bytes, at + 8);
    lemma_u32_be_bytes_of_read(bytes, at + 12);
    assert(header_bytes(header_at(bytes, at)) =~= bytes.subrange(at, at + 4) + bytes.subrange(
        at + 4,
        at + 6,
    ) + bytes.subrange(at + 6, at + 8) + bytes.subrange(at + 8, at + 12) + bytes.subrange(
        at + 12,
        at + 16,
    ));
    assert(header_bytes(header_at(bytes, at)) =~= bytes.subrange(at, at + HEADER_LEN));
}

/// Parses the header at the start of `buffer` and hands back the bytes that
/// follow it. The declared `pack_len` is not held against the buffer here.
pub fn pack(buffer: &[u8]) -> (r: FelgensResult<BilibiliPackCtx<'_>>)
    ensures
        match r {
            Ok((header, rest)) => parsed(buffer@) == Ok::<_, FelgensError>((header, rest@)),
            Err(e) => parsed(buffer@) == Err::<(BilibiliPackHeader, Seq<u8>), _>(e),
        },
        r is Err <==> buffer@.len() < HEADER_LEN,
{
    let pack_len = read_u32(buffer, 0)?;
    let header_len = read_u16(buffer, 4)?;
    let ver = read_u16(buffer, 6)?;
    let op = read_u32(buffer, 8)?;
    let seq = read_u32(buffer, 12)?;
    let data = BilibiliPackHeader { pack_len, header_len, ver, op, seq };
    let buf = &buffer[16..buffer.len()];
    Ok((data, buf))
}

/// Encodes a header with the given fields and `header_len` 16.
pub fn write_header(total_length: u32, version_tag: u16, operation_code: u32, sequence_id: u32) -> (out: Vec<u8>)
    ensures
        out@ == header_bytes(
            BilibiliPackHeader {
                pack_len: total_length,
                header_len: 16,
                ver: version_tag,
                op: operation_code,
                seq: sequence_id,
            },
        ),
        out@.len() == HEADER_LEN,
{
    let blank: [u8; 16] = [
        0,
        0,
        0,
        0,
        0,
        16,
        (version_tag / 0x100) as u8,
        (version_tag % 0x100) as u8,
        0,
        0,
        0,
        0,
        0,
        0,
        0,
        0,
    ];
    let with_len = write_int(blank.as_slice(), 0, total_length);
    let with_op = write_int(with_len.as_slice(), 8, operation_code);
    let out = write_int(with_op.as_slice(), 12, sequence_id);
    proof {
        let h = BilibiliPackHeader {
            pack_len: total_length,
            header_len: 16,
            ver: version_tag,
            op: operation_code,
            seq: sequence_id,
        };
        assert(out@ =~= header_bytes(h));
    }
    out
}

} // verus!
