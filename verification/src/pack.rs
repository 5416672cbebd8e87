//! Decoding a received buffer into its messages, and framing an outgoing
//! control message.

use crate::error::{FelgensError, FelgensResult};
use crate::header::{
    header_at, header_bytes, pack, parsed, write_header, BilibiliPackCtx, BilibiliPackHeader,
    VersionTag, HEADER_LEN,
};
use crate::inflate::{brotli_decode, brotli_inflated, reframed, zlib_decode, zlib_inflated};
use crate::text::{count_text, hot_count_text, message_text, text_of};
use crate::theorems::lemma_control_frame_parses;
use crate::wire::{be_u32_at, read_u32};
use vstd::prelude::*;
use vstd::slice::slice_to_vec;
use vstd::utf8::encode_utf8;

verus! {

/// The messages read so far, followed by what the rest of the body gives:
/// an error in the rest is the error of the whole.
pub open spec fn followed_by(done: Seq<Seq<char>>, rest: FelgensResult<Seq<Seq<char>>>) -> FelgensResult<
    Seq<Seq<char>>,
> {
    match rest {
        Ok(more) => Ok(done + more),
        Err(e) => Err(e),
    }
}

/// The messages of the sub-frames that fill `body` from `cursor` to its end.
///
/// Each sub-frame is a header and the `pack_len - 16` bytes behind it; the
/// next one starts `pack_len` bytes after the start of this one. The first
/// sub-frame that cannot be read decides the error: `Truncated` where fewer
/// than 16 bytes are left for its header, `OutOfBounds` where it declares less
/// than a header or more than is left, `InvalidUtf8` where its payload is no
/// text.
pub open spec fn sub_frames(body: Seq<u8>, cursor: int) -> FelgensResult<Seq<Seq<char>>>
    recommends
        0 <= cursor <= body.len(),
    decreases body.len() - cursor,
{
    if cursor >= body.len() {
        Ok(Seq::empty())
    } else if cursor + HEADER_LEN > body.len() {
        Err(FelgensError::Truncated)
    } else {
        let total = header_at(body, cursor).pack_len as int;
        if total < HEADER_LEN || cursor + total > body.len() {
            Err(FelgensError::OutOfBounds)
        } else {
            match text_of(body.subrange(cursor + HEADER_LEN, cursor + total)) {
                Err(e) => Err(e),
                Ok(text) => followed_by(seq![text], sub_frames(body, cursor + total)),
            }
        }
    }
}

/// The messages of a plain-text body whose frame has the header `header`.
///
/// The first message is the first `pack_len - 16` bytes of the body; behind
/// it the body holds whole sub-frames up to its end.
pub open spec fn split(header: BilibiliPackHeader, body: Seq<u8>) -> FelgensResult<Seq<Seq<char>>> {
    let first = header.body_len();
    if first < 0 || first > body.len() {
        Err(FelgensError::OutOfBounds)
    } else {
        match text_of(body.subrange(0, first)) {
            Err(e) => Err(e),
            Ok(text) => followed_by(seq![text], sub_frames(body, first)),
        }
    }
}

/// Splits a plain-text body into its messages, in the order in which their
/// frames stand in the body.
pub fn split_msgs(buf: Vec<u8>, header: BilibiliPackHeader) -> (r: FelgensResult<Vec<String>>)
    ensures
        match r {
            Ok(msgs) => split(header, buf@) == Ok::<_, FelgensError>(msgs.deep_view()),
            Err(e) => split(header, buf@) == Err::<Seq<Seq<char>>, _>(e),
        },
{
    let body = buf.as_slice();
    let buf_len = body.len();
    let mut msgs: Vec<String> = Vec::new();

    if header.pack_len < 16 {
        return Err(FelgensError::OutOfBounds);
    }
    let first = (header.pack_len - 16) as usize;
    if first > buf_len {
        return Err(FelgensError::OutOfBounds);
    }
    let text = message_text(&body[0..first])?;
    msgs.push(text);
    let mut offset = first;
    assert(msgs.deep_view() =~= seq![text@]);

    while offset != buf_len
        invariant
            body@ == buf@,
            buf_len == body@.len(),
            offset <= buf_len,
            split(header, body@) == followed_by(msgs.deep_view(), sub_frames(body@, offset as int)),
        decreases buf_len - offset,
    {
        let ghost before = msgs.deep_view();
        let ctx = pack(&body[offset..buf_len])?;
        let sub = ctx.0;
        let rest = ctx.1;
        assert(sub == header_at(body@, offset as int));
        if sub.pack_len < 16 {
            return Err(FelgensError::OutOfBounds);
        }
        let len = (sub.pack_len - 16) as usize;
        if len > rest.len() {
            return Err(FelgensError::OutOfBounds);
        }
        assert(rest@.subrange(0, len as int) =~= body@.subrange(
            offset + HEADER_LEN,
            offset + sub.pack_len,
        ));
        let text = message_text(&rest[0..len])?;
        msgs.push(text);
        offset = offset + 16 + len;
        proof {
            assert(msgs.deep_view() =~= before.push(text@));
            let tail = sub_frames(body@, offset as int);
            if let Ok(more) = tail {
                assert(before + (seq![text@] + more) =~= before.push(text@) + more);
            }
        }
    }
    assert(msgs.deep_view() + Seq::<Seq<char>>::empty() =~= msgs.deep_view());
    Ok(msgs)
}

/// How many compression layers are taken off one buffer at most.
///
/// Every layer is read from the outer body, so the frame found under a given
/// tag is always the same one: a buffer that has not shown a plain frame after
/// one round for each of the two compressed tags never shows one.
pub const MAX_LAYERS: u32 = 2;

/// What decompressing the outer body under the tag `ver` gives, where `zlib`
/// and `brotli` are what the body holds when read as either stream.
pub open spec fn inflated_by(ver: u16, zlib: Option<Seq<u8>>, brotli: Option<Seq<u8>>) -> Option<
    Seq<u8>,
> {
    if VersionTag::of(ver) is Zlib {
        zlib
    } else {
        brotli
    }
}

/// The frame that is reached from `(header, buf)` in at most `rounds` rounds.
///
/// A round happens while the tag says zlib or brotli. It decompresses the
/// outer body, not `buf`, by the current tag (so `zlib` and `brotli` stay the
/// same from round to round) and reads the result as a frame. A stream that
/// cannot be read ends the rounds with `DecompressionFailure`, one that holds
/// less than a header with `Truncated`.
pub open spec fn unwrapped(
    header: BilibiliPackHeader,
    buf: Seq<u8>,
    zlib: Option<Seq<u8>>,
    brotli: Option<Seq<u8>>,
    rounds: nat,
) -> FelgensResult<(BilibiliPackHeader, Seq<u8>)>
    decreases rounds,
{
    if rounds == 0 || !header.tag().compressed() {
        Ok((header, buf))
    } else {
        match reframed(inflated_by(header.ver, zlib, brotli)) {
            Err(e) => Err(e),
            Ok((inner, inner_buf)) => unwrapped(inner, inner_buf, zlib, brotli, (rounds - 1) as nat),
        }
    }
}

/// The messages of a frame that needs no decompression: the messages of a
/// plain-text body, the one rendered counter of a hot-count body (`Truncated`
/// where the body is shorter than the counter), and
/// `UnsupportedProtocolVersion` with the raw tag for every other tag.
pub open spec fn rendered(header: BilibiliPackHeader, buf: Seq<u8>) -> FelgensResult<Seq<Seq<char>>> {
    match header.tag() {
        VersionTag::PlainText => split(header, buf),
        VersionTag::HotCount => if buf.len() < 4 {
            Err(FelgensError::Truncated)
        } else {
            Ok(seq![count_text(be_u32_at(buf, 0))])
        },
        _ => Err(FelgensError::UnsupportedProtocolVersion(header.ver)),
    }
}

/// The messages of the frame `(header, body)`, where `zlib` and `brotli` are
/// what `body` holds when read as either stream.
pub open spec fn decoded(
    header: BilibiliPackHeader,
    body: Seq<u8>,
    zlib: Option<Seq<u8>>,
    brotli: Option<Seq<u8>>,
) -> FelgensResult<Seq<Seq<char>>> {
    match unwrapped(header, body, zlib, brotli, MAX_LAYERS as nat) {
        Err(e) => Err(e),
        Ok((last, buf)) => rendered(last, buf),
    }
}

/// The messages of one received buffer.
pub open spec fn unpacked(buffer: Seq<u8>) -> FelgensResult<Seq<Seq<char>>> {
    match parsed(buffer) {
        Err(e) => Err(e),
        Ok((header, body)) => decoded(header, body, zlib_inflated(body), brotli_inflated(body)),
    }
}

/// Reads the counter of a hot-count body: the big-endian `u32` at its start.
pub fn get_hot_count(body: &[u8]) -> (r: FelgensResult<u32>)
    ensures
        body@.len() >= 4 ==> r == Ok::<u32, FelgensError>(be_u32_at(body@, 0)),
        body@.len() < 4 ==> r == Err::<u32, FelgensError>(FelgensError::Truncated),
{
    read_u32(body, 0)
}

/// Decodes a frame that needs no decompression.
pub fn render(header: BilibiliPackHeader, buf: Vec<u8>) -> (r: FelgensResult<Vec<String>>)
    ensures
        match r {
            Ok(msgs) => rendered(header, buf@) == Ok::<_, FelgensError>(msgs.deep_view()),
            Err(e) => rendered(header, buf@) == Err::<Seq<Seq<char>>, _>(e),
        },
{
    match header.version() {
        VersionTag::PlainText => split_msgs(buf, header),
        VersionTag::HotCount => {
            let count = get_hot_count(buf.as_slice())?;
            let text = hot_count_text(count);
            let mut msgs: Vec<String> = Vec::new();
            msgs.push(text);
            assert(msgs.deep_view() =~= seq![count_text(count)]);
            Ok(msgs)
        },
        _ => Err(FelgensError::UnsupportedProtocolVersion(header.ver)),
    }
}

/// Decodes a parsed frame: takes off its compression layers, then reads the
/// messages of the frame that is left.
///
/// A frame that still carries a compressed tag after `MAX_LAYERS` rounds is
/// answered with `UnsupportedProtocolVersion` and that tag.
pub fn decode(ctx: BilibiliPackCtx) -> (r: FelgensResult<Vec<String>>)
    ensures
        match r {
            Ok(msgs) => decoded(ctx.0, ctx.1@, zlib_inflated(ctx.1@), brotli_inflated(ctx.1@)) == Ok::<
                _,
                FelgensError,
            >(msgs.deep_view()),
            Err(e) => decoded(ctx.0, ctx.1@, zlib_inflated(ctx.1@), brotli_inflated(ctx.1@)) == Err::<
                Seq<Seq<char>>,
                _,
            >(e),
        },
{
    let (outer, body) = ctx;
    let ghost zlib = zlib_inflated(body@);
    let ghost brotli = brotli_inflated(body@);
    let mut header = outer;
    let mut buf = slice_to_vec(body);
    let mut tag = header.version();
    let mut rounds: u32 = 0;

    while rounds < MAX_LAYERS && tag.is_compressed()
        invariant
            outer == ctx.0,
            body == ctx.1,
            rounds <= MAX_LAYERS,
            tag == header.tag(),
            zlib == zlib_inflated(body@),
            brotli == brotli_inflated(body@),
            unwrapped(outer, body@, zlib, brotli, MAX_LAYERS as nat) == unwrapped(
                header,
                buf@,
                zlib,
                brotli,
                (MAX_LAYERS - rounds) as nat,
            ),
        decreases MAX_LAYERS - rounds,
    {
        let layer = match tag {
            VersionTag::Zlib => zlib_decode(body),
            _ => brotli_decode(body),
        };
        assert(unwrapped(header, buf@, zlib, brotli, (MAX_LAYERS - rounds) as nat) == match reframed(
            inflated_by(header.ver, zlib, brotli),
        ) {
            Err(e) => Err(e),
            Ok((inner, inner_buf)) => unwrapped(
                inner,
                inner_buf,
                zlib,
                brotli,
                (MAX_LAYERS - rounds - 1) as nat,
            ),
        });
        match layer {
            Err(e) => {
                return Err(e);
            },
            Ok((inner, inner_buf)) => {
                header = inner;
                buf = inner_buf;
            },
        }
        tag = header.version();
        rounds = rounds + 1;
    }
    render(header, buf)
}

/// Decodes one received buffer into its messages, in arrival order.
pub fn build_pack(buf: &[u8]) -> (r: FelgensResult<Vec<String>>)
    ensures
        match r {
            Ok(msgs) => unpacked(buf@) == Ok::<_, FelgensError>(msgs.deep_view()),
            Err(e) => unpacked(buf@) == Err::<Seq<Seq<char>>, _>(e),
        },
        buf@.len() < HEADER_LEN ==> r == Err::<Vec<String>, _>(FelgensError::Truncated),
        buf@.len() >= HEADER_LEN && header_at(buf@, 0).tag() is Unrecognized ==> r == Err::<
            Vec<String>,
            _,
        >(FelgensError::UnsupportedProtocolVersion(header_at(buf@, 0).ver)),
        buf@.len() >= HEADER_LEN && header_at(buf@, 0).tag() is PlainText && (header_at(
            buf@,
            0,
        ).pack_len > buf@.len() || header_at(buf@, 0).pack_len < HEADER_LEN) ==> r == Err::<
            Vec<String>,
            _,
        >(FelgensError::OutOfBounds),
{
    let ctx = pack(buf)?;
    let msgs = decode(ctx)?;
    Ok(msgs)
}

/// The control frame that carries `payload` under the operation code `op`:
/// a header with version tag 1, sequence number 1 and the length of the whole
/// frame, then the payload. The length field has 32 bits and holds the length
/// modulo 2^32.
pub open spec fn control_frame(payload: Seq<u8>, op: u8) -> Seq<u8> {
    header_bytes(control_header(payload.len(), op)) + payload
}

/// The header of the control frame for a payload of `len` bytes.
pub open spec fn control_header(len: nat, op: u8) -> BilibiliPackHeader {
    BilibiliPackHeader {
        pack_len: ((HEADER_LEN + len) % 0x1_0000_0000) as u32,
        header_len: 16,
        ver: 1,
        op: op as u32,
        seq: 1,
    }
}

/// The length field of a frame with `payload_len` bytes behind its header.
fn frame_len(payload_len: usize) -> (total: u32)
    ensures
        total == (HEADER_LEN + payload_len) % 0x1_0000_0000,
{
    let low = payload_len as u64 % 0x1_0000_0000;
    ((low + 16) % 0x1_0000_0000) as u32
}

/// Frames an outgoing control message. Nothing is compressed.
pub fn encode(s: &str, op: u8) -> (out: Vec<u8>)
    ensures
        out@ == control_frame(encode_utf8(s@), op),
        out@.len() == HEADER_LEN + encode_utf8(s@).len(),
        parsed(out@) == Ok::<_, FelgensError>(
            (control_header(encode_utf8(s@).len(), op), encode_utf8(s@)),
        ),
{
    let data = s.as_bytes();
    let packet_len = frame_len(data.len());
    let mut out = write_header(packet_len, 1, op as u32, 1);
    let ghost head = out@;
    out.extend_from_slice(data);
    proof {
        assert(out@ =~= head + data@);
        lemma_control_frame_parses(data@, op);
    }
    out
}

} // verus!
