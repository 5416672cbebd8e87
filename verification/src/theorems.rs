//! What holds of the codec as a whole: relations between encoding, parsing
//! and decoding that no single function's contract states.

use crate::error::FelgensError;
use crate::header::{
    header_at, header_bytes, lemma_header_round_trip, parsed, BilibiliPackHeader, VersionTag,
    HEADER_LEN,
};
use crate::inflate::{brotli_inflated, reframed, zlib_inflated};
use crate::pack::{
    control_frame, control_header, inflated_by, split, sub_frames, unpacked, unwrapped, MAX_LAYERS,
};
use crate::text::count_text;
use crate::wire::be_u32_at;
use vstd::prelude::*;
use vstd::utf8::{decode_utf8, encode_utf8, valid_utf8};

verus! {

/// A frame as it is written parses into its header and what stands behind it.
pub proof fn lemma_frame_parses(header: BilibiliPackHeader, body: Seq<u8>)
    ensures
        (header_bytes(header) + body).len() == HEADER_LEN + body.len(),
        parsed(header_bytes(header) + body) == Ok::<_, FelgensError>((header, body)),
{
    let buffer = header_bytes(header) + body;
    lemma_header_round_trip(Seq::empty(), header, body);
    assert(buffer =~= Seq::<u8>::empty() + header_bytes(header) + body);
    assert(buffer.subrange(HEADER_LEN as int, buffer.len() as int) =~= body);
}

/// A control frame parses into the header it was built with and its payload:
/// version tag 1, header length 16, sequence number 1, the operation code as
/// given, and as frame length 16 plus the length of the payload, as long as
/// that sum fits the 32-bit field.
pub proof fn lemma_control_frame_parses(payload: Seq<u8>, op: u8)
    ensures
        control_frame(payload, op).len() == HEADER_LEN + payload.len(),
        parsed(control_frame(payload, op)) == Ok::<_, FelgensError>(
            (control_header(payload.len(), op), payload),
        ),
        control_header(payload.len(), op).ver == 1,
        control_header(payload.len(), op).header_len == 16,
        control_header(payload.len(), op).op == op,
        control_header(payload.len(), op).seq == 1,
        HEADER_LEN + payload.len() <= u32::MAX ==> control_header(payload.len(), op).pack_len
            == HEADER_LEN + payload.len(),
{
    lemma_frame_parses(control_header(payload.len(), op), payload);
}

/// Decoding a control frame reads its payload as a hot count, since the
/// encoder writes version tag 1: the result is the one rendered counter that
/// the first four bytes of the payload spell, and `Truncated` for a payload
/// of fewer than four bytes.
pub proof fn lemma_control_frame_decodes(payload: Seq<u8>, op: u8)
    ensures
        unpacked(control_frame(payload, op)) == if payload.len() < 4 {
            Err::<Seq<Seq<char>>, _>(FelgensError::Truncated)
        } else {
            Ok(seq![count_text(be_u32_at(payload, 0))])
        },
{
    lemma_control_frame_parses(payload, op);
    let h = control_header(payload.len(), op);
    assert(h.tag() == VersionTag::HotCount);
    assert(unwrapped(
        h,
        payload,
        zlib_inflated(payload),
        brotli_inflated(payload),
        MAX_LAYERS as nat,
    ) == Ok::<_, FelgensError>((h, payload)));
}

/// A message comes back unchanged from decoding its own control frame exactly
/// when it is the rendering of the counter that its first four bytes spell.
pub proof fn lemma_control_frame_round_trip(s: Seq<char>, op: u8)
    ensures
        unpacked(control_frame(encode_utf8(s), op)) == Ok::<_, FelgensError>(seq![s]) <==> (encode_utf8(
            s,
        ).len() >= 4 && s == count_text(be_u32_at(encode_utf8(s), 0))),
{
    let payload = encode_utf8(s);
    lemma_control_frame_decodes(payload, op);
    if payload.len() >= 4 {
        let got = seq![count_text(be_u32_at(payload, 0))];
        if unpacked(control_frame(payload, op)) == Ok::<_, FelgensError>(seq![s]) {
            assert(got[0] == seq![s][0]);
        }
    }
}

/// A frame as it is written: its header, then its payload.
pub open spec fn frame_bytes(frame: (BilibiliPackHeader, Seq<u8>)) -> Seq<u8> {
    header_bytes(frame.0) + frame.1
}

/// The frames of `frames` written one behind the other.
pub open spec fn concat_frames(frames: Seq<(BilibiliPackHeader, Seq<u8>)>) -> Seq<u8>
    decreases frames.len(),
{
    if frames.len() == 0 {
        Seq::empty()
    } else {
        frame_bytes(frames[0]) + concat_frames(frames.drop_first())
    }
}

/// A frame whose header declares the length it has and whose payload is text.
pub open spec fn well_formed(frame: (BilibiliPackHeader, Seq<u8>)) -> bool {
    &&& frame.0.pack_len as int == HEADER_LEN + frame.1.len()
    &&& valid_utf8(frame.1)
}

/// The text of each frame's payload, in the order of the frames.
pub open spec fn texts(frames: Seq<(BilibiliPackHeader, Seq<u8>)>) -> Seq<Seq<char>> {
    Seq::new(frames.len(), |i: int| decode_utf8(frames[i].1))
}

proof fn lemma_texts_unfold(frames: Seq<(BilibiliPackHeader, Seq<u8>)>)
    requires
        frames.len() >= 1,
    ensures
        texts(frames) == seq![decode_utf8(frames[0].1)] + texts(frames.drop_first()),
        forall|i: int| 0 <= i < frames.len() - 1 ==> #[trigger] frames.drop_first()[i] == frames[i + 1],
{
    let rest = frames.drop_first();
    assert forall|i: int| 0 <= i < frames.len() implies (seq![decode_utf8(frames[0].1)] + texts(rest))[i]
        == texts(frames)[i] by {
        if i > 0 {
            assert(rest[i - 1] == frames[i]);
        }
    }
    assert(texts(frames) =~= seq![decode_utf8(frames[0].1)] + texts(rest));
}

/// Well-formed frames written one behind the other, behind any prefix, are
/// read back as sub-frames one for one and in order.
pub proof fn lemma_sub_frames_of_concat(prefix: Seq<u8>, frames: Seq<(BilibiliPackHeader, Seq<u8>)>)
    requires
        forall|i: int| 0 <= i < frames.len() ==> well_formed(#[trigger] frames[i]),
    ensures
        sub_frames(prefix + concat_frames(frames), prefix.len() as int) == Ok::<_, FelgensError>(
            texts(frames),
        ),
    decreases frames.len(),
{
    let body = prefix + concat_frames(frames);
    let cursor = prefix.len() as int;
    if frames.len() == 0 {
        assert(body =~= prefix);
        assert(texts(frames) =~= Seq::<Seq<char>>::empty());
    } else {
        let (h, payload) = frames[0];
        let rest = frames.drop_first();
        let tail = concat_frames(rest);
        assert(well_formed(frames[0]));
        lemma_header_round_trip(prefix, h, payload + tail);
        assert(body =~= prefix + header_bytes(h) + (payload + tail));
        assert(header_at(body, cursor) == h);
        assert(body.subrange(cursor + HEADER_LEN, cursor + h.pack_len) =~= payload);
        let next = prefix + frame_bytes(frames[0]);
        assert(body =~= next + tail);
        lemma_texts_unfold(frames);
        lemma_sub_frames_of_concat(next, rest);
        assert(sub_frames(body, cursor + h.pack_len) == Ok::<_, FelgensError>(texts(rest)));
    }
}

/// A plain-text body that holds a first message and then any number of
/// well-formed frames splits into exactly these messages, in order.
pub proof fn lemma_split_of_concat(
    header: BilibiliPackHeader,
    first: Seq<u8>,
    frames: Seq<(BilibiliPackHeader, Seq<u8>)>,
)
    requires
        well_formed((header, first)),
        forall|i: int| 0 <= i < frames.len() ==> well_formed(#[trigger] frames[i]),
    ensures
        split(header, first + concat_frames(frames)) == Ok::<_, FelgensError>(
            seq![decode_utf8(first)] + texts(frames),
        ),
{
    let body = first + concat_frames(frames);
    lemma_sub_frames_of_concat(first, frames);
    assert(body.subrange(0, header.body_len()) =~= first);
}

/// A buffer made of `N >= 1` well-formed frames written one behind the other,
/// the first of them tagged as plain text, decodes to exactly the `N` texts of
/// their payloads, in the order of the frames.
pub proof fn lemma_unpacked_of_concat(frames: Seq<(BilibiliPackHeader, Seq<u8>)>)
    requires
        frames.len() >= 1,
        frames[0].0.tag() is PlainText,
        forall|i: int| 0 <= i < frames.len() ==> well_formed(#[trigger] frames[i]),
    ensures
        unpacked(concat_frames(frames)) == Ok::<_, FelgensError>(texts(frames)),
        texts(frames).len() == frames.len(),
{
    let (h, first) = frames[0];
    let rest = frames.drop_first();
    let body = first + concat_frames(rest);
    lemma_texts_unfold(frames);
    assert(well_formed((h, first)));
    assert(concat_frames(frames) =~= header_bytes(h) + body);
    lemma_frame_parses(h, body);
    lemma_split_of_concat(h, first, rest);
    assert(unwrapped(h, body, zlib_inflated(body), brotli_inflated(body), MAX_LAYERS as nat) == Ok::<
        _,
        FelgensError,
    >((h, body)));
}

/// A frame from which the rounds never get away: it is compressed, and so are
/// the frame found under its tag and the frame found under that one's tag.
pub open spec fn stuck(header: BilibiliPackHeader, zlib: Option<Seq<u8>>, brotli: Option<Seq<u8>>) -> bool {
    &&& header.tag().compressed()
    &&& reframed(inflated_by(header.ver, zlib, brotli)) matches Ok((inner, _))
    &&& inner.tag().compressed()
    &&& reframed(inflated_by(inner.ver, zlib, brotli)) matches Ok((innermost, _))
    &&& innermost.tag().compressed()
}

proof fn lemma_stuck_stays(
    header: BilibiliPackHeader,
    buf: Seq<u8>,
    zlib: Option<Seq<u8>>,
    brotli: Option<Seq<u8>>,
    rounds: nat,
)
    requires
        stuck(header, zlib, brotli),
    ensures
        unwrapped(header, buf, zlib, brotli, rounds) matches Ok((last, _)) && last.tag().compressed(),
    decreases rounds,
{
    if rounds > 0 {
        let (inner, inner_buf) = reframed(inflated_by(header.ver, zlib, brotli))->Ok_0;
        lemma_stuck_stays(inner, inner_buf, zlib, brotli, (rounds - 1) as nat);
    }
}

/// Once the rounds have ended in a plain frame or in an error, further rounds
/// change nothing.
proof fn lemma_settled_stays(
    header: BilibiliPackHeader,
    buf: Seq<u8>,
    zlib: Option<Seq<u8>>,
    brotli: Option<Seq<u8>>,
    rounds: nat,
    more: nat,
)
    requires
        rounds <= more,
        !(unwrapped(header, buf, zlib, brotli, rounds) matches Ok((last, _)) && last.tag().compressed()),
    ensures
        unwrapped(header, buf, zlib, brotli, more) == unwrapped(header, buf, zlib, brotli, rounds),
    decreases rounds,
{
    if rounds > 0 && header.tag().compressed() {
        if let Ok((inner, inner_buf)) = reframed(inflated_by(header.ver, zlib, brotli)) {
            lemma_settled_stays(
                inner,
                inner_buf,
                zlib,
                brotli,
                (rounds - 1) as nat,
                (more - 1) as nat,
            );
        }
    }
}

/// `MAX_LAYERS` rounds are as good as any number of them. Every round reads
/// the outer body, so what is found under a tag never changes: a frame that is
/// plain, or an error, after `MAX_LAYERS` rounds is the same after more, and a
/// frame that is still compressed then is still compressed after any number
/// of rounds.
pub proof fn lemma_layers_settle(
    header: BilibiliPackHeader,
    buf: Seq<u8>,
    zlib: Option<Seq<u8>>,
    brotli: Option<Seq<u8>>,
    rounds: nat,
)
    requires
        rounds >= MAX_LAYERS,
    ensures
        match unwrapped(header, buf, zlib, brotli, MAX_LAYERS as nat) {
            Ok((last, _)) if last.tag().compressed() => unwrapped(header, buf, zlib, brotli, rounds)
                matches Ok((later, _)) && later.tag().compressed(),
            settled => unwrapped(header, buf, zlib, brotli, rounds) == settled,
        },
{
    let at_limit = unwrapped(header, buf, zlib, brotli, MAX_LAYERS as nat);
    if at_limit matches Ok((last, _)) && last.tag().compressed() {
        reveal_with_fuel(unwrapped, 3);
        assert(stuck(header, zlib, brotli));
        lemma_stuck_stays(header, buf, zlib, brotli, rounds);
    } else {
        lemma_settled_stays(header, buf, zlib, brotli, MAX_LAYERS as nat, rounds);
    }
}

} // verus!
