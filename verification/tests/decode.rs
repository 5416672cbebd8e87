use felgens::error::FelgensError;
use felgens::header::{write_header, BilibiliPackHeader};
use felgens::inflate::{brotli_decode, reframe, zlib_decode};
use felgens::pack::{build_pack, decode, encode, get_hot_count, render, split_msgs};
use std::io::Write;

fn frame(ver: u16, payload: &[u8]) -> Vec<u8> {
    let mut out = write_header(16 + payload.len() as u32, ver, 5, 0);
    out.extend_from_slice(payload);
    out
}

fn frame_declaring(total: u32, ver: u16, payload: &[u8]) -> Vec<u8> {
    let mut out = write_header(total, ver, 5, 0);
    out.extend_from_slice(payload);
    out
}

fn joined(frames: &[Vec<u8>]) -> Vec<u8> {
    let mut out = Vec::new();
    for f in frames {
        out.extend_from_slice(f);
    }
    out
}

fn zlib_stream(data: &[u8]) -> Vec<u8> {
    let mut enc = flate2::write::ZlibEncoder::new(Vec::new(), flate2::Compression::default());
    enc.write_all(data).unwrap();
    enc.finish().unwrap()
}

fn brotli_stream(data: &[u8]) -> Vec<u8> {
    let mut out = Vec::new();
    {
        let mut enc = brotli::CompressorWriter::new(&mut out, 4096, 5, 22);
        enc.write_all(data).unwrap();
    }
    out
}

fn strings(items: &[&str]) -> Vec<String> {
    items.iter().map(|s| s.to_string()).collect()
}

fn plain_header(total: u32) -> BilibiliPackHeader {
    BilibiliPackHeader { pack_len: total, header_len: 16, ver: 0, op: 5, seq: 0 }
}

// ---- plain text ----

#[test]
fn one_plain_frame_gives_one_message() {
    assert_eq!(build_pack(&frame(0, b"hello")), Ok(strings(&["hello"])));
}

#[test]
fn two_plain_frames_give_two_messages_in_order() {
    let buffer = joined(&[frame(0, b"first"), frame(0, b"second")]);
    assert_eq!(build_pack(&buffer), Ok(strings(&["first", "second"])));
}

#[test]
fn five_plain_frames_give_five_messages_in_order() {
    let buffer = joined(&[
        frame(0, b"e"),
        frame(0, b"dd"),
        frame(0, b"ccc"),
        frame(0, b"bbbb"),
        frame(0, b"aaaaa"),
    ]);
    assert_eq!(build_pack(&buffer), Ok(strings(&["e", "dd", "ccc", "bbbb", "aaaaa"])));
}

#[test]
fn sub_frame_tags_and_codes_are_not_examined() {
    let buffer = joined(&[frame(0, b"a"), frame(9, b"b"), frame(2, b"c")]);
    assert_eq!(build_pack(&buffer), Ok(strings(&["a", "b", "c"])));
}

#[test]
fn an_empty_plain_frame_gives_one_empty_message() {
    assert_eq!(build_pack(&frame(0, b"")), Ok(strings(&[""])));
}

#[test]
fn empty_sub_frames_give_empty_messages() {
    let buffer = joined(&[frame(0, b""), frame(0, b""), frame(0, b"x")]);
    assert_eq!(build_pack(&buffer), Ok(strings(&["", "", "x"])));
}

#[test]
fn plain_frames_carry_any_utf8() {
    let buffer = joined(&[frame(0, "弹幕".as_bytes()), frame(0, "🎁 gift".as_bytes())]);
    assert_eq!(build_pack(&buffer), Ok(strings(&["弹幕", "🎁 gift"])));
}

#[test]
fn bytes_behind_the_first_message_are_read_as_sub_frames() {
    // the outer header declares 2 payload bytes; the body holds 18 more
    let mut buffer = frame_declaring(18, 0, b"ab");
    buffer.extend_from_slice(&frame(0, b"cd"));
    assert_eq!(build_pack(&buffer), Ok(strings(&["ab", "cd"])));
}

#[test]
fn a_declared_length_beyond_the_buffer_is_out_of_bounds() {
    let buffer = frame_declaring(16 + 6, 0, b"hello");
    assert_eq!(build_pack(&buffer), Err(FelgensError::OutOfBounds));
    let buffer = frame_declaring(u32::MAX, 0, b"hello");
    assert_eq!(build_pack(&buffer), Err(FelgensError::OutOfBounds));
}

#[test]
fn a_declared_length_below_a_header_is_out_of_bounds() {
    assert_eq!(build_pack(&frame_declaring(15, 0, b"hello")), Err(FelgensError::OutOfBounds));
    assert_eq!(build_pack(&frame_declaring(0, 0, b"")), Err(FelgensError::OutOfBounds));
}

#[test]
fn a_sub_frame_that_declares_too_much_is_out_of_bounds() {
    let buffer = joined(&[frame(0, b"ok"), frame_declaring(16 + 4, 0, b"abc")]);
    assert_eq!(build_pack(&buffer), Err(FelgensError::OutOfBounds));
}

#[test]
fn a_sub_frame_that_declares_less_than_a_header_is_out_of_bounds() {
    let buffer = joined(&[frame(0, b"ok"), frame_declaring(3, 0, b"abc")]);
    assert_eq!(build_pack(&buffer), Err(FelgensError::OutOfBounds));
}

#[test]
fn a_cut_sub_frame_header_is_truncated() {
    let mut buffer = frame(0, b"ok");
    buffer.extend_from_slice(&[0, 0, 0, 16, 0]);
    assert_eq!(build_pack(&buffer), Err(FelgensError::Truncated));
}

#[test]
fn malformed_text_fails_the_whole_buffer() {
    assert_eq!(build_pack(&frame(0, &[0xff, 0xfe])), Err(FelgensError::InvalidUtf8));
    let buffer = joined(&[frame(0, b"good"), frame(0, &[0xc0, 0xaf]), frame(0, b"more")]);
    assert_eq!(build_pack(&buffer), Err(FelgensError::InvalidUtf8));
}

#[test]
fn the_first_unreadable_sub_frame_decides_the_error() {
    let buffer = joined(&[frame(0, b"a"), frame(0, &[0xff]), frame_declaring(99, 0, b"")]);
    assert_eq!(build_pack(&buffer), Err(FelgensError::InvalidUtf8));
    let buffer = joined(&[frame(0, b"a"), frame_declaring(99, 0, b""), frame(0, &[0xff])]);
    assert_eq!(build_pack(&buffer), Err(FelgensError::OutOfBounds));
}

#[test]
fn split_msgs_walks_the_body() {
    let mut body = b"one".to_vec();
    body.extend_from_slice(&frame(0, b"two"));
    body.extend_from_slice(&frame(0, b"three"));
    assert_eq!(split_msgs(body, plain_header(19)), Ok(strings(&["one", "two", "three"])));
}

#[test]
fn split_msgs_checks_the_first_length() {
    assert_eq!(split_msgs(b"abc".to_vec(), plain_header(20)), Err(FelgensError::OutOfBounds));
    assert_eq!(split_msgs(b"abc".to_vec(), plain_header(15)), Err(FelgensError::OutOfBounds));
    assert_eq!(split_msgs(Vec::new(), plain_header(16)), Ok(strings(&[""])));
}

#[test]
fn split_msgs_steps_by_the_whole_sub_frame() {
    // after "ab" the cursor stands at 2; the sub-frame is 16 + 1 bytes long,
    // so the body ends exactly behind it
    let mut body = b"ab".to_vec();
    body.extend_from_slice(&frame(0, b"c"));
    assert_eq!(body.len(), 19);
    assert_eq!(split_msgs(body, plain_header(18)), Ok(strings(&["ab", "c"])));
}

// ---- hot count ----

#[test]
fn a_hot_count_of_five_is_rendered() {
    assert_eq!(build_pack(&frame(1, &[0, 0, 0, 5])), Ok(strings(&["{\"count\": 5}"])));
}

#[test]
fn hot_counts_are_big_endian_and_unsigned() {
    assert_eq!(build_pack(&frame(1, &[0, 0, 1, 0])), Ok(strings(&["{\"count\": 256}"])));
    assert_eq!(
        build_pack(&frame(1, &[0xff, 0xff, 0xff, 0xff])),
        Ok(strings(&["{\"count\": 4294967295}"]))
    );
    assert_eq!(build_pack(&frame(1, &[0, 0, 0, 0])), Ok(strings(&["{\"count\": 0}"])));
}

#[test]
fn a_short_hot_count_is_truncated() {
    assert_eq!(build_pack(&frame(1, &[0, 0, 5])), Err(FelgensError::Truncated));
    assert_eq!(build_pack(&frame(1, &[])), Err(FelgensError::Truncated));
}

#[test]
fn a_hot_count_ignores_what_follows_and_the_declared_length() {
    assert_eq!(
        build_pack(&frame_declaring(7, 1, &[0, 0, 0, 42, 1, 2, 3])),
        Ok(strings(&["{\"count\": 42}"]))
    );
}

#[test]
fn get_hot_count_reads_the_first_four_bytes() {
    assert_eq!(get_hot_count(&[0x12, 0x34, 0x56, 0x78, 0x9a]), Ok(0x1234_5678));
    assert_eq!(get_hot_count(&[1, 2, 3]), Err(FelgensError::Truncated));
}

// ---- headers and tags ----

#[test]
fn a_buffer_of_ten_bytes_is_truncated() {
    assert_eq!(build_pack(&[0u8; 10]), Err(FelgensError::Truncated));
}

#[test]
fn buffers_below_a_header_are_truncated() {
    assert_eq!(build_pack(&[]), Err(FelgensError::Truncated));
    assert_eq!(build_pack(&[0u8; 15]), Err(FelgensError::Truncated));
    assert_eq!(build_pack(&frame(0, b"hello")[..15]), Err(FelgensError::Truncated));
}

#[test]
fn version_tag_nine_is_unsupported() {
    assert_eq!(
        build_pack(&frame(9, b"whatever")),
        Err(FelgensError::UnsupportedProtocolVersion(9))
    );
}

#[test]
fn every_unknown_tag_is_reported_with_its_value() {
    for ver in [4u16, 5, 255, 256, u16::MAX] {
        assert_eq!(
            build_pack(&frame(ver, b"")),
            Err(FelgensError::UnsupportedProtocolVersion(ver))
        );
    }
}

#[test]
fn render_reads_plain_and_hot_count_frames() {
    let plain = BilibiliPackHeader { pack_len: 18, header_len: 16, ver: 0, op: 0, seq: 0 };
    assert_eq!(render(plain, b"hi".to_vec()), Ok(strings(&["hi"])));
    let hot = BilibiliPackHeader { pack_len: 20, header_len: 16, ver: 1, op: 0, seq: 0 };
    assert_eq!(render(hot, vec![0, 0, 0, 9]), Ok(strings(&["{\"count\": 9}"])));
}

#[test]
fn render_refuses_every_other_tag() {
    for ver in [2u16, 3, 4, 9] {
        let header = BilibiliPackHeader { pack_len: 16, header_len: 16, ver, op: 0, seq: 0 };
        assert_eq!(
            render(header, Vec::new()),
            Err(FelgensError::UnsupportedProtocolVersion(ver))
        );
    }
}

// ---- compression ----

#[test]
fn a_zlib_body_that_wraps_hello_gives_hello() {
    let buffer = frame(2, &zlib_stream(&frame(0, b"hello")));
    assert_eq!(build_pack(&buffer), Ok(strings(&["hello"])));
}

#[test]
fn a_brotli_body_that_wraps_hello_gives_hello() {
    let buffer = frame(3, &brotli_stream(&frame(0, b"hello")));
    assert_eq!(build_pack(&buffer), Ok(strings(&["hello"])));
}

#[test]
fn a_compressed_body_may_hold_several_frames() {
    let inner = joined(&[frame(0, b"danmu"), frame(0, b"gift"), frame(0, "上舰".as_bytes())]);
    let expected = strings(&["danmu", "gift", "上舰"]);
    assert_eq!(build_pack(&frame(2, &zlib_stream(&inner))), Ok(expected.clone()));
    assert_eq!(build_pack(&frame(3, &brotli_stream(&inner))), Ok(expected));
}

#[test]
fn a_compressed_body_may_hold_a_hot_count() {
    let inner = frame(1, &[0, 0, 3, 232]);
    assert_eq!(build_pack(&frame(2, &zlib_stream(&inner))), Ok(strings(&["{\"count\": 1000}"])));
    assert_eq!(build_pack(&frame(3, &brotli_stream(&inner))), Ok(strings(&["{\"count\": 1000}"])));
}

#[test]
fn a_large_compressed_body_comes_out_whole() {
    let text = "0123456789abcdef".repeat(20_000);
    let inner = frame(0, text.as_bytes());
    assert_eq!(build_pack(&frame(2, &zlib_stream(&inner))), Ok(vec![text.clone()]));
    assert_eq!(build_pack(&frame(3, &brotli_stream(&inner))), Ok(vec![text]));
}

#[test]
fn the_outer_declared_length_is_not_used_for_compressed_bodies() {
    let buffer = frame_declaring(0, 2, &zlib_stream(&frame(0, b"hello")));
    assert_eq!(build_pack(&buffer), Ok(strings(&["hello"])));
}

#[test]
fn a_malformed_stream_is_a_decompression_failure() {
    assert_eq!(
        build_pack(&frame(2, b"this is no zlib stream")),
        Err(FelgensError::DecompressionFailure)
    );
    assert_eq!(
        build_pack(&frame(3, &[0xff; 40])),
        Err(FelgensError::DecompressionFailure)
    );
}

#[test]
fn an_empty_stream_is_a_decompression_failure() {
    assert_eq!(build_pack(&frame(2, b"")), Err(FelgensError::DecompressionFailure));
    assert_eq!(build_pack(&frame(3, b"")), Err(FelgensError::DecompressionFailure));
}

#[test]
fn a_stream_cut_short_is_a_decompression_failure() {
    let text = "some text that does not compress to nothing ".repeat(50);
    let stream = zlib_stream(&frame(0, text.as_bytes()));
    let buffer = frame(2, &stream[..stream.len() / 2]);
    assert_eq!(build_pack(&buffer), Err(FelgensError::DecompressionFailure));
    let stream = brotli_stream(&frame(0, text.as_bytes()));
    let buffer = frame(3, &stream[..stream.len() / 2]);
    assert_eq!(build_pack(&buffer), Err(FelgensError::DecompressionFailure));
}

#[test]
fn a_stream_under_the_wrong_tag_is_a_decompression_failure() {
    let inner = frame(0, b"hello");
    assert_eq!(
        build_pack(&frame(3, &zlib_stream(&inner))),
        Err(FelgensError::DecompressionFailure)
    );
    assert_eq!(
        build_pack(&frame(2, &brotli_stream(&inner))),
        Err(FelgensError::DecompressionFailure)
    );
}

#[test]
fn a_stream_that_holds_less_than_a_header_is_truncated() {
    assert_eq!(build_pack(&frame(2, &zlib_stream(b"short"))), Err(FelgensError::Truncated));
    assert_eq!(build_pack(&frame(3, &brotli_stream(b"short"))), Err(FelgensError::Truncated));
    assert_eq!(build_pack(&frame(2, &zlib_stream(b""))), Err(FelgensError::Truncated));
}

#[test]
fn an_unknown_tag_under_a_layer_is_unsupported() {
    let buffer = frame(2, &zlib_stream(&frame(7, b"x")));
    assert_eq!(build_pack(&buffer), Err(FelgensError::UnsupportedProtocolVersion(7)));
    let buffer = frame(3, &brotli_stream(&frame(300, b"x")));
    assert_eq!(build_pack(&buffer), Err(FelgensError::UnsupportedProtocolVersion(300)));
}

#[test]
fn errors_under_a_layer_come_through() {
    let buffer = frame(2, &zlib_stream(&frame_declaring(99, 0, b"abc")));
    assert_eq!(build_pack(&buffer), Err(FelgensError::OutOfBounds));
    let buffer = frame(3, &brotli_stream(&frame(0, &[0xff])));
    assert_eq!(build_pack(&buffer), Err(FelgensError::InvalidUtf8));
    let buffer = frame(2, &zlib_stream(&frame(1, &[1, 2])));
    assert_eq!(build_pack(&buffer), Err(FelgensError::Truncated));
}

#[test]
fn two_zlib_layers_are_not_taken_off() {
    // every round reads the outer body, which always shows the same zlib-tagged frame
    let innermost = frame(0, b"hello");
    let middle = frame(2, &zlib_stream(&innermost));
    let buffer = frame(2, &zlib_stream(&middle));
    assert_eq!(build_pack(&buffer), Err(FelgensError::UnsupportedProtocolVersion(2)));
}

#[test]
fn two_brotli_layers_are_not_taken_off() {
    let innermost = frame(0, b"hello");
    let middle = frame(3, &brotli_stream(&innermost));
    let buffer = frame(3, &brotli_stream(&middle));
    assert_eq!(build_pack(&buffer), Err(FelgensError::UnsupportedProtocolVersion(3)));
}

#[test]
fn a_second_layer_of_the_other_kind_is_read_from_the_outer_body() {
    // the frame under the zlib layer says brotli; the outer body is no brotli stream
    let innermost = frame(0, b"hello");
    let middle = frame(3, &brotli_stream(&innermost));
    let buffer = frame(2, &zlib_stream(&middle));
    assert_eq!(build_pack(&buffer), Err(FelgensError::DecompressionFailure));
    let middle = frame(2, &zlib_stream(&innermost));
    let buffer = frame(3, &brotli_stream(&middle));
    assert_eq!(build_pack(&buffer), Err(FelgensError::DecompressionFailure));
}

#[test]
fn decode_takes_a_parsed_frame() {
    let body = zlib_stream(&frame(0, b"hello"));
    let header = BilibiliPackHeader { pack_len: 0, header_len: 16, ver: 2, op: 0, seq: 0 };
    assert_eq!(decode((header, &body)), Ok(strings(&["hello"])));
    let header = BilibiliPackHeader { pack_len: 18, header_len: 16, ver: 0, op: 0, seq: 0 };
    assert_eq!(decode((header, b"hi")), Ok(strings(&["hi"])));
}

#[test]
fn zlib_decode_hands_out_header_and_body() {
    let (header, body) = zlib_decode(&zlib_stream(&frame(0, b"hello"))).unwrap();
    assert_eq!(
        header,
        BilibiliPackHeader { pack_len: 21, header_len: 16, ver: 0, op: 5, seq: 0 }
    );
    assert_eq!(body, b"hello");
    assert_eq!(zlib_decode(b"junk").unwrap_err(), FelgensError::DecompressionFailure);
    assert_eq!(zlib_decode(&zlib_stream(b"tiny")).unwrap_err(), FelgensError::Truncated);
}

#[test]
fn zlib_decode_stops_at_the_end_of_the_stream() {
    let mut stream = zlib_stream(&frame(0, b"hello"));
    stream.extend_from_slice(b"trailing bytes");
    let (_, body) = zlib_decode(&stream).unwrap();
    assert_eq!(body, b"hello");
}

#[test]
fn brotli_decode_hands_out_header_and_body() {
    let (header, body) = brotli_decode(&brotli_stream(&frame(1, &[0, 0, 0, 5]))).unwrap();
    assert_eq!(
        header,
        BilibiliPackHeader { pack_len: 20, header_len: 16, ver: 1, op: 5, seq: 0 }
    );
    assert_eq!(body, vec![0, 0, 0, 5]);
    assert_eq!(brotli_decode(&[0xff; 8]).unwrap_err(), FelgensError::DecompressionFailure);
    assert_eq!(brotli_decode(&brotli_stream(b"tiny")).unwrap_err(), FelgensError::Truncated);
}

#[test]
fn reframe_reads_an_outcome_as_a_frame() {
    let (header, body) = reframe(Ok(frame(0, b"abc"))).unwrap();
    assert_eq!(header.pack_len, 19);
    assert_eq!(body, b"abc");
    assert_eq!(reframe(Ok(vec![0u8; 15])).unwrap_err(), FelgensError::Truncated);
    let failed = std::io::Error::new(std::io::ErrorKind::InvalidData, "bad stream");
    assert_eq!(reframe(Err(failed)).unwrap_err(), FelgensError::DecompressionFailure);
}

// ---- control frames ----

#[test]
fn a_control_frame_is_read_as_a_hot_count() {
    // the encoder writes version tag 1: "hell" is 0x68656c6c
    assert_eq!(build_pack(&encode("hello", 7)), Ok(strings(&["{\"count\": 1751477356}"])));
}

#[test]
fn a_control_frame_of_fewer_than_four_bytes_does_not_decode() {
    assert_eq!(build_pack(&encode("abc", 2)), Err(FelgensError::Truncated));
    assert_eq!(build_pack(&encode("", 2)), Err(FelgensError::Truncated));
}

#[test]
fn the_one_message_that_survives_its_own_control_frame() {
    // `{"co` is 0x7b22636f
    let s = "{\"count\": 2065851247}";
    assert_eq!(build_pack(&encode(s, 0)), Ok(strings(&[s])));
}
