use serial_monitor::string_decoder::{StringDecoder, REPLACEMENT_CHARACTER};
use tokio_util::bytes::BytesMut;

fn feed(decoder: &mut StringDecoder, pieces: &[&[u8]]) -> String {
    let mut all = String::new();
    for piece in pieces {
        if let Some(text) = decoder.decode_chunk(piece) {
            all.push_str(&text);
        }
    }
    all
}

fn in_pieces_of(bytes: &[u8], size: usize) -> Vec<&[u8]> {
    bytes.chunks(size).collect()
}

#[test]
fn decodes_plain_text() {
    let mut decoder = StringDecoder::new();
    assert_eq!(decoder.decode_chunk(b"hello"), Some(String::from("hello")));
}

#[test]
fn empty_chunk_gives_nothing() {
    let mut decoder = StringDecoder::new();
    assert_eq!(decoder.decode_chunk(b""), None);
    assert_eq!(decoder.decode_chunk(b"a"), Some(String::from("a")));
}

#[test]
fn empty_chunk_keeps_what_is_pending() {
    let mut decoder = StringDecoder::new();
    assert_eq!(decoder.decode_chunk(&[0xe2, 0x82]), None);
    assert_eq!(decoder.decode_chunk(b""), None);
    assert_eq!(decoder.decode_chunk(&[0xac]), Some(String::from("\u{20ac}")));
}

#[test]
fn round_trip_byte_by_byte() {
    let text = "h\u{e9}llo w\u{f6}rld \u{20ac} \u{1f600}!";
    let bytes = text.as_bytes();
    let mut decoder = StringDecoder::new();
    assert_eq!(feed(&mut decoder, &in_pieces_of(bytes, 1)), text);
    assert_eq!(decoder.decode_chunk(b"z"), Some(String::from("z")));
}

#[test]
fn round_trip_in_pieces_of_every_size() {
    let text = "\u{1f600}a\u{20ac}\u{e9}\u{1f600}\u{1f600}bc\u{7ff}\u{800}\u{ffff}\u{10000}\u{10ffff}";
    let bytes = text.as_bytes();
    for size in 1..=bytes.len() {
        let mut decoder = StringDecoder::new();
        assert_eq!(feed(&mut decoder, &in_pieces_of(bytes, size)), text);
    }
}

#[test]
fn round_trip_with_one_cut_anywhere() {
    let text = "a\u{e9}\u{20ac}\u{1f600}z";
    let bytes = text.as_bytes();
    for cut in 0..=bytes.len() {
        let mut decoder = StringDecoder::new();
        let pieces: [&[u8]; 2] = [&bytes[..cut], &bytes[cut..]];
        assert_eq!(feed(&mut decoder, &pieces), text);
    }
}

#[test]
fn character_split_over_two_chunks() {
    let mut decoder = StringDecoder::new();
    assert_eq!(decoder.decode_chunk(&[0x61, 0xc3]), Some(String::from("a")));
    assert_eq!(decoder.decode_chunk(&[0xa9, 0x62]), Some(String::from("\u{e9}b")));
}

#[test]
fn one_invalid_byte_then_text() {
    let mut decoder = StringDecoder::new();
    assert_eq!(decoder.decode_chunk(&[0xff]), None);
    assert_eq!(decoder.decode_chunk(b"a"), Some(String::from("\u{fffd}a")));
    assert_eq!(decoder.decode_chunk(b"b"), Some(String::from("b")));
}

#[test]
fn invalid_runs_of_each_length_give_one_replacement() {
    for k in 1..=4usize {
        let run = vec![0xffu8; k];
        let mut decoder = StringDecoder::new();
        let mut all = String::new();
        if let Some(text) = decoder.decode_chunk(&run) {
            all.push_str(&text);
        }
        if let Some(text) = decoder.decode_chunk("\u{e9}".as_bytes()) {
            all.push_str(&text);
        }
        assert_eq!(all, "\u{fffd}\u{e9}");
    }
}

#[test]
fn invalid_run_in_pieces_gives_one_replacement() {
    let mut decoder = StringDecoder::new();
    let pieces: [&[u8]; 5] = [&[0x80], &[], &[0xbf, 0xfe], &[0xff], b"ok"];
    assert_eq!(feed(&mut decoder, &pieces), "\u{fffd}ok");
}

#[test]
fn four_invalid_bytes_are_replaced_at_once() {
    let mut decoder = StringDecoder::new();
    assert_eq!(
        decoder.decode_chunk(&[0xff, 0xfe, 0xfd, 0xfc]),
        Some(REPLACEMENT_CHARACTER.to_string())
    );
    assert_eq!(decoder.decode_chunk(b"a"), Some(String::from("a")));
}

#[test]
fn five_invalid_bytes_give_two_replacements() {
    let mut decoder = StringDecoder::new();
    assert_eq!(
        decoder.decode_chunk(&[0xff, 0xfe, 0xfd, 0xfc, 0xfb]),
        Some(String::from("\u{fffd}"))
    );
    assert_eq!(decoder.decode_chunk(b"a"), Some(String::from("\u{fffd}a")));
}

#[test]
fn unfinished_character_is_given_up_for_text() {
    let mut decoder = StringDecoder::new();
    assert_eq!(decoder.decode_chunk(&[0xe2, 0x82]), None);
    assert_eq!(decoder.decode_chunk(b"ok"), Some(String::from("\u{fffd}ok")));
}

#[test]
fn valid_prefix_then_invalid_tail() {
    let mut decoder = StringDecoder::new();
    assert_eq!(decoder.decode_chunk(&[0x61, 0x62, 0xff]), Some(String::from("ab")));
    assert_eq!(decoder.decode_chunk(b"c"), Some(String::from("\u{fffd}c")));
}

#[test]
fn pending_bytes_are_flushed_before_a_valid_prefix() {
    let mut decoder = StringDecoder::new();
    assert_eq!(decoder.decode_chunk(&[0xc3]), None);
    assert_eq!(decoder.decode_chunk(&[0x61, 0xff]), Some(String::from("\u{fffd}a")));
    assert_eq!(decoder.decode_chunk(b"b"), Some(String::from("\u{fffd}b")));
}

#[test]
fn text_behind_an_invalid_byte_in_one_chunk_is_held() {
    let mut decoder = StringDecoder::new();
    assert_eq!(decoder.decode_chunk(&[0xff, 0x61]), None);
    assert_eq!(decoder.decode_chunk(b"b"), Some(String::from("\u{fffd}b")));
}

#[test]
fn tail_is_taken_byte_by_byte() {
    let mut decoder = StringDecoder::new();
    // The first byte opens a character of two bytes that the second does not
    // continue; four bytes that are no character give one replacement, and
    // the rest starts over.
    assert_eq!(
        decoder.decode_chunk(&[0xc3, 0x28, 0x61, 0x62, 0x63, 0x64]),
        Some(String::from("\u{fffd}cd"))
    );
}

#[test]
fn overlong_and_surrogate_encodings_are_not_text() {
    let mut decoder = StringDecoder::new();
    assert_eq!(decoder.decode_chunk(&[0xc0, 0x80]), None);
    assert_eq!(decoder.decode_chunk(b"x"), Some(String::from("\u{fffd}x")));
    assert_eq!(decoder.decode_chunk(&[0xed, 0xa0, 0x80]), None);
    assert_eq!(decoder.decode_chunk(b"y"), Some(String::from("\u{fffd}y")));
}

#[test]
fn decode_empties_the_buffer() {
    let mut decoder = StringDecoder::new();
    let mut src = BytesMut::from(&b"hi \xe2\x82"[..]);
    assert_eq!(decoder.decode(&mut src), Some(String::from("hi ")));
    assert!(src.is_empty());
    let mut src = BytesMut::from(&b"\xac!"[..]);
    assert_eq!(decoder.decode(&mut src), Some(String::from("\u{20ac}!")));
    assert!(src.is_empty());
}

#[test]
fn decode_of_an_empty_buffer_gives_nothing() {
    let mut decoder = StringDecoder::new();
    let mut src = BytesMut::new();
    assert_eq!(decoder.decode(&mut src), None);
    assert!(src.is_empty());
}

#[test]
fn decode_agrees_with_decode_chunk() {
    let inputs: [&[u8]; 6] = [b"abc", &[0xff], &[0x61, 0xf0, 0x9f], &[0x98, 0x80], &[0xe2], b"z"];
    let mut by_chunk = StringDecoder::new();
    let mut by_buffer = StringDecoder::new();
    for input in inputs {
        let mut src = BytesMut::from(input);
        assert_eq!(by_buffer.decode(&mut src), by_chunk.decode_chunk(input));
    }
}

#[test]
fn a_run_that_fills_the_buffer_may_share_a_chunk_with_text() {
    let mut decoder = StringDecoder::new();
    assert_eq!(
        decoder.decode_chunk(&[0xff, 0xfe, 0xfd, 0xfc, 0x61, 0x62]),
        Some(String::from("\u{fffd}ab"))
    );
    let mut decoder = StringDecoder::new();
    let pieces: [&[u8]; 3] = [&[0xff, 0xfe], &[0xfd, 0xfc, 0xc3], &[0xa9]];
    assert_eq!(feed(&mut decoder, &pieces), "\u{fffd}\u{e9}");
}

#[test]
fn text_behind_a_run_may_come_in_pieces() {
    let mut decoder = StringDecoder::new();
    assert_eq!(decoder.decode_chunk(&[0x80, 0x80]), None);
    assert_eq!(decoder.decode_chunk(&[0x61, 0xc3]), Some(String::from("\u{fffd}a")));
    assert_eq!(decoder.decode_chunk(&[0xa9]), Some(String::from("\u{e9}")));
    assert_eq!(decoder.decode_chunk(&[]), None);
    assert_eq!(decoder.decode_chunk(b"!"), Some(String::from("!")));
}
