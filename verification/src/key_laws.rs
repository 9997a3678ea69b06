//! What holds of the bytes that keys send.

use crate::config::Eol;
use crate::key::{control_bytes, echo_text, key_bytes, KeyCode, KeyEvent};
use vstd::prelude::*;
use vstd::utf8::*;

verus! {

/// Bytes below `0x80` are well-formed UTF-8.
pub proof fn lemma_ascii_is_text(bytes: Seq<u8>)
    requires
        forall|i: int| 0 <= i < bytes.len() ==> bytes[i] < 0x80,
    ensures
        valid_utf8(bytes),
    decreases bytes.len(),
{
    if bytes.len() > 0 {
        let first = bytes[0];
        assert((first & 0x7f) as u32 <= 0x7f) by (bit_vector);
        assert(valid_first_scalar(bytes));
        let rest = pop_first_scalar(bytes);
        assert forall|i: int| 0 <= i < rest.len() implies rest[i] < 0x80 by {
            assert(rest[i] == bytes[i + 1]);
        }
        lemma_ascii_is_text(rest);
    }
}

/// The encoding of a character is well-formed UTF-8 and decodes to the
/// character.
pub proof fn lemma_char_is_text(ch: char)
    ensures
        valid_utf8(encode_scalar(ch as u32)),
        decode_utf8(encode_scalar(ch as u32)) == seq![ch],
{
    let one = seq![ch];
    encode_utf8_valid_utf8(one);
    encode_utf8_decode_utf8(one);
    reveal_with_fuel(encode_utf8, 2);
    assert(one.drop_first() =~= Seq::<char>::empty());
    assert(encode_utf8(one) =~= encode_scalar(ch as u32));
}

/// The control codes. With Control, a lowercase letter sends its place in
/// the alphabet, from `0x01` for `a` to `0x1a` for `z`; the space sends
/// `0x00`; the digits 4 to 7 send `0x1c` to `0x1f`.
pub proof fn lemma_control_codes(ch: char)
    ensures
        'a' <= ch <= 'z' ==> control_bytes(ch) == seq![(ch as u8 - 0x60) as u8],
        ch == ' ' ==> control_bytes(ch) == seq![0x00u8],
        '4' <= ch <= '7' ==> control_bytes(ch) == seq![(ch as u8 - 0x18) as u8],
{
    let code = ch as u8;
    if 'a' <= ch <= 'z' {
        assert(code & 0x1f == (code - 0x60) as u8) by (bit_vector)
            requires
                0x61 <= code <= 0x7a,
        ;
    }
    if ch == ' ' {
        assert(0x20u8 & 0x1f == 0x00u8) by (bit_vector);
    }
    if '4' <= ch <= '7' {
        let shifted = (code + 8) as u8;
        assert(shifted & 0x1f == (shifted - 0x20) as u8) by (bit_vector)
            requires
                0x3c <= shifted <= 0x3f,
        ;
    }
}

/// Whatever a key sends is well-formed UTF-8.
pub proof fn lemma_keys_send_text(key_event: KeyEvent, enter: Eol)
    ensures
        key_bytes(key_event, enter) matches Some(bytes) ==> valid_utf8(bytes),
{
    match key_bytes(key_event, enter) {
        Some(bytes) => {
            match key_event.code {
                KeyCode::Char(ch) => {
                    lemma_char_is_text(ch);
                    if key_event.modifiers.has_control() {
                        let low = ch as u8;
                        let high = ((ch as u8) + 8) as u8;
                        assert(low & 0x1f < 0x80 && high & 0x1f < 0x80) by (bit_vector);
                        if ('a' <= ch <= 'z') || ch == ' ' || ('4' <= ch <= '7') {
                            lemma_ascii_is_text(control_bytes(ch));
                        }
                    }
                },
                _ => {
                    lemma_ascii_is_text(bytes);
                },
            }
        },
        None => {},
    }
}

/// Echo fidelity. With echo on, whatever a key sends is also shown, and what
/// is shown is exactly the text that the bytes sent encode.
pub proof fn lemma_echo_fidelity(key_event: KeyEvent, enter: Eol)
    ensures
        key_bytes(key_event, enter) matches Some(bytes) ==> {
            &&& echo_text(bytes, true) == Some(decode_utf8(bytes))
            &&& encode_utf8(decode_utf8(bytes)) == bytes
        },
{
    lemma_keys_send_text(key_event, enter);
    match key_bytes(key_event, enter) {
        Some(bytes) => {
            decode_utf8_encode_utf8(bytes);
        },
        None => {},
    }
}

} // verus!
