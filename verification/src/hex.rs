//! A dump of bytes for diagnostics: each byte in hexadecimal, then a form
//! that is easier to read.

use crate::trusted::string_push;
use vstd::prelude::*;
use vstd::string::*;

verus! {

/// The hexadecimal digit of a value below sixteen, in lower case.
pub open spec fn hex_digit(n: int) -> char {
    if n < 10 {
        (0x30 + n) as char
    } else {
        (0x61 + n - 10) as char
    }
}

/// A byte as two hexadecimal digits and a space.
pub open spec fn hex_of_byte(byte: u8) -> Seq<char> {
    seq![hex_digit(byte as int / 16), hex_digit(byte as int % 16), ' ']
}

/// All bytes in hexadecimal, a space after each.
pub open spec fn hex_part(bytes: Seq<u8>) -> Seq<char>
    decreases bytes.len(),
{
    if bytes.len() == 0 {
        Seq::empty()
    } else {
        hex_part(bytes.drop_last()) + hex_of_byte(bytes.last())
    }
}

/// `text`, with a space after it unless it is empty.
pub open spec fn spaced(text: Seq<char>) -> Seq<char> {
    if text.len() > 0 {
        text.push(' ')
    } else {
        text
    }
}

/// `text` with the readable form of one more byte: `ESC` for the escape
/// byte and `Ctrl-` with its letter for any other control byte, each set off
/// by a space from what stands before; a dot for a byte above `~`; the
/// character itself otherwise.
pub open spec fn ascii_with(text: Seq<char>, byte: u8) -> Seq<char> {
    if byte < 0x20 {
        if byte == 0x1b {
            spaced(text) + seq!['E', 'S', 'C']
        } else {
            spaced(text) + seq!['C', 't', 'r', 'l', '-', (byte + 0x40) as char]
        }
    } else if byte > 0x7e {
        text.push('.')
    } else {
        text.push(byte as char)
    }
}

/// The readable form of all bytes.
pub open spec fn ascii_part(bytes: Seq<u8>) -> Seq<char>
    decreases bytes.len(),
{
    if bytes.len() == 0 {
        Seq::empty()
    } else {
        ascii_with(ascii_part(bytes.drop_last()), bytes.last())
    }
}

/// The dump of `bytes`: the hexadecimal part, a colon and a space, the
/// readable part.
pub open spec fn hex_dump(bytes: Seq<u8>) -> Seq<char> {
    hex_part(bytes) + seq![':', ' '] + ascii_part(bytes)
}

fn hex_digit_of(n: u8) -> (c: char)
    requires
        n < 16,
    ensures
        c == hex_digit(n as int),
{
    if n < 10 {
        (0x30 + n) as char
    } else {
        (0x61 + n - 10) as char
    }
}

/// Appends the two hexadecimal digits of `byte` to `out`.
pub fn push_hex_byte(out: &mut String, byte: u8)
    ensures
        final(out)@ == old(out)@ + seq![hex_digit(byte as int / 16), hex_digit(byte as int % 16)],
{
    string_push(out, hex_digit_of(byte / 16));
    string_push(out, hex_digit_of(byte % 16));
    assert(out@ =~= old(out)@ + seq![
        hex_digit(byte as int / 16),
        hex_digit(byte as int % 16),
    ]);
}

/// Converts bytes into a string of each byte in hexadecimal, followed by a
/// more readable variant.
pub fn hex_str(bytes: &[u8]) -> (dump: String)
    ensures
        dump@ == hex_dump(bytes@),
{
    let mut hex = String::new();
    let mut ascii = String::new();
    let mut i: usize = 0;
    assert(bytes@.subrange(0, 0) =~= Seq::<u8>::empty());
    while i < bytes.len()
        invariant
            i <= bytes.len(),
            hex@ == hex_part(bytes@.subrange(0, i as int)),
            ascii@ == ascii_part(bytes@.subrange(0, i as int)),
        decreases bytes.len() - i,
    {
        let byte = bytes[i];
        let ghost before = bytes@.subrange(0, i as int);
        let ghost now = bytes@.subrange(0, i + 1);
        let ghost hex_before = hex@;
        let ghost ascii_before = ascii@;
        assert(now.drop_last() =~= before);
        assert(now.last() == byte);
        push_hex_byte(&mut hex, byte);
        string_push(&mut hex, ' ');
        assert(hex@ =~= hex_before + hex_of_byte(byte));
        if byte < 0x20 {
            if !ascii.as_str().is_empty() {
                string_push(&mut ascii, ' ');
            }
            if byte == 0x1b {
                proof {
                    reveal_strlit("ESC");
                }
                ascii.append("ESC");
                assert(ascii@ =~= spaced(ascii_before) + seq!['E', 'S', 'C']);
            } else {
                proof {
                    reveal_strlit("Ctrl-");
                }
                ascii.append("Ctrl-");
                string_push(&mut ascii, (byte + 0x40) as char);
                assert(ascii@ =~= spaced(ascii_before) + seq![
                    'C',
                    't',
                    'r',
                    'l',
                    '-',
                    (byte + 0x40) as char,
                ]);
            }
        } else if byte > 0x7e {
            string_push(&mut ascii, '.');
        } else {
            string_push(&mut ascii, byte as char);
        }
        i = i + 1;
    }
    assert(bytes@.subrange(0, i as int) =~= bytes@);
    string_push(&mut hex, ':');
    string_push(&mut hex, ' ');
    hex.append(ascii.as_str());
    assert(hex@ =~= hex_dump(bytes@));
    hex
}

} // verus!
