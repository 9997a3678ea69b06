//! A lossy, incremental UTF-8 decoder for text that arrives in fragments.

use crate::trusted::{buffer_as_slice, buffer_is_empty, buffer_split, buffered, str_from_utf8};
use tokio_util::bytes::BytesMut;
use vstd::prelude::*;
use vstd::slice::slice_subrange;
use vstd::string::*;
use vstd::utf8::*;

verus! {

/// The stand-in for bytes that cannot be decoded, U+FFFD.
pub const REPLACEMENT_CHARACTER: char = '\u{FFFD}';

/// True when `n` is the length of the longest prefix of `bytes` that is
/// well-formed UTF-8.
pub open spec fn is_valid_up_to(bytes: Seq<u8>, n: int) -> bool {
    &&& 0 <= n <= bytes.len()
    &&& valid_utf8(bytes.subrange(0, n))
    &&& forall|m: int| n < m <= bytes.len() ==> !valid_utf8(#[trigger] bytes.subrange(0, m))
}

/// The length of the longest prefix of `bytes` that is well-formed UTF-8.
pub open spec fn valid_up_to(bytes: Seq<u8>) -> int {
    choose|n: int| is_valid_up_to(bytes, n)
}

/// What a decoder holds after some bytes, and the text it gave for them.
pub struct Decoded {
    /// The bytes of a character that is not complete yet.
    pub pending: Seq<u8>,
    /// The text produced.
    pub text: Seq<char>,
}

/// Takes `bytes` one at a time into the pending bytes. Whenever the pending
/// bytes become well-formed UTF-8 their character is produced; whenever four
/// are held that are not, one replacement character is produced. Either way
/// the pending bytes start over.
pub open spec fn absorb(pending: Seq<u8>, bytes: Seq<u8>) -> Decoded
    decreases bytes.len(),
{
    if bytes.len() == 0 {
        Decoded { pending, text: Seq::empty() }
    } else {
        let held = pending.push(bytes[0]);
        let rest = bytes.subrange(1, bytes.len() as int);
        if valid_utf8(held) {
            let after = absorb(Seq::empty(), rest);
            Decoded { pending: after.pending, text: decode_utf8(held) + after.text }
        } else if held.len() >= 4 {
            let after = absorb(Seq::empty(), rest);
            Decoded { pending: after.pending, text: seq![REPLACEMENT_CHARACTER] + after.text }
        } else {
            absorb(held, rest)
        }
    }
}

/// The replacement character that stands for pending bytes which the next
/// text shows to be unfinishable; nothing when no byte is pending.
pub open spec fn flushed(pending: Seq<u8>) -> Seq<char> {
    if pending.len() > 0 {
        seq![REPLACEMENT_CHARACTER]
    } else {
        Seq::empty()
    }
}

/// One call of the decoder on `chunk`, with `pending` held from before.
///
/// An empty chunk changes nothing. Where the chunk starts with well-formed
/// UTF-8, pending bytes are given up for one replacement character, the
/// longest well-formed prefix is decoded, and what is left is absorbed byte
/// by byte. Where it does not, the whole chunk is absorbed after the pending
/// bytes.
pub open spec fn decode_step(pending: Seq<u8>, chunk: Seq<u8>) -> Decoded {
    if chunk.len() == 0 {
        Decoded { pending, text: Seq::empty() }
    } else {
        let n = valid_up_to(chunk);
        if n > 0 {
            let after = absorb(Seq::empty(), chunk.subrange(n, chunk.len() as int));
            Decoded {
                pending: after.pending,
                text: flushed(pending) + decode_utf8(chunk.subrange(0, n)) + after.text,
            }
        } else {
            absorb(pending, chunk)
        }
    }
}

/// The longest well-formed prefix is unique.
pub proof fn lemma_valid_up_to_unique(bytes: Seq<u8>, n: int)
    requires
        is_valid_up_to(bytes, n),
    ensures
        valid_up_to(bytes) == n,
{
    let c = valid_up_to(bytes);
    assert(is_valid_up_to(bytes, c));
    if c < n {
        assert(!valid_utf8(bytes.subrange(0, n)));
    } else if n < c {
        assert(!valid_utf8(bytes.subrange(0, c)));
    }
}

/// A lossy string decoder that replaces what cannot be decoded with
/// [`REPLACEMENT_CHARACTER`].
pub struct StringDecoder {
    /// An incomplete `char` being decoded from the stream: how many of its
    /// bytes are held, and the bytes. A `char` has at most four bytes.
    incomplete: (usize, [u8; 4]),
}

impl StringDecoder {
    #[verifier::type_invariant]
    spec fn inv(self) -> bool {
        self.incomplete.0 < 4
    }

    /// The bytes held of a character that is not complete yet.
    pub closed spec fn pending(self) -> Seq<u8> {
        self.incomplete.1@.subrange(0, self.incomplete.0 as int)
    }

    /// A decoder that holds no byte.
    pub fn new() -> (decoder: StringDecoder)
        ensures
            decoder.pending() == Seq::<u8>::empty(),
    {
        let decoder = StringDecoder { incomplete: (0, [0u8; 4]) };
        assert(decoder.pending() =~= Seq::<u8>::empty());
        decoder
    }

    /// Decodes one chunk of the stream.
    ///
    /// Returns the text that this chunk completes, or `None` when it
    /// completes none. Every byte of the chunk is taken: into the text, into
    /// a replacement character, or into the pending bytes, of which there
    /// are never more than three.
    pub fn decode_chunk(&mut self, chunk: &[u8]) -> (text: Option<String>)
        ensures
            final(self).pending() == decode_step(old(self).pending(), chunk@).pending,
            final(self).pending().len() < 4,
            match text {
                Some(t) => t@.len() > 0 && t@ == decode_step(old(self).pending(), chunk@).text,
                None => decode_step(old(self).pending(), chunk@).text.len() == 0,
            },
    {
        proof {
            use_type_invariant(&*self);
        }
        if chunk.len() == 0 {
            return None;
        }
        let (mut held, buf) = self.incomplete;
        let mut out = String::new();
        let mut pos: usize = 0;
        match str_from_utf8(chunk) {
            Ok(s) => {
                proof {
                    assert(chunk@.subrange(0, chunk@.len() as int) == chunk@);
                    lemma_valid_up_to_unique(chunk@, chunk@.len() as int);
                }
                if held > 0 {
                    out.append(replacement_str());
                    held = 0;
                }
                out.append(s);
                pos = chunk.len();
            },
            Err(n) => {
                proof {
                    lemma_valid_up_to_unique(chunk@, n as int);
                }
                if n > 0 {
                    if held > 0 {
                        out.append(replacement_str());
                        held = 0;
                    }
                    match str_from_utf8(slice_subrange(chunk, 0, n)) {
                        Ok(s) => {
                            out.append(s);
                        },
                        Err(_) => {
                            // The prefix is well-formed.
                            assert(false);
                        },
                    }
                    pos = n;
                }
            },
        }
        proof {
            if pos > 0 {
                assert(buf@.subrange(0, held as int) == Seq::<u8>::empty());
                assert(out@ == flushed(old(self).pending()) + decode_utf8(
                    chunk@.subrange(0, pos as int),
                ));
            } else {
                assert(out@ == Seq::<char>::empty());
                assert(chunk@.subrange(0, chunk@.len() as int) == chunk@);
            }
        }
        let (held, buf) = absorb_bytes(held, buf, slice_subrange(chunk, pos, chunk.len()), &mut out);
        self.incomplete = (held, buf);
        if out.as_str().is_empty() {
            None
        } else {
            Some(out)
        }
    }

    /// Decodes what `src` holds and leaves it empty: [`Self::decode_chunk`]
    /// on the bytes of the buffer.
    pub fn decode(&mut self, src: &mut BytesMut) -> (text: Option<String>)
        ensures
            buffered(*final(src)).len() == 0,
            final(self).pending() == decode_step(old(self).pending(), buffered(*old(src))).pending,
            final(self).pending().len() < 4,
            match text {
                Some(t) => t@.len() > 0 && t@ == decode_step(
                    old(self).pending(),
                    buffered(*old(src)),
                ).text,
                None => decode_step(old(self).pending(), buffered(*old(src))).text.len() == 0,
            },
    {
        proof {
            use_type_invariant(&*self);
        }
        if buffer_is_empty(src) {
            return None;
        }
        let chunk = buffer_split(src);
        self.decode_chunk(buffer_as_slice(&chunk))
    }
}

/// Takes `bytes` one at a time into the `held` bytes of `buf`, and appends to
/// `out` what they complete.
fn absorb_bytes(held: usize, buf: [u8; 4], bytes: &[u8], out: &mut String) -> (now: (
    usize,
    [u8; 4],
))
    requires
        held < 4,
    ensures
        now.0 < 4,
        now.1@.subrange(0, now.0 as int) == absorb(buf@.subrange(0, held as int), bytes@).pending,
        final(out)@ == old(out)@ + absorb(buf@.subrange(0, held as int), bytes@).text,
{
    let ghost whole = absorb(buf@.subrange(0, held as int), bytes@);
    let ghost given = out@;
    let mut held = held;
    let mut buf = buf;
    let mut pos: usize = 0;
    assert(bytes@.subrange(0, bytes@.len() as int) == bytes@);
    assert(out@ + whole.text == given + whole.text);
    while pos < bytes.len()
        invariant
            held < 4,
            pos <= bytes.len(),
            whole.pending == absorb(
                buf@.subrange(0, held as int),
                bytes@.subrange(pos as int, bytes@.len() as int),
            ).pending,
            given + whole.text == out@ + absorb(
                buf@.subrange(0, held as int),
                bytes@.subrange(pos as int, bytes@.len() as int),
            ).text,
        decreases bytes.len() - pos,
    {
        let ghost pending = buf@.subrange(0, held as int);
        let ghost tail = bytes@.subrange(pos as int, bytes@.len() as int);
        let ghost before = out@;
        buf[held] = bytes[pos];
        held = held + 1;
        pos = pos + 1;
        let ghost taken = pending.push(tail[0]);
        let ghost rest = tail.subrange(1, tail.len() as int);
        proof {
            assert(buf@.subrange(0, held as int) == taken);
            assert(bytes@.subrange(pos as int, bytes@.len() as int) == rest);
        }
        match str_from_utf8(slice_subrange(buf.as_slice(), 0, held)) {
            Ok(s) => {
                out.append(s);
                held = 0;
                proof {
                    assert(buf@.subrange(0, 0) == Seq::<u8>::empty());
                    assert(absorb(pending, tail).text == decode_utf8(taken) + absorb(
                        Seq::empty(),
                        rest,
                    ).text);
                    assert(out@ + absorb(Seq::empty(), rest).text == before + absorb(
                        pending,
                        tail,
                    ).text);
                }
            },
            Err(_) => {
                if held == 4 {
                    out.append(replacement_str());
                    held = 0;
                    proof {
                        assert(buf@.subrange(0, 0) == Seq::<u8>::empty());
                        assert(absorb(pending, tail).text == seq![REPLACEMENT_CHARACTER] + absorb(
                            Seq::empty(),
                            rest,
                        ).text);
                        assert(out@ + absorb(Seq::empty(), rest).text == before + absorb(
                            pending,
                            tail,
                        ).text);
                    }
                } else {
                    assert(absorb(pending, tail) == absorb(taken, rest));
                }
            },
        }
    }
    assert(bytes@.subrange(pos as int, bytes@.len() as int) == Seq::<u8>::empty());
    (held, buf)
}

/// The replacement character as a string.
fn replacement_str() -> (s: &'static str)
    ensures
        s@ == seq![REPLACEMENT_CHARACTER],
{
    proof {
        reveal_strlit("\u{FFFD}");
    }
    let s = "\u{FFFD}";
    assert(s@ =~= seq![REPLACEMENT_CHARACTER]);
    s
}

} // verus!
