//! What holds of the decoder over whole streams: text survives any
//! fragmentation, and damage stays where it is.

use crate::string_decoder::{
    absorb, decode_step, flushed, is_valid_up_to, lemma_valid_up_to_unique, valid_up_to, Decoded,
    REPLACEMENT_CHARACTER,
};
use vstd::prelude::*;
use vstd::utf8::*;

verus! {

/// Feeding `pieces` to the decoder one after the other: what it holds in the
/// end, and all the text it gave.
pub open spec fn decode_all(pending: Seq<u8>, pieces: Seq<Seq<u8>>) -> Decoded
    decreases pieces.len(),
{
    if pieces.len() == 0 {
        Decoded { pending, text: Seq::empty() }
    } else {
        let first = decode_step(pending, pieces[0]);
        let after = decode_all(first.pending, pieces.drop_first());
        Decoded { pending: after.pending, text: first.text + after.text }
    }
}

/// True when `pending` is nothing, or less than the whole first character of
/// `stream`.
pub open spec fn inside_first_char(pending: Seq<u8>, stream: Seq<u8>) -> bool {
    pending.len() == 0 || pending.len() < length_of_first_scalar(stream)
}

/// True when no character starts at any byte of `run`: from none of its
/// positions on do the bytes of `run` begin with a well-formed character.
pub open spec fn no_char_starts(run: Seq<u8>) -> bool {
    forall|i: int|
        0 <= i < run.len() ==> !valid_first_scalar(#[trigger] run.subrange(i, run.len() as int))
}

/// What is pending after the first `taken` bytes of a run that holds no
/// character: those bytes, until the fourth one empties the buffer.
pub open spec fn held_of_run(run: Seq<u8>, taken: int) -> Seq<u8> {
    if taken < 4 {
        run.subrange(0, taken)
    } else {
        Seq::empty()
    }
}

/// Some prefix of `bytes` is the longest well-formed one.
pub proof fn lemma_valid_up_to_exists(bytes: Seq<u8>)
    ensures
        is_valid_up_to(bytes, valid_up_to(bytes)),
{
    lemma_valid_up_to_below(bytes, bytes.len() as int);
}

proof fn lemma_valid_up_to_below(bytes: Seq<u8>, k: int)
    requires
        0 <= k <= bytes.len(),
        forall|m: int| k < m <= bytes.len() ==> !valid_utf8(#[trigger] bytes.subrange(0, m)),
    ensures
        exists|n: int| is_valid_up_to(bytes, n),
    decreases k,
{
    if valid_utf8(bytes.subrange(0, k)) {
        assert(is_valid_up_to(bytes, k));
    } else {
        assert(k > 0) by {
            assert(bytes.subrange(0, 0) =~= Seq::<u8>::empty());
        }
        lemma_valid_up_to_below(bytes, k - 1);
    }
}

/// The bytes of the first character of `stream`: no shorter prefix is
/// well-formed, and they decode to that character alone.
pub proof fn lemma_first_char(stream: Seq<u8>)
    requires
        valid_first_scalar(stream),
    ensures
        1 <= length_of_first_scalar(stream) <= 4,
        length_of_first_scalar(stream) <= stream.len(),
        forall|k: int|
            0 < k < length_of_first_scalar(stream) ==> !valid_utf8(#[trigger] stream.subrange(0, k)),
        valid_utf8(take_first_scalar(stream)),
        decode_utf8(take_first_scalar(stream)) == seq![decode_first_scalar(stream) as char],
        forall|k: int|
            0 < k < length_of_first_scalar(stream) ==> is_continuation_byte(#[trigger] stream[k]),
{
    let w = length_of_first_scalar(stream);
    assert forall|k: int| 0 < k < w implies !valid_utf8(#[trigger] stream.subrange(0, k)) by {
        let short = stream.subrange(0, k);
        assert(short[0] == stream[0]);
        assert(!valid_first_scalar(short));
    }
    let first = take_first_scalar(stream);
    assert(first[0] == stream[0]);
    if w >= 2 {
        assert(first[1] == stream[1]);
    }
    if w >= 3 {
        assert(first[2] == stream[2]);
    }
    if w >= 4 {
        assert(first[3] == stream[3]);
    }
    assert(valid_first_scalar(first));
    assert(decode_first_scalar(first) == decode_first_scalar(stream));
    assert(pop_first_scalar(first) =~= Seq::<u8>::empty());
    reveal_with_fuel(valid_utf8, 2);
    assert(valid_utf8(first));
    reveal_with_fuel(decode_utf8, 2);
    assert(decode_utf8(first) =~= seq![decode_first_scalar(stream) as char]);
}

/// Bytes that start with a continuation byte have no well-formed prefix but
/// the empty one.
pub proof fn lemma_continuation_start(bytes: Seq<u8>)
    requires
        bytes.len() > 0,
        is_continuation_byte(bytes[0]),
    ensures
        valid_up_to(bytes) == 0,
{
    assert(bytes.subrange(0, 0) =~= Seq::<u8>::empty());
    assert forall|m: int| 0 < m <= bytes.len() implies !valid_utf8(
        #[trigger] bytes.subrange(0, m),
    ) by {
        assert(bytes.subrange(0, m)[0] == bytes[0]);
    }
    lemma_valid_up_to_unique(bytes, 0);
}

/// Absorbing two runs of bytes one after the other is absorbing them joined.
pub proof fn lemma_absorb_concat(pending: Seq<u8>, a: Seq<u8>, b: Seq<u8>)
    ensures
        absorb(pending, a + b) == (Decoded {
            pending: absorb(absorb(pending, a).pending, b).pending,
            text: absorb(pending, a).text + absorb(absorb(pending, a).pending, b).text,
        }),
    decreases a.len(),
{
    if a.len() == 0 {
        assert(a + b =~= b);
        assert(Seq::<char>::empty() + absorb(pending, b).text =~= absorb(pending, b).text);
    } else {
        let held = pending.push(a[0]);
        let rest = a.subrange(1, a.len() as int);
        assert((a + b)[0] == a[0]);
        assert((a + b).subrange(1, (a + b).len() as int) =~= rest + b);
        if valid_utf8(held) {
            lemma_absorb_concat(Seq::empty(), rest, b);
            let d1 = absorb(Seq::empty(), rest);
            let d2 = absorb(d1.pending, b);
            assert(decode_utf8(held) + (d1.text + d2.text) =~= (decode_utf8(held) + d1.text)
                + d2.text);
        } else if held.len() >= 4 {
            lemma_absorb_concat(Seq::empty(), rest, b);
            let d1 = absorb(Seq::empty(), rest);
            let d2 = absorb(d1.pending, b);
            assert(seq![REPLACEMENT_CHARACTER] + (d1.text + d2.text) =~= (seq![
                REPLACEMENT_CHARACTER,
            ] + d1.text) + d2.text);
        } else {
            lemma_absorb_concat(held, rest, b);
        }
    }
}

/// Inside a well-formed stream, absorbing a chunk gives the characters that
/// the chunk completes and keeps the bytes of the one that it leaves open.
pub proof fn lemma_absorb_valid(pending: Seq<u8>, chunk: Seq<u8>, rest: Seq<u8>)
    requires
        valid_utf8(pending + chunk + rest),
        inside_first_char(pending, pending + chunk + rest),
    ensures
        valid_utf8(absorb(pending, chunk).pending + rest),
        inside_first_char(absorb(pending, chunk).pending, absorb(pending, chunk).pending + rest),
        absorb(pending, chunk).text + decode_utf8(absorb(pending, chunk).pending + rest)
            == decode_utf8(pending + chunk + rest),
    decreases chunk.len(),
{
    let stream = pending + chunk + rest;
    if chunk.len() == 0 {
        assert(pending + rest =~= stream);
        assert(Seq::<char>::empty() + decode_utf8(stream) =~= decode_utf8(stream));
    } else {
        let held = pending.push(chunk[0]);
        let tail = chunk.subrange(1, chunk.len() as int);
        let w = length_of_first_scalar(stream);
        assert(stream.len() > 0);
        assert(valid_first_scalar(stream));
        lemma_first_char(stream);
        assert(held =~= stream.subrange(0, held.len() as int));
        if held.len() == w {
            let after = pop_first_scalar(stream);
            assert(Seq::<u8>::empty() + tail + rest =~= after);
            lemma_absorb_valid(Seq::empty(), tail, rest);
            let d = absorb(Seq::empty(), tail);
            assert(decode_utf8(stream) == seq![decode_first_scalar(stream) as char] + decode_utf8(
                after,
            ));
            assert((decode_utf8(held) + d.text) + decode_utf8(d.pending + rest) =~= decode_utf8(
                held,
            ) + (d.text + decode_utf8(d.pending + rest)));
        } else {
            assert(held + tail + rest =~= stream);
            lemma_absorb_valid(held, tail, rest);
        }
    }
}

/// A well-formed stream that nothing follows leaves nothing pending.
proof fn lemma_nothing_left(pending: Seq<u8>)
    requires
        valid_utf8(pending),
        inside_first_char(pending, pending),
    ensures
        pending.len() == 0,
{
    if pending.len() > 0 {
        assert(valid_first_scalar(pending));
    }
}

/// With nothing pending, a call of the decoder is the same as absorbing its
/// chunk byte by byte.
pub proof fn lemma_decode_step_from_empty(chunk: Seq<u8>)
    ensures
        decode_step(Seq::empty(), chunk) == absorb(Seq::empty(), chunk),
{
    if chunk.len() > 0 {
        lemma_valid_up_to_exists(chunk);
        let n = valid_up_to(chunk);
        if n > 0 {
            let a = chunk.subrange(0, n);
            let b = chunk.subrange(n, chunk.len() as int);
            assert(a + b =~= chunk);
            assert(Seq::<u8>::empty() + a + Seq::<u8>::empty() =~= a);
            lemma_absorb_valid(Seq::empty(), a, Seq::empty());
            let d = absorb(Seq::empty(), a);
            assert(d.pending + Seq::<u8>::empty() =~= d.pending);
            lemma_nothing_left(d.pending);
            assert(d.pending =~= Seq::<u8>::empty());
            assert(d.text + decode_utf8(Seq::<u8>::empty()) =~= d.text);
            lemma_absorb_concat(Seq::empty(), a, b);
            assert(flushed(Seq::<u8>::empty()) + decode_utf8(a) =~= decode_utf8(a));
        }
    }
}

/// Inside a well-formed stream, a call of the decoder is the same as
/// absorbing its chunk byte by byte.
pub proof fn lemma_decode_step_valid(pending: Seq<u8>, chunk: Seq<u8>, rest: Seq<u8>)
    requires
        valid_utf8(pending + chunk + rest),
        inside_first_char(pending, pending + chunk + rest),
    ensures
        decode_step(pending, chunk) == absorb(pending, chunk),
{
    let stream = pending + chunk + rest;
    if chunk.len() == 0 {
    } else if pending.len() == 0 {
        assert(pending =~= Seq::<u8>::empty());
        lemma_decode_step_from_empty(chunk);
    } else {
        assert(valid_first_scalar(stream));
        lemma_first_char(stream);
        assert(stream[pending.len() as int] == chunk[0]);
        lemma_continuation_start(chunk);
    }
}

/// Feeding the pieces of a well-formed stream gives the text of the stream
/// and leaves nothing pending.
pub proof fn lemma_decode_all_valid(pending: Seq<u8>, pieces: Seq<Seq<u8>>)
    requires
        valid_utf8(pending + pieces.flatten()),
        inside_first_char(pending, pending + pieces.flatten()),
    ensures
        decode_all(pending, pieces) == (Decoded {
            pending: Seq::empty(),
            text: decode_utf8(pending + pieces.flatten()),
        }),
    decreases pieces.len(),
{
    let stream = pending + pieces.flatten();
    if pieces.len() == 0 {
        assert(stream =~= pending);
        lemma_nothing_left(pending);
        assert(pending =~= Seq::<u8>::empty());
        assert(decode_utf8(stream) =~= Seq::<char>::empty());
    } else {
        let chunk = pieces[0];
        let rest = pieces.drop_first().flatten();
        assert(pieces.flatten() == chunk + rest);
        assert(pending + chunk + rest =~= stream);
        lemma_decode_step_valid(pending, chunk, rest);
        lemma_absorb_valid(pending, chunk, rest);
        let d = absorb(pending, chunk);
        lemma_decode_all_valid(d.pending, pieces.drop_first());
    }
}

/// Round trip. However the UTF-8 encoding of a text is cut into pieces, even
/// into single bytes, a decoder that holds nothing and is given the pieces in
/// order returns, piece by piece, exactly the text, and holds nothing in the
/// end.
pub proof fn lemma_decode_round_trip(text: Seq<char>, pieces: Seq<Seq<u8>>)
    requires
        pieces.flatten() == encode_utf8(text),
    ensures
        decode_all(Seq::empty(), pieces) == (Decoded { pending: Seq::empty(), text }),
{
    encode_utf8_valid_utf8(text);
    encode_utf8_decode_utf8(text);
    assert(Seq::<u8>::empty() + pieces.flatten() =~= pieces.flatten());
    lemma_decode_all_valid(Seq::empty(), pieces);
}

/// True when `pending` can be what a decoder holds between two calls: at
/// most three bytes, and none of their prefixes is well-formed UTF-8, so that
/// no character has been kept back.
pub open spec fn unresolved(pending: Seq<u8>) -> bool {
    &&& pending.len() < 4
    &&& forall|k: int| 0 < k <= pending.len() ==> !valid_utf8(#[trigger] pending.subrange(0, k))
}

/// Absorbing bytes keeps back no character.
pub proof fn lemma_absorb_unresolved(pending: Seq<u8>, bytes: Seq<u8>)
    requires
        unresolved(pending),
    ensures
        unresolved(absorb(pending, bytes).pending),
    decreases bytes.len(),
{
    if bytes.len() > 0 {
        let held = pending.push(bytes[0]);
        let rest = bytes.subrange(1, bytes.len() as int);
        if valid_utf8(held) || held.len() >= 4 {
            lemma_absorb_unresolved(Seq::empty(), rest);
        } else {
            assert forall|k: int| 0 < k <= held.len() implies !valid_utf8(
                #[trigger] held.subrange(0, k),
            ) by {
                if k < held.len() {
                    assert(held.subrange(0, k) =~= pending.subrange(0, k));
                } else {
                    assert(held.subrange(0, k) =~= held);
                }
            }
            lemma_absorb_unresolved(held, rest);
        }
    }
}

/// A decoder never keeps a character back: after every call it holds at most
/// three bytes, and no prefix of them is well-formed UTF-8.
pub proof fn lemma_decode_step_unresolved(pending: Seq<u8>, chunk: Seq<u8>)
    requires
        unresolved(pending),
    ensures
        unresolved(decode_step(pending, chunk).pending),
{
    if chunk.len() > 0 {
        let n = valid_up_to(chunk);
        if n > 0 {
            lemma_absorb_unresolved(Seq::empty(), chunk.subrange(n, chunk.len() as int));
        } else {
            lemma_absorb_unresolved(pending, chunk);
        }
    }
}

/// Bytes with a well-formed prefix that is not empty start with a character.
pub proof fn lemma_valid_prefix_starts_char(bytes: Seq<u8>, m: int)
    requires
        0 < m <= bytes.len(),
        valid_utf8(bytes.subrange(0, m)),
    ensures
        valid_first_scalar(bytes),
{
    let prefix = bytes.subrange(0, m);
    assert(valid_first_scalar(prefix));
    assert(prefix[0] == bytes[0]);
    if m >= 2 {
        assert(prefix[1] == bytes[1]);
    }
    if m >= 3 {
        assert(prefix[2] == bytes[2]);
    }
    if m >= 4 {
        assert(prefix[3] == bytes[3]);
    }
}

/// A chunk of well-formed text gives up what was pending for one replacement
/// character, and is returned whole.
pub proof fn lemma_decode_step_text(pending: Seq<u8>, chunk: Seq<u8>)
    requires
        chunk.len() > 0,
        valid_utf8(chunk),
    ensures
        decode_step(pending, chunk) == (Decoded {
            pending: Seq::empty(),
            text: flushed(pending) + decode_utf8(chunk),
        }),
{
    let n = chunk.len() as int;
    assert(chunk.subrange(0, n) =~= chunk);
    lemma_valid_up_to_unique(chunk, n);
    assert(chunk.subrange(n, n) =~= Seq::<u8>::empty());
    assert(flushed(pending) + decode_utf8(chunk) + Seq::<char>::empty() =~= flushed(pending)
        + decode_utf8(chunk));
}

/// Inside a run that starts no character, the bytes taken stay pending until
/// the fourth one turns them into one replacement character.
proof fn lemma_absorb_run(run: Seq<u8>, from: int, to: int)
    requires
        1 <= run.len() <= 4,
        !valid_first_scalar(run),
        0 <= from <= to <= run.len(),
        from < 4,
    ensures
        absorb(run.subrange(0, from), run.subrange(from, to)) == (Decoded {
            pending: held_of_run(run, to),
            text: if to == 4 {
                seq![REPLACEMENT_CHARACTER]
            } else {
                Seq::empty()
            },
        }),
    decreases to - from,
{
    let pending = run.subrange(0, from);
    let bytes = run.subrange(from, to);
    if from < to {
        let held = pending.push(bytes[0]);
        let rest = bytes.subrange(1, bytes.len() as int);
        assert(held =~= run.subrange(0, from + 1));
        assert(rest =~= run.subrange(from + 1, to));
        if valid_utf8(held) {
            lemma_valid_prefix_starts_char(run, from + 1);
        }
        assert(!valid_utf8(held));
        if from + 1 == 4 {
            assert(rest =~= Seq::<u8>::empty());
            assert(seq![REPLACEMENT_CHARACTER] + Seq::<char>::empty() =~= seq![
                REPLACEMENT_CHARACTER,
            ]);
            assert(absorb(Seq::empty(), rest) == (Decoded {
                pending: Seq::empty(),
                text: Seq::empty(),
            }));
        } else {
            lemma_absorb_run(run, from + 1, to);
            assert(absorb(pending, bytes) == absorb(held, rest));
        }
    } else {
        assert(bytes =~= Seq::<u8>::empty());
        assert(absorb(pending, bytes).pending == pending);
    }
}

/// Feeding pieces one after the other is feeding the first ones, then the
/// others.
pub proof fn lemma_decode_all_concat(pending: Seq<u8>, a: Seq<Seq<u8>>, b: Seq<Seq<u8>>)
    ensures
        decode_all(pending, a + b) == (Decoded {
            pending: decode_all(decode_all(pending, a).pending, b).pending,
            text: decode_all(pending, a).text + decode_all(decode_all(pending, a).pending, b).text,
        }),
    decreases a.len(),
{
    if a.len() == 0 {
        assert(a + b =~= b);
        assert(Seq::<char>::empty() + decode_all(pending, b).text =~= decode_all(pending, b).text);
    } else {
        let first = decode_step(pending, a[0]);
        assert((a + b)[0] == a[0]);
        assert((a + b).drop_first() =~= a.drop_first() + b);
        lemma_decode_all_concat(first.pending, a.drop_first(), b);
        let d1 = decode_all(first.pending, a.drop_first());
        let d2 = decode_all(d1.pending, b);
        assert(first.text + (d1.text + d2.text) =~= (first.text + d1.text) + d2.text);
    }
}

/// A chunk inside a run that starts no character has no well-formed prefix
/// but the empty one.
proof fn lemma_inside_run(stream: Seq<u8>, chunk: Seq<u8>)
    requires
        !valid_first_scalar(stream),
        chunk.len() <= stream.len(),
        chunk == stream.subrange(0, chunk.len() as int),
    ensures
        valid_up_to(chunk) == 0,
{
    assert(chunk.subrange(0, 0) =~= Seq::<u8>::empty());
    assert forall|m: int| 0 < m <= chunk.len() implies !valid_utf8(
        #[trigger] chunk.subrange(0, m),
    ) by {
        if valid_utf8(chunk.subrange(0, m)) {
            assert(chunk.subrange(0, m) =~= stream.subrange(0, m));
            lemma_valid_prefix_starts_char(stream, m);
        }
    }
    lemma_valid_up_to_unique(chunk, 0);
}

/// The pieces of a run that starts no character: its bytes stay pending
/// until the fourth one turns them into one replacement character.
proof fn lemma_decode_run(run: Seq<u8>, taken: int, pieces: Seq<Seq<u8>>)
    requires
        1 <= run.len() <= 4,
        no_char_starts(run),
        0 <= taken <= run.len(),
        pieces.flatten() == run.subrange(taken, run.len() as int),
    ensures
        decode_all(held_of_run(run, taken), pieces) == (Decoded {
            pending: held_of_run(run, run.len() as int),
            text: if taken < 4 && run.len() == 4 {
                seq![REPLACEMENT_CHARACTER]
            } else {
                Seq::empty()
            },
        }),
    decreases pieces.len(),
{
    let held = held_of_run(run, taken);
    if pieces.len() == 0 {
        assert(taken == run.len());
    } else {
        let chunk = pieces[0];
        let rest = pieces.drop_first();
        assert(pieces.flatten() == chunk + rest.flatten());
        let to = taken + chunk.len();
        assert(to <= run.len()) by {
            assert((chunk + rest.flatten()).len() == run.len() - taken);
        }
        assert(chunk =~= run.subrange(taken, to)) by {
            assert(chunk =~= (chunk + rest.flatten()).subrange(0, chunk.len() as int));
        }
        assert(rest.flatten() =~= run.subrange(to, run.len() as int)) by {
            assert(rest.flatten() =~= (chunk + rest.flatten()).subrange(
                chunk.len() as int,
                (chunk + rest.flatten()).len() as int,
            ));
        }
        if chunk.len() == 0 {
            lemma_decode_run(run, taken, rest);
            let after = decode_all(held, rest);
            assert(Seq::<char>::empty() + after.text =~= after.text);
        } else {
            let here = run.subrange(taken, run.len() as int);
            assert(chunk =~= here.subrange(0, chunk.len() as int));
            lemma_inside_run(here, chunk);
            assert(run.subrange(0, run.len() as int) =~= run);
            lemma_absorb_run(run, taken, to);
            lemma_decode_run(run, to, rest);
            let after = decode_all(held_of_run(run, to), rest);
            if to == 4 {
                assert(seq![REPLACEMENT_CHARACTER] + after.text =~= seq![REPLACEMENT_CHARACTER]);
            } else {
                assert(Seq::<char>::empty() + after.text =~= after.text);
            }
        }
    }
}

/// A chunk that starts with a character has a well-formed prefix that is not
/// empty.
pub proof fn lemma_char_start(chunk: Seq<u8>)
    requires
        valid_first_scalar(chunk),
    ensures
        valid_up_to(chunk) > 0,
{
    lemma_valid_up_to_exists(chunk);
    lemma_first_char(chunk);
    assert(take_first_scalar(chunk) == chunk.subrange(0, length_of_first_scalar(chunk)));
}

/// The pieces of a well-formed text, of which the first starts with a whole
/// character: what was pending is given up for one replacement character,
/// and the text is returned.
pub proof fn lemma_decode_text(pending: Seq<u8>, pieces: Seq<Seq<u8>>, text: Seq<char>)
    requires
        pieces.len() > 0,
        valid_first_scalar(pieces[0]),
        pieces.flatten() == encode_utf8(text),
    ensures
        decode_all(pending, pieces) == (Decoded {
            pending: Seq::empty(),
            text: flushed(pending) + text,
        }),
{
    let chunk = pieces[0];
    let rest = pieces.drop_first();
    let stream = encode_utf8(text);
    encode_utf8_valid_utf8(text);
    encode_utf8_decode_utf8(text);
    assert(pieces.flatten() == chunk + rest.flatten());
    assert(Seq::<u8>::empty() + chunk + rest.flatten() =~= stream);
    lemma_char_start(chunk);
    lemma_decode_step_from_empty(chunk);
    let n = valid_up_to(chunk);
    let tail = absorb(Seq::empty(), chunk.subrange(n, chunk.len() as int));
    let d = absorb(Seq::empty(), chunk);
    assert(d.text =~= decode_utf8(chunk.subrange(0, n)) + tail.text) by {
        assert(flushed(Seq::<u8>::empty()) + decode_utf8(chunk.subrange(0, n)) + tail.text
            =~= decode_utf8(chunk.subrange(0, n)) + tail.text);
    }
    assert(decode_step(pending, chunk).text =~= flushed(pending) + d.text);
    lemma_absorb_valid(Seq::empty(), chunk, rest.flatten());
    lemma_decode_all_valid(d.pending, rest);
    let after = decode_all(d.pending, rest);
    assert((flushed(pending) + d.text) + after.text =~= flushed(pending) + (d.text + after.text));
}

/// Damage containment. Take a run of one to four bytes at none of which a
/// character starts, cut into pieces in any way, and after it a well-formed
/// text, cut into pieces of which the first starts with a whole character. A
/// decoder that holds nothing and is given these pieces in order returns
/// exactly one replacement character for the whole run, then the text, and
/// holds nothing in the end.
pub proof fn lemma_decode_damage_contained(
    run_pieces: Seq<Seq<u8>>,
    text_pieces: Seq<Seq<u8>>,
    text: Seq<char>,
)
    requires
        1 <= run_pieces.flatten().len() <= 4,
        no_char_starts(run_pieces.flatten()),
        text_pieces.len() > 0,
        valid_first_scalar(text_pieces[0]),
        text_pieces.flatten() == encode_utf8(text),
    ensures
        decode_all(Seq::empty(), run_pieces + text_pieces) == (Decoded {
            pending: Seq::empty(),
            text: seq![REPLACEMENT_CHARACTER] + text,
        }),
{
    let run = run_pieces.flatten();
    assert(run.subrange(0, run.len() as int) =~= run);
    assert(held_of_run(run, 0) =~= Seq::<u8>::empty());
    lemma_decode_run(run, 0, run_pieces);
    let held = held_of_run(run, run.len() as int);
    lemma_decode_text(held, text_pieces, text);
    lemma_decode_all_concat(Seq::empty(), run_pieces, text_pieces);
    if run.len() == 4 {
        assert(seq![REPLACEMENT_CHARACTER] + (flushed(held) + text) =~= seq![
            REPLACEMENT_CHARACTER,
        ] + text);
    } else {
        assert(Seq::<char>::empty() + (flushed(held) + text) =~= seq![REPLACEMENT_CHARACTER]
            + text);
    }
}

/// No character starts inside a run of bytes that starts none, whatever
/// well-formed text follows the run.
proof fn lemma_run_before_text(run: Seq<u8>, from: int, stream: Seq<u8>)
    requires
        no_char_starts(run),
        0 <= from < run.len(),
        stream.len() > 0,
        valid_utf8(stream),
    ensures
        !valid_first_scalar(run.subrange(from, run.len() as int) + stream),
{
    let left = run.subrange(from, run.len() as int);
    let joined = left + stream;
    if valid_first_scalar(joined) {
        let w = length_of_first_scalar(joined);
        lemma_first_char(joined);
        if w <= left.len() {
            assert(left[0] == joined[0]);
            if w >= 2 {
                assert(left[1] == joined[1]);
            }
            if w >= 3 {
                assert(left[2] == joined[2]);
            }
            if w >= 4 {
                assert(left[3] == joined[3]);
            }
            assert(valid_first_scalar(left));
        } else {
            assert(joined[left.len() as int] == stream[0]);
            assert(is_continuation_byte(stream[0]));
            assert(valid_first_scalar(stream));
        }
    }
}

/// The pieces of a run of four bytes that starts no character and of the
/// text behind it, wherever the cuts are.
proof fn lemma_decode_full_run(run: Seq<u8>, taken: int, pieces: Seq<Seq<u8>>, text: Seq<char>)
    requires
        run.len() == 4,
        no_char_starts(run),
        0 <= taken < 4,
        text.len() > 0,
        pieces.flatten() == run.subrange(taken, 4) + encode_utf8(text),
    ensures
        decode_all(run.subrange(0, taken), pieces) == (Decoded {
            pending: Seq::empty(),
            text: seq![REPLACEMENT_CHARACTER] + text,
        }),
    decreases pieces.len(),
{
    let stream = encode_utf8(text);
    let left = run.subrange(taken, 4);
    let held = run.subrange(0, taken);
    encode_utf8_valid_utf8(text);
    encode_utf8_decode_utf8(text);
    assert(stream.len() > 0) by {
        assert(encode_scalar(text[0] as u32).len() > 0);
    }
    if pieces.len() > 0 {
        let chunk = pieces[0];
        let rest = pieces.drop_first();
        assert(pieces.flatten() == chunk + rest.flatten());
        assert(chunk =~= (left + stream).subrange(0, chunk.len() as int)) by {
            assert(chunk =~= (chunk + rest.flatten()).subrange(0, chunk.len() as int));
        }
        assert(rest.flatten() =~= (left + stream).subrange(
            chunk.len() as int,
            (left + stream).len() as int,
        )) by {
            assert(rest.flatten() =~= (chunk + rest.flatten()).subrange(
                chunk.len() as int,
                (chunk + rest.flatten()).len() as int,
            ));
        }
        if chunk.len() == 0 {
            assert(rest.flatten() =~= left + stream);
            lemma_decode_full_run(run, taken, rest, text);
            let after = decode_all(held, rest);
            assert(Seq::<char>::empty() + after.text =~= after.text);
        } else {
            lemma_run_before_text(run, taken, stream);
            lemma_inside_run(left + stream, chunk);
            assert(run.subrange(0, 4) =~= run);
            let to = taken + chunk.len();
            if to < 4 {
                assert(chunk =~= run.subrange(taken, to));
                assert(rest.flatten() =~= run.subrange(to, 4) + stream);
                lemma_absorb_run(run, taken, to);
                lemma_decode_full_run(run, to, rest, text);
                let after = decode_all(run.subrange(0, to), rest);
                assert(Seq::<char>::empty() + after.text =~= after.text);
            } else {
                let j = to - 4;
                let first = stream.subrange(0, j);
                let others = stream.subrange(j, stream.len() as int);
                assert(chunk =~= left + first);
                assert(rest.flatten() =~= others);
                lemma_absorb_concat(held, left, first);
                lemma_absorb_run(run, taken, 4);
                assert(Seq::<u8>::empty() + first + others =~= stream);
                lemma_absorb_valid(Seq::empty(), first, others);
                let d = absorb(Seq::empty(), first);
                lemma_decode_all_valid(d.pending, rest);
                let after = decode_all(d.pending, rest);
                assert((seq![REPLACEMENT_CHARACTER] + d.text) + after.text =~= seq![
                    REPLACEMENT_CHARACTER,
                ] + (d.text + after.text));
            }
        }
    }
}

/// Damage containment for a run that fills the buffer. Take a run of four
/// bytes at none of which a character starts, and after it a well-formed
/// text; cut the whole into pieces in any way, even across the end of the
/// run. A decoder that holds nothing and is given the pieces in order
/// returns exactly one replacement character, then the text, and holds
/// nothing in the end.
pub proof fn lemma_decode_damage_contained_full(
    pieces: Seq<Seq<u8>>,
    run: Seq<u8>,
    text: Seq<char>,
)
    requires
        run.len() == 4,
        no_char_starts(run),
        text.len() > 0,
        pieces.flatten() == run + encode_utf8(text),
    ensures
        decode_all(Seq::empty(), pieces) == (Decoded {
            pending: Seq::empty(),
            text: seq![REPLACEMENT_CHARACTER] + text,
        }),
{
    assert(run.subrange(0, 4) =~= run);
    assert(run.subrange(0, 0) =~= Seq::<u8>::empty());
    lemma_decode_full_run(run, 0, pieces, text);
}

} // verus!
