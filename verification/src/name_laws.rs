//! What holds of the name codec for every name and every buffer.

use crate::error::DnsError;
use crate::name::{
    all_ascii, decode_name_spec, encode_name_spec, join_labels, label_ok, labels_ok,
    lemma_join_split, lemma_split_labels_shape, name_at, no_empty_label, pointer_at,
    pointer_target, split_labels, text_bytes, wire_labels, wire_name, DOT, MAX_NAME_LEN,
    MAX_POINTER_FOLLOWS, POINTER_FLAG,
};
use vstd::prelude::*;
use vstd::utf8::{encode_scalar, has_width_1_encoding, is_ascii_chars};

verus! {

/// The result of a read with `prefix` put before the labels it found.
pub open spec fn behind(prefix: Seq<Seq<u8>>, rest: Result<(Seq<Seq<u8>>, int), DnsError>) -> Result<
    (Seq<Seq<u8>>, int),
    DnsError,
> {
    match rest {
        Ok((labels, end)) => Ok((prefix + labels, end)),
        Err(e) => Err(e),
    }
}

/// `part` stands in `buf` from `pos` on.
pub open spec fn holds_at(buf: Seq<u8>, pos: int, part: Seq<u8>) -> bool {
    0 <= pos && pos + part.len() <= buf.len() && buf.subrange(pos, pos + part.len()) == part
}

/// Where length-prefixed labels stand in a buffer, reading a name there gives
/// these labels and then whatever the read gives behind them.
pub proof fn lemma_name_behind_labels(buf: Seq<u8>, pos: int, prefix: Seq<Seq<u8>>, follows: nat)
    requires
        holds_at(buf, pos, wire_labels(prefix)),
        labels_ok(prefix),
        no_empty_label(prefix),
    ensures
        name_at(buf, pos, follows) == behind(
            prefix,
            name_at(buf, pos + wire_labels(prefix).len(), follows),
        ),
    decreases prefix.len(),
{
    let tail = name_at(buf, pos + wire_labels(prefix).len(), follows);
    if prefix.len() == 0 {
        match tail {
            Ok((labels, end)) => {
                assert(prefix + labels =~= labels);
            },
            Err(_) => {},
        }
    } else {
        let label = prefix[0];
        let rest = prefix.skip(1);
        let wire = wire_labels(prefix);
        let n = label.len() as int;
        assert(label_ok(label));
        assert(1 <= n <= 63);
        assert(wire =~= seq![label.len() as u8] + label + wire_labels(rest));
        assert(wire.len() == 1 + n + wire_labels(rest).len());
        assert(buf[pos] == buf.subrange(pos, pos + wire.len())[0]);
        assert(buf[pos] == n);
        let found = buf.subrange(pos + 1, pos + 1 + n);
        assert(found =~= label) by {
            assert forall|i: int| 0 <= i < n implies found[i] == label[i] by {
                assert(buf[pos + 1 + i] == buf.subrange(pos, pos + wire.len())[1 + i]);
                assert(wire[1 + i] == label[i]);
            }
        }
        assert(buf.subrange(pos + 1 + n, pos + 1 + n + wire_labels(rest).len()) =~= wire_labels(
            rest,
        )) by {
            assert forall|i: int| 0 <= i < wire_labels(rest).len() implies buf[pos + 1 + n + i]
                == wire_labels(rest)[i] by {
                assert(buf[pos + 1 + n + i] == buf.subrange(pos, pos + wire.len())[1 + n + i]);
                assert(wire[1 + n + i] == wire_labels(rest)[i]);
            }
        }
        assert(labels_ok(rest)) by {
            assert forall|i: int| 0 <= i < rest.len() implies label_ok(#[trigger] rest[i]) by {
                assert(rest[i] == prefix[i + 1]);
            }
        }
        assert(no_empty_label(rest)) by {
            assert forall|i: int| 0 <= i < rest.len() implies (#[trigger] rest[i]).len() > 0 by {
                assert(rest[i] == prefix[i + 1]);
            }
        }
        lemma_name_behind_labels(buf, pos + 1 + n, rest, follows);
        match tail {
            Ok((labels, end)) => {
                assert(seq![label] + (rest + labels) =~= prefix + labels);
            },
            Err(_) => {},
        }
    }
}

/// Where the uncompressed wire form of a name stands in a buffer, reading
/// there gives the name and the offset behind its closing zero.
pub proof fn lemma_name_in_buffer(buf: Seq<u8>, pos: int, labels: Seq<Seq<u8>>, follows: nat)
    requires
        holds_at(buf, pos, wire_name(labels)),
        labels_ok(labels),
        no_empty_label(labels),
    ensures
        name_at(buf, pos, follows) == Ok::<(Seq<Seq<u8>>, int), DnsError>(
            (labels, pos + wire_name(labels).len()),
        ),
{
    let n = wire_labels(labels).len() as int;
    assert(buf.subrange(pos, pos + n) =~= wire_labels(labels)) by {
        assert forall|i: int| 0 <= i < n implies buf[pos + i] == wire_labels(labels)[i] by {
            assert(buf[pos + i] == buf.subrange(pos, pos + wire_name(labels).len())[i]);
        }
    }
    lemma_name_behind_labels(buf, pos, labels, follows);
    assert(buf[pos + n] == buf.subrange(pos, pos + wire_name(labels).len())[n]);
    assert(buf[pos + n] == 0);
    assert(labels + Seq::<Seq<u8>>::empty() =~= labels);
}

/// Where the wire form of a name whose labels can all be carried stands in
/// a buffer, a name decodes there and ends no later than the wire form does,
/// even if some label is empty.
pub proof fn lemma_wire_name_decodes(buf: Seq<u8>, pos: int, labels: Seq<Seq<u8>>, follows: nat)
    requires
        holds_at(buf, pos, wire_name(labels)),
        labels_ok(labels),
    ensures
        name_at(buf, pos, follows) is Ok,
        name_at(buf, pos, follows)->Ok_0.1 <= pos + wire_name(labels).len(),
    decreases labels.len(),
{
    let wire = wire_name(labels);
    assert(buf[pos] == buf.subrange(pos, pos + wire.len())[0]);
    if labels.len() > 0 {
        let label = labels[0];
        let rest = labels.skip(1);
        let n = label.len() as int;
        assert(label_ok(label));
        assert(wire =~= seq![label.len() as u8] + label + wire_name(rest));
        assert(buf[pos] == n);
        if n > 0 {
            let found = buf.subrange(pos + 1, pos + 1 + n);
            assert(found =~= label) by {
                assert forall|i: int| 0 <= i < n implies found[i] == label[i] by {
                    assert(buf[pos + 1 + i] == buf.subrange(pos, pos + wire.len())[1 + i]);
                    assert(wire[1 + i] == label[i]);
                }
            }
            assert(buf.subrange(pos + 1 + n, pos + 1 + n + wire_name(rest).len()) =~= wire_name(
                rest,
            )) by {
                assert forall|i: int| 0 <= i < wire_name(rest).len() implies buf[pos + 1 + n + i]
                    == wire_name(rest)[i] by {
                    assert(buf[pos + 1 + n + i] == buf.subrange(pos, pos + wire.len())[1 + n + i]);
                    assert(wire[1 + n + i] == wire_name(rest)[i]);
                }
            }
            assert(labels_ok(rest)) by {
                assert forall|i: int| 0 <= i < rest.len() implies label_ok(#[trigger] rest[i]) by {
                    assert(rest[i] == labels[i + 1]);
                }
            }
            lemma_wire_name_decodes(buf, pos + 1 + n, rest, follows);
        }
    }
}

/// The labels of a name that decodes hold 1 to 63 ASCII bytes each.
pub proof fn lemma_decoded_labels(buf: Seq<u8>, pos: int, follows: nat)
    requires
        name_at(buf, pos, follows) is Ok,
    ensures
        labels_ok(name_at(buf, pos, follows)->Ok_0.0),
        no_empty_label(name_at(buf, pos, follows)->Ok_0.0),
    decreases follows, buf.len() - pos,
{
    if buf[pos] == 0 {
    } else if buf[pos] >= POINTER_FLAG {
        lemma_decoded_labels(buf, pointer_target(buf, pos), (follows - 1) as nat);
    } else {
        lemma_decoded_labels(buf, pos + 1 + buf[pos], follows);
        let label = buf.subrange(pos + 1, pos + 1 + buf[pos]);
        let rest = name_at(buf, pos + 1 + buf[pos], follows)->Ok_0.0;
        let all = seq![label] + rest;
        assert forall|i: int| 0 <= i < all.len() implies label_ok(#[trigger] all[i]) && all[i].len()
            > 0 by {
            if i > 0 {
                assert(all[i] == rest[i - 1]);
            }
        }
    }
}

/// Round trip: a name whose labels hold 1 to 63 ASCII bytes each and whose
/// wire form is at most 255 bytes long encodes, and decoding its wire form
/// gives the name back and consumes all of it.
pub proof fn lemma_name_round_trip(labels: Seq<Seq<u8>>)
    requires
        labels_ok(labels),
        no_empty_label(labels),
        wire_name(labels).len() <= MAX_NAME_LEN,
    ensures
        encode_name_spec(labels) == Ok::<Seq<u8>, DnsError>(wire_name(labels)),
        decode_name_spec(wire_name(labels), 0) == Ok::<(Seq<Seq<u8>>, int), DnsError>(
            (labels, wire_name(labels).len() as int),
        ),
{
    let wire = wire_name(labels);
    assert(wire.subrange(0, wire.len() as int) =~= wire);
    lemma_name_in_buffer(wire, 0, labels, MAX_POINTER_FOLLOWS as nat);
}

/// Round trip from text: where the labels of a dotted text hold 1 to 63
/// ASCII bytes each and its wire form is at most 255 bytes long, decoding
/// the wire form gives the labels of the text, and joining them with dots
/// gives the text.
pub proof fn lemma_text_round_trip(text: Seq<u8>)
    requires
        encode_name_spec(split_labels(text)) is Ok,
        no_empty_label(split_labels(text)),
    ensures
        decode_name_spec(encode_name_spec(split_labels(text))->Ok_0, 0) == Ok::<
            (Seq<Seq<u8>>, int),
            DnsError,
        >((split_labels(text), encode_name_spec(split_labels(text))->Ok_0.len() as int)),
        join_labels(split_labels(text)) == text,
{
    lemma_name_round_trip(split_labels(text));
    lemma_join_split(text);
}

/// Compression: where the first labels of a name stand at `pos` and are
/// followed by a pointer to a place where a name decodes, the whole decodes
/// to the first labels and then the labels of the name pointed to, and takes
/// at `pos` only the first labels and the two bytes of the pointer.
pub proof fn lemma_compressed_name(
    buf: Seq<u8>,
    pos: int,
    prefix: Seq<Seq<u8>>,
    suffix: Seq<Seq<u8>>,
    suffix_end: int,
)
    requires
        holds_at(buf, pos, wire_labels(prefix)),
        labels_ok(prefix),
        no_empty_label(prefix),
        pos + wire_labels(prefix).len() + 2 <= buf.len(),
        pointer_at(buf, pos + wire_labels(prefix).len()),
        name_at(
            buf,
            pointer_target(buf, pos + wire_labels(prefix).len()),
            (MAX_POINTER_FOLLOWS - 1) as nat,
        ) == Ok::<(Seq<Seq<u8>>, int), DnsError>((suffix, suffix_end)),
    ensures
        decode_name_spec(buf, pos) == Ok::<(Seq<Seq<u8>>, int), DnsError>(
            (prefix + suffix, pos + wire_labels(prefix).len() + 2),
        ),
{
    lemma_name_behind_labels(buf, pos, prefix, MAX_POINTER_FOLLOWS as nat);
}

/// Compression: where the first labels of a name stand at `pos` and are
/// followed by a pointer to the place where the wire form of another name
/// stands, the whole decodes to the labels of both, and takes at `pos` only
/// the first labels and the two bytes of the pointer, however long the name
/// pointed to is.
pub proof fn lemma_pointer_to_encoded_name(
    buf: Seq<u8>,
    pos: int,
    prefix: Seq<Seq<u8>>,
    suffix: Seq<Seq<u8>>,
)
    requires
        holds_at(buf, pos, wire_labels(prefix)),
        labels_ok(prefix),
        no_empty_label(prefix),
        pos + wire_labels(prefix).len() + 2 <= buf.len(),
        pointer_at(buf, pos + wire_labels(prefix).len()),
        holds_at(buf, pointer_target(buf, pos + wire_labels(prefix).len()), wire_name(suffix)),
        labels_ok(suffix),
        no_empty_label(suffix),
    ensures
        decode_name_spec(buf, pos) == Ok::<(Seq<Seq<u8>>, int), DnsError>(
            (prefix + suffix, pos + wire_labels(prefix).len() + 2),
        ),
{
    let target = pointer_target(buf, pos + wire_labels(prefix).len());
    lemma_name_in_buffer(buf, target, suffix, (MAX_POINTER_FOLLOWS - 1) as nat);
    lemma_compressed_name(buf, pos, prefix, suffix, target + wire_name(suffix).len());
}

/// From `pos` on, `n` pointers follow one another: each is whole, and leads
/// to the next.
pub open spec fn pointer_chain(buf: Seq<u8>, pos: int, n: nat) -> bool
    decreases n,
{
    n == 0 || (pointer_at(buf, pos) && pos + 1 < buf.len() && pointer_chain(
        buf,
        pointer_target(buf, pos),
        (n - 1) as nat,
    ))
}

/// The place reached from `pos` after `n` pointers.
pub open spec fn pointer_after(buf: Seq<u8>, pos: int, n: nat) -> int
    decreases n,
{
    if n == 0 {
        pos
    } else {
        pointer_after(buf, pointer_target(buf, pos), (n - 1) as nat)
    }
}

/// A read that meets one pointer more than it may follow fails with
/// `CompressionLoop`.
pub proof fn lemma_pointer_chain_fails(buf: Seq<u8>, pos: int, follows: nat)
    requires
        pointer_chain(buf, pos, follows + 1),
    ensures
        name_at(buf, pos, follows) == Err::<(Seq<Seq<u8>>, int), DnsError>(
            DnsError::CompressionLoop,
        ),
    decreases follows,
{
    if follows > 0 {
        lemma_pointer_chain_fails(buf, pointer_target(buf, pos), (follows - 1) as nat);
    }
}

/// A chain of `a + b` pointers is a chain of `a` pointers that leads to a
/// chain of `b` pointers.
pub proof fn lemma_pointer_chain_split(buf: Seq<u8>, pos: int, a: nat, b: nat)
    ensures
        pointer_chain(buf, pos, a + b) == (pointer_chain(buf, pos, a) && pointer_chain(
            buf,
            pointer_after(buf, pos, a),
            b,
        )),
    decreases a,
{
    if a > 0 {
        lemma_pointer_chain_split(buf, pointer_target(buf, pos), (a - 1) as nat, b);
        assert((a + b - 1) as nat == (a - 1) as nat + b);
    }
}

/// Pointers that lead back to where they started can be followed for ever.
pub proof fn lemma_cycle_is_endless(buf: Seq<u8>, pos: int, period: nat, n: nat)
    requires
        period > 0,
        pointer_chain(buf, pos, period),
        pointer_after(buf, pos, period) == pos,
    ensures
        pointer_chain(buf, pos, n),
    decreases n,
{
    if n <= period {
        lemma_pointer_chain_split(buf, pos, n, (period - n) as nat);
    } else {
        lemma_cycle_is_endless(buf, pos, period, (n - period) as nat);
        lemma_pointer_chain_split(buf, pos, period, (n - period) as nat);
    }
}

/// Compression loop: decoding a name at a pointer that lies on a cycle of
/// pointers fails with `CompressionLoop`.
pub proof fn lemma_pointer_cycle_fails(buf: Seq<u8>, pos: int, period: nat)
    requires
        period > 0,
        pointer_chain(buf, pos, period),
        pointer_after(buf, pos, period) == pos,
    ensures
        decode_name_spec(buf, pos) == Err::<(Seq<Seq<u8>>, int), DnsError>(
            DnsError::CompressionLoop,
        ),
{
    lemma_cycle_is_endless(buf, pos, period, (MAX_POINTER_FOLLOWS + 1) as nat);
    lemma_pointer_chain_fails(buf, pos, MAX_POINTER_FOLLOWS as nat);
}

/// Compression loop: decoding a name at a pointer to itself fails with
/// `CompressionLoop`.
pub proof fn lemma_self_pointer_fails(buf: Seq<u8>, pos: int)
    requires
        pointer_at(buf, pos),
        pos + 1 < buf.len(),
        pointer_target(buf, pos) == pos,
    ensures
        decode_name_spec(buf, pos) == Err::<(Seq<Seq<u8>>, int), DnsError>(
            DnsError::CompressionLoop,
        ),
{
    reveal_with_fuel(pointer_chain, 2);
    reveal_with_fuel(pointer_after, 2);
    lemma_pointer_cycle_fails(buf, pos, 1);
}

/// Cutting a buffer short never changes what a name decodes to: the read of
/// the shorter buffer gives the same, or fails with `TruncatedMessage`; and
/// it fails so whenever the cut lies before the end of what the name takes.
pub proof fn lemma_name_cut(buf: Seq<u8>, pos: int, follows: nat, k: int)
    requires
        0 <= k <= buf.len(),
        name_at(buf, pos, follows) is Ok,
    ensures
        name_at(buf.take(k), pos, follows) == name_at(buf, pos, follows) || name_at(
            buf.take(k),
            pos,
            follows,
        ) == Err::<(Seq<Seq<u8>>, int), DnsError>(DnsError::TruncatedMessage),
        k < name_at(buf, pos, follows)->Ok_0.1 ==> name_at(buf.take(k), pos, follows) == Err::<
            (Seq<Seq<u8>>, int),
            DnsError,
        >(DnsError::TruncatedMessage),
    decreases follows, buf.len() - pos,
{
    let cut = buf.take(k);
    if pos < k {
        assert(cut[pos] == buf[pos]);
        if buf[pos] == 0 {
        } else if buf[pos] >= POINTER_FLAG {
            if pos + 1 < k {
                assert(cut[pos + 1] == buf[pos + 1]);
                lemma_name_cut(buf, pointer_target(buf, pos), (follows - 1) as nat, k);
            }
        } else {
            let n = buf[pos] as int;
            if pos + 1 + n <= k {
                assert(cut.subrange(pos + 1, pos + 1 + n) =~= buf.subrange(pos + 1, pos + 1 + n));
                lemma_name_cut(buf, pos + 1 + n, follows, k);
            }
        }
    }
}

/// A character whose number is at most 127 is an ASCII character.
proof fn lemma_ascii_char(c: char)
    requires
        c as u32 <= 0x7f,
    ensures
        '\0' <= c <= '\u{7f}',
{
}

/// A text has a character outside ASCII exactly if its UTF-8 bytes have a
/// byte of 128 or more.
pub proof fn lemma_ascii_text(text: Seq<char>)
    ensures
        all_ascii(text_bytes(text)) <==> is_ascii_chars(text),
    decreases text.len(),
{
    if text.len() == 0 {
        assert(text_bytes(text) =~= Seq::<u8>::empty());
    } else {
        let c = text[0] as u32;
        let rest = text.drop_first();
        let head = encode_scalar(c);
        let tail = text_bytes(rest);
        let bytes = text_bytes(text);
        lemma_ascii_text(rest);
        assert(bytes == head + tail);
        assert(bytes[0] == head[0]);
        if has_width_1_encoding(c) {
            assert(((c & 0x7F) as u8) < 128) by (bit_vector);
            assert(all_ascii(bytes) <==> all_ascii(tail)) by {
                if all_ascii(bytes) {
                    assert forall|i: int| 0 <= i < tail.len() implies tail[i] < 128 by {
                        assert(tail[i] == bytes[i + 1]);
                    }
                }
                if all_ascii(tail) {
                    assert forall|i: int| 0 <= i < bytes.len() implies bytes[i] < 128 by {
                        if i > 0 {
                            assert(bytes[i] == tail[i - 1]);
                        }
                    }
                }
            }
            assert(is_ascii_chars(text) <==> is_ascii_chars(rest)) by {
                if is_ascii_chars(text) {
                    assert forall|i: int| 0 <= i < rest.len() implies '\0' <= #[trigger] rest[i]
                        <= '\u{7f}' by {
                        assert(rest[i] == text[i + 1]);
                    }
                }
                if is_ascii_chars(rest) {
                    assert forall|i: int| 0 <= i < text.len() implies '\0' <= #[trigger] text[i]
                        <= '\u{7f}' by {
                        if i > 0 {
                            assert(text[i] == rest[i - 1]);
                        } else {
                            lemma_ascii_char(text[0]);
                        }
                    }
                }
            }
        } else {
            let x = (c >> 6) & 0x1F;
            let y = (c >> 12) & 0x0F;
            let z = (c >> 18) & 0x7;
            assert((0xC0u8 | (x as u8)) >= 128) by (bit_vector);
            assert((0xE0u8 | (y as u8)) >= 128) by (bit_vector);
            assert((0xF0u8 | (z as u8)) >= 128) by (bit_vector);
            assert(bytes[0] >= 128);
            assert(!('\0' <= text[0] <= '\u{7f}'));
        }
    }
}

/// A dotted text is all ASCII exactly if each of its labels is.
pub proof fn lemma_split_keeps_ascii(text: Seq<u8>)
    ensures
        all_ascii(text) <==> forall|i: int|
            0 <= i < split_labels(text).len() ==> all_ascii(#[trigger] split_labels(text)[i]),
    decreases text.len(),
{
    let labels = split_labels(text);
    if text.len() > 0 {
        let shorter = text.drop_last();
        let before = split_labels(shorter);
        lemma_split_keeps_ascii(shorter);
        lemma_split_labels_shape(shorter);
        let c = text.last();
        if all_ascii(text) {
            assert(all_ascii(shorter)) by {
                assert forall|i: int| 0 <= i < shorter.len() implies shorter[i] < 128 by {
                    assert(shorter[i] == text[i]);
                }
            }
            assert(c < 128) by {
                assert(c == text[text.len() - 1]);
            }
            assert forall|i: int| 0 <= i < labels.len() implies all_ascii(#[trigger] labels[i]) by {
                if i < before.len() - 1 {
                    assert(labels[i] == before[i]);
                } else if c != DOT && i == before.len() - 1 {
                    assert(all_ascii(before[i]));
                } else if c == DOT && i == before.len() - 1 {
                    assert(labels[i] == before[i]);
                }
            }
        }
        if forall|i: int| 0 <= i < labels.len() ==> all_ascii(#[trigger] labels[i]) {
            assert forall|i: int| 0 <= i < before.len() implies all_ascii(#[trigger] before[i]) by {
                if c == DOT {
                    assert(before[i] == labels[i]);
                } else if i < before.len() - 1 {
                    assert(before[i] == labels[i]);
                } else {
                    assert(all_ascii(labels[i]));
                    assert forall|j: int| 0 <= j < before[i].len() implies before[i][j] < 128 by {
                        assert(before[i][j] == labels[i][j]);
                    }
                }
            }
            assert(c < 128) by {
                if c != DOT {
                    let last = labels[before.len() - 1];
                    assert(all_ascii(last));
                    assert(last[last.len() - 1] == c);
                }
            }
            assert forall|i: int| 0 <= i < text.len() implies text[i] < 128 by {
                if i < shorter.len() {
                    assert(text[i] == shorter[i]);
                }
            }
        }
    } else {
        assert(all_ascii(labels[0]));
    }
}

/// A dotted text with a character outside ASCII does not encode: it fails
/// with `InvalidLabel`, however long it is.
pub proof fn lemma_non_ascii_text_is_invalid(text: Seq<char>)
    requires
        !is_ascii_chars(text),
    ensures
        encode_name_spec(split_labels(text_bytes(text))) == Err::<Seq<u8>, DnsError>(
            DnsError::InvalidLabel,
        ),
{
    lemma_ascii_text(text);
    lemma_split_keeps_ascii(text_bytes(text));
}

} // verus!
