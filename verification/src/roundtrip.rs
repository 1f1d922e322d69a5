//! What the codec owes: a frame that is encoded decodes to itself, and a part
//! of an encoding decodes to nothing yet.
use crate::decimal::decimal_digits;
use crate::decimal::is_digit;
use crate::decimal::lemma_decimal_digits;
use crate::frame::crlf;
use crate::frame::crlf_at;
use crate::frame::lemma_decode_bounds;
use crate::frame::lemma_line_len;
use crate::frame::lemma_line_len_bound;
use crate::frame::lemma_line_len_first;
use crate::frame::lemma_line_len_none;
use crate::frame::line_len;
use crate::frame::spec_decode;
use crate::frame::spec_decode_all;
use crate::frame::spec_encode;
use crate::frame::spec_encode_all;
use crate::frame::spec_text;
use crate::frame::spec_uint;
use crate::frame::ErrorView;
use crate::frame::FrameView;
use crate::frame::CR;
use crate::frame::LF;
use vstd::prelude::*;
use vstd::utf8::encode_utf8;

verus! {

/// Does no CR LF start anywhere in `bytes`?
pub open spec fn no_crlf(bytes: Seq<u8>) -> bool {
    forall|i: int| !crlf_at(bytes, i)
}

/// Can a frame of value `frame` go over the wire and come back? It can unless
/// the UTF-8 bytes of a status text or error line in it hold a CR LF, which
/// would end the line early, or it holds more bytes or elements than a 64-bit
/// count can tell.
pub open spec fn wire_safe(frame: FrameView) -> bool
    decreases frame,
{
    match frame {
        FrameView::Simple(text) => no_crlf(encode_utf8(text)),
        FrameView::SimpleError(text) => no_crlf(encode_utf8(text)),
        FrameView::Integer(_) => true,
        FrameView::Bulk(data) => data.len() <= u64::MAX,
        FrameView::Null => true,
        FrameView::Array(frames) => frames.len() <= u64::MAX && forall|i: int|
            0 <= i < frames.len() ==> wire_safe(#[trigger] frames[i]),
    }
}

/// Does `buf` hold the bytes of `bytes` from `pos` on, as far as `buf` goes?
pub open spec fn agrees(buf: Seq<u8>, pos: int, bytes: Seq<u8>) -> bool {
    forall|i: int| 0 <= i < bytes.len() && pos + i < buf.len() ==> buf[pos + i] == #[trigger] bytes[i]
}

/// Where `buf` agrees with two sequences joined, it agrees with each in its
/// place.
pub proof fn lemma_agrees_split(buf: Seq<u8>, pos: int, first: Seq<u8>, second: Seq<u8>)
    requires
        agrees(buf, pos, first + second),
    ensures
        agrees(buf, pos, first),
        agrees(buf, pos + first.len(), second),
{
    let joined = first + second;
    assert forall|i: int| 0 <= i < first.len() && pos + i < buf.len() implies buf[pos + i]
        == #[trigger] first[i] by {
        assert(joined[i] == first[i]);
    }
    assert forall|i: int|
        0 <= i < second.len() && pos + first.len() + i < buf.len() implies buf[pos + first.len()
        + i] == #[trigger] second[i] by {
        assert(joined[first.len() + i] == second[i]);
    }
}

/// Where `buf` agrees with `bytes` and holds all of them, they are the part of
/// `buf` from `pos`.
pub proof fn lemma_agrees_whole(buf: Seq<u8>, pos: int, bytes: Seq<u8>)
    requires
        0 <= pos,
        pos + bytes.len() <= buf.len(),
        agrees(buf, pos, bytes),
    ensures
        buf.subrange(pos, pos + bytes.len()) == bytes,
{
    let part = buf.subrange(pos, pos + bytes.len());
    assert forall|i: int| 0 <= i < bytes.len() implies part[i] == bytes[i] by {
        assert(buf[pos + i] == bytes[i]);
    }
    assert(part =~= bytes);
}

/// A line without CR LF in it, followed by its delimiter, is found whole.
pub proof fn lemma_line_found(buf: Seq<u8>, start: int, line: Seq<u8>)
    requires
        0 <= start,
        no_crlf(line),
        agrees(buf, start, line + crlf()),
        start + line.len() + 2 <= buf.len(),
    ensures
        line_len(buf, start) == Some(line.len()),
        buf.subrange(start, start + line.len()) == line,
{
    let whole = line + crlf();
    let n = line.len() as int;
    assert(whole[n] == CR && whole[n + 1] == LF);
    assert(buf[start + n] == whole[n]);
    assert(buf[start + (n + 1)] == whole[n + 1]);
    assert(crlf_at(buf, start + n));
    assert forall|i: int| start <= i < start + n implies !crlf_at(buf, i) by {
        let k = i - start;
        assert(buf[start + k] == whole[k]);
        assert(buf[start + (k + 1)] == whole[k + 1]);
        assert(whole[k] == line[k]);
        if k + 1 < n {
            assert(whole[k + 1] == line[k + 1]);
            assert(!crlf_at(line, k));
        }
    }
    lemma_line_len_first(buf, start, line.len());
    lemma_agrees_split(buf, start, line, crlf());
    lemma_agrees_whole(buf, start, line);
}

/// A line without CR LF in it, cut off before the end of its delimiter, is not
/// found.
pub proof fn lemma_line_missing(buf: Seq<u8>, start: int, line: Seq<u8>)
    requires
        0 <= start,
        no_crlf(line),
        agrees(buf, start, line + crlf()),
        start + line.len() + 2 > buf.len(),
    ensures
        line_len(buf, start) is None,
{
    let whole = line + crlf();
    let n = line.len() as int;
    assert forall|i: int| start <= i implies !crlf_at(buf, i) by {
        if i + 1 < buf.len() {
            let k = i - start;
            assert(buf[start + k] == whole[k]);
            assert(buf[start + (k + 1)] == whole[k + 1]);
            if k + 1 < n {
                assert(whole[k] == line[k]);
                assert(whole[k + 1] == line[k + 1]);
                assert(!crlf_at(line, k));
            } else {
                assert(whole[k + 1] == CR);
            }
        }
    }
    lemma_line_len_none(buf, start);
}

/// A numeral holds digits only, and so no CR LF.
pub proof fn lemma_digits_no_crlf(n: nat)
    ensures
        no_crlf(decimal_digits(n)),
        decimal_digits(n).len() >= 1,
        is_digit(decimal_digits(n)[0]),
{
    lemma_decimal_digits(n);
    let digits = decimal_digits(n);
    assert forall|i: int| !crlf_at(digits, i) by {
        if 0 <= i && i + 1 < digits.len() {
            assert(is_digit(digits[i]));
        }
    }
}

/// The encoding of a frame starts with a byte, and `buf` holds it where it
/// agrees with the encoding and goes on from `pos`.
proof fn lemma_first_byte(frame: FrameView, buf: Seq<u8>, pos: int)
    requires
        0 <= pos < buf.len(),
        agrees(buf, pos, spec_encode(frame)),
    ensures
        spec_encode(frame).len() >= 1,
        buf[pos] == spec_encode(frame)[0],
{
    let encoded = spec_encode(frame);
    assert(encoded.len() >= 1);
    assert(buf[pos + 0] == encoded[0]);
}

/// The bytes of a status line decode to its text, or to nothing yet where
/// `buf` ends within them.
proof fn lemma_decode_text(text: Seq<char>, buf: Seq<u8>, start: int)
    requires
        0 <= start,
        no_crlf(encode_utf8(text)),
        agrees(buf, start, encode_utf8(text) + crlf()),
    ensures
        start + encode_utf8(text).len() + 2 <= buf.len() ==> spec_text(buf, start) == Ok::<
            (Seq<char>, nat),
            ErrorView,
        >((text, encode_utf8(text).len() + 2)),
        start + encode_utf8(text).len() + 2 > buf.len() ==> spec_text(buf, start) == Err::<
            (Seq<char>, nat),
            ErrorView,
        >(ErrorView::Incomplete),
{
    let line = encode_utf8(text);
    if start + line.len() + 2 <= buf.len() {
        lemma_line_found(buf, start, line);
        vstd::utf8::encode_utf8_valid_utf8(text);
        vstd::utf8::encode_utf8_decode_utf8(text);
    } else {
        lemma_line_missing(buf, start, line);
    }
}

/// The bytes of a numeral and its delimiter decode to its number, or to nothing
/// yet where `buf` ends within them.
proof fn lemma_decode_uint(value: u64, buf: Seq<u8>, start: int)
    requires
        0 <= start,
        agrees(buf, start, decimal_digits(value as nat) + crlf()),
    ensures
        start + decimal_digits(value as nat).len() + 2 <= buf.len() ==> spec_uint(buf, start)
            == Ok::<(u64, nat), ErrorView>((value, decimal_digits(value as nat).len() + 2)),
        start + decimal_digits(value as nat).len() + 2 > buf.len() ==> spec_uint(buf, start)
            == Err::<(u64, nat), ErrorView>(ErrorView::Incomplete),
{
    let line = decimal_digits(value as nat);
    lemma_digits_no_crlf(value as nat);
    lemma_decimal_digits(value as nat);
    if start + line.len() + 2 <= buf.len() {
        lemma_line_found(buf, start, line);
    } else {
        lemma_line_missing(buf, start, line);
    }
}

/// A frame's encoding decodes to the frame and takes exactly its bytes,
/// whatever `buf` holds around them; where `buf` ends within the encoding, it
/// decodes to nothing yet.
pub proof fn lemma_decode_encoded(frame: FrameView, buf: Seq<u8>, pos: int)
    requires
        wire_safe(frame),
        0 <= pos <= buf.len(),
        agrees(buf, pos, spec_encode(frame)),
    ensures
        pos + spec_encode(frame).len() <= buf.len() ==> spec_decode(buf, pos) == Ok::<
            (FrameView, nat),
            ErrorView,
        >((frame, spec_encode(frame).len())),
        pos + spec_encode(frame).len() > buf.len() ==> spec_decode(buf, pos) == Err::<
            (FrameView, nat),
            ErrorView,
        >(ErrorView::Incomplete),
    decreases frame,
{
    let encoded = spec_encode(frame);
    if pos < buf.len() {
        lemma_first_byte(frame, buf, pos);
        match frame {
            FrameView::Simple(text) => {
                let rest = encode_utf8(text) + crlf();
                assert(encoded =~= seq![crate::frame::TAG_SIMPLE] + rest);
                lemma_agrees_split(buf, pos, seq![crate::frame::TAG_SIMPLE], rest);
                lemma_decode_text(text, buf, pos + 1);
            },
            FrameView::SimpleError(text) => {
                let rest = encode_utf8(text) + crlf();
                assert(encoded =~= seq![crate::frame::TAG_ERROR] + rest);
                lemma_agrees_split(buf, pos, seq![crate::frame::TAG_ERROR], rest);
                lemma_decode_text(text, buf, pos + 1);
            },
            FrameView::Integer(value) => {
                let rest = decimal_digits(value as nat) + crlf();
                assert(encoded =~= seq![crate::frame::TAG_INTEGER] + rest);
                lemma_agrees_split(buf, pos, seq![crate::frame::TAG_INTEGER], rest);
                lemma_decode_uint(value, buf, pos + 1);
            },
            FrameView::Null => {
                let line = seq![crate::frame::TAG_ERROR, crate::decimal::DIGIT_ONE];
                let rest = line + crlf();
                assert(encoded =~= seq![crate::frame::TAG_BULK] + rest);
                lemma_agrees_split(buf, pos, seq![crate::frame::TAG_BULK], rest);
                assert(no_crlf(line));
                if pos + 1 < buf.len() {
                    assert(buf[pos + 1 + 0] == rest[0]);
                    if pos + 1 + line.len() + 2 <= buf.len() {
                        lemma_line_found(buf, pos + 1, line);
                    } else {
                        lemma_line_missing(buf, pos + 1, line);
                    }
                }
            },
            FrameView::Bulk(data) => {
                let digits = decimal_digits(data.len());
                let header = digits + crlf();
                let body = data + crlf();
                assert(encoded =~= seq![crate::frame::TAG_BULK] + (header + body));
                lemma_agrees_split(buf, pos, seq![crate::frame::TAG_BULK], header + body);
                lemma_agrees_split(buf, pos + 1, header, body);
                lemma_digits_no_crlf(data.len());
                if pos + 1 < buf.len() {
                    assert(header[0] == digits[0]);
                    assert(buf[pos + 1 + 0] == header[0]);
                    lemma_decode_uint(data.len() as u64, buf, pos + 1);
                    if pos + 1 + header.len() <= buf.len() {
                        let from = pos + 1 + header.len();
                        if buf.len() - from >= data.len() + 2 {
                            lemma_agrees_split(buf, from, data, crlf());
                            lemma_agrees_whole(buf, from, data);
                        }
                    }
                }
            },
            FrameView::Array(frames) => {
                let digits = decimal_digits(frames.len());
                let header = digits + crlf();
                let body = spec_encode_all(frames);
                assert(encoded =~= seq![crate::frame::TAG_ARRAY] + (header + body));
                lemma_agrees_split(buf, pos, seq![crate::frame::TAG_ARRAY], header + body);
                lemma_agrees_split(buf, pos + 1, header, body);
                lemma_decode_uint(frames.len() as u64, buf, pos + 1);
                if pos + 1 + header.len() <= buf.len() {
                    lemma_decode_all_encoded(frames, buf, pos + 1 + header.len());
                }
            },
        }
    }
}

/// The encodings of frames one after the other decode to the frames, or to
/// nothing yet where `buf` ends within them.
pub proof fn lemma_decode_all_encoded(frames: Seq<FrameView>, buf: Seq<u8>, pos: int)
    requires
        forall|i: int| 0 <= i < frames.len() ==> wire_safe(#[trigger] frames[i]),
        0 <= pos <= buf.len(),
        agrees(buf, pos, spec_encode_all(frames)),
    ensures
        pos + spec_encode_all(frames).len() <= buf.len() ==> spec_decode_all(
            buf,
            pos,
            frames.len(),
        ) == Ok::<(Seq<FrameView>, nat), ErrorView>((frames, spec_encode_all(frames).len())),
        pos + spec_encode_all(frames).len() > buf.len() ==> spec_decode_all(
            buf,
            pos,
            frames.len(),
        ) == Err::<(Seq<FrameView>, nat), ErrorView>(ErrorView::Incomplete),
    decreases frames,
{
    if frames.len() == 0 {
        assert(frames =~= Seq::<FrameView>::empty());
    } else {
        let first = frames.first();
        let rest = frames.drop_first();
        lemma_agrees_split(buf, pos, spec_encode(first), spec_encode_all(rest));
        lemma_decode_encoded(first, buf, pos);
        if pos + spec_encode(first).len() <= buf.len() {
            assert forall|i: int| 0 <= i < rest.len() implies wire_safe(#[trigger] rest[i]) by {
                assert(rest[i] == frames[i + 1]);
            }
            lemma_decode_all_encoded(rest, buf, pos + spec_encode(first).len());
            assert(seq![first] + rest =~= frames);
        }
    }
}

/// The bytes of `bytes` agree with themselves, and with any cut of them.
proof fn lemma_agrees_self(bytes: Seq<u8>, rest: Seq<u8>, k: int)
    requires
        0 <= k <= bytes.len(),
    ensures
        agrees(bytes + rest, 0, bytes),
        agrees(bytes.take(k), 0, bytes),
{
    let joined = bytes + rest;
    assert forall|i: int| 0 <= i < bytes.len() && 0 + i < joined.len() implies joined[0 + i]
        == #[trigger] bytes[i] by {}
    let cut = bytes.take(k);
    assert forall|i: int| 0 <= i < bytes.len() && 0 + i < cut.len() implies cut[0 + i]
        == #[trigger] bytes[i] by {}
}

/// Round trip. A frame that is encoded and decoded again is the frame that it
/// was, and the decoder takes the bytes of the encoding and no more, whatever
/// bytes follow them.
pub proof fn theorem_round_trip(frame: FrameView, rest: Seq<u8>)
    requires
        wire_safe(frame),
    ensures
        spec_decode(spec_encode(frame), 0) == Ok::<(FrameView, nat), ErrorView>(
            (frame, spec_encode(frame).len()),
        ),
        spec_decode(spec_encode(frame) + rest, 0) == Ok::<(FrameView, nat), ErrorView>(
            (frame, spec_encode(frame).len()),
        ),
{
    let encoded = spec_encode(frame);
    lemma_agrees_self(encoded, rest, 0);
    lemma_decode_encoded(frame, encoded + rest, 0);
    assert(encoded + Seq::<u8>::empty() =~= encoded);
    lemma_agrees_self(encoded, Seq::empty(), 0);
    lemma_decode_encoded(frame, encoded + Seq::<u8>::empty(), 0);
}

/// The beginning of an encoding, cut anywhere before its end, decodes to
/// `Incomplete`: never to an error, and never to another frame.
pub proof fn theorem_part_is_incomplete(frame: FrameView, k: int)
    requires
        wire_safe(frame),
        0 <= k < spec_encode(frame).len(),
    ensures
        spec_decode(spec_encode(frame).take(k), 0) == Err::<(FrameView, nat), ErrorView>(
            ErrorView::Incomplete,
        ),
{
    let encoded = spec_encode(frame);
    lemma_agrees_self(encoded, Seq::empty(), k);
    lemma_decode_encoded(frame, encoded.take(k), 0);
}

/// A line that is found stays found, and stays the same, when bytes are put at
/// the end of `buf`.
proof fn lemma_line_len_extended(buf: Seq<u8>, more: Seq<u8>, start: int)
    requires
        0 <= start,
        line_len(buf, start) is Some,
    ensures
        line_len(buf + more, start) == line_len(buf, start),
        (buf + more).subrange(start, start + line_len(buf, start)->0) == buf.subrange(
            start,
            start + line_len(buf, start)->0,
        ),
{
    let n = line_len(buf, start)->0;
    let longer = buf + more;
    lemma_line_len(buf, start);
    assert(crlf_at(longer, start + n));
    assert forall|i: int| start <= i < start + n implies !crlf_at(longer, i) by {
        assert(!crlf_at(buf, i));
        assert(longer[i] == buf[i]);
        assert(longer[i + 1] == buf[i + 1]);
    }
    lemma_line_len_first(longer, start, n);
    assert(longer.subrange(start, start + n) =~= buf.subrange(start, start + n));
}

/// What has been decoded stays decoded. Bytes put at the end of `buf` change
/// neither a frame that was found, nor the count of bytes it takes, nor a fault
/// that was found: only `Incomplete` can become something else.
pub proof fn theorem_decode_is_final(buf: Seq<u8>, more: Seq<u8>, pos: int)
    requires
        0 <= pos,
    ensures
        !(spec_decode(buf, pos) matches Err(ErrorView::Incomplete)) ==> spec_decode(
            buf + more,
            pos,
        ) == spec_decode(buf, pos),
    decreases buf.len() - pos, 0nat,
{
    let longer = buf + more;
    if pos < buf.len() && !(spec_decode(buf, pos) matches Err(ErrorView::Incomplete)) {
        assert(longer[pos] == buf[pos]);
        let tag = buf[pos];
        let start = pos + 1;
        if tag == crate::frame::TAG_SIMPLE || tag == crate::frame::TAG_ERROR || tag
            == crate::frame::TAG_INTEGER {
            lemma_line_len_extended(buf, more, start);
        } else if tag == crate::frame::TAG_BULK {
            assert(start < buf.len());
            assert(longer[start] == buf[start]);
            lemma_line_len_extended(buf, more, start);
            lemma_line_len_bound(buf, start);
            if buf[start] != crate::frame::TAG_ERROR {
                if let Ok((len, n)) = spec_uint(buf, start) {
                    assert(longer.subrange(start + n, start + n + len) =~= buf.subrange(
                        start + n,
                        start + n + len,
                    ));
                }
            }
        } else if tag == crate::frame::TAG_ARRAY {
            lemma_line_len_extended(buf, more, start);
            lemma_line_len_bound(buf, start);
            if let Ok((count, n)) = spec_uint(buf, start) {
                lemma_decode_all_is_final(buf, more, start + n, count as nat);
            }
        }
    }
}

/// Frames decoded one after the other stay decoded when bytes are put at the
/// end of `buf`, and so does the fault of the first that has one.
pub proof fn lemma_decode_all_is_final(buf: Seq<u8>, more: Seq<u8>, pos: int, count: nat)
    requires
        0 <= pos <= buf.len(),
    ensures
        !(spec_decode_all(buf, pos, count) matches Err(ErrorView::Incomplete))
            ==> spec_decode_all(buf + more, pos, count) == spec_decode_all(buf, pos, count),
    decreases buf.len() - pos, count,
{
    if count > 0 && !(spec_decode_all(buf, pos, count) matches Err(ErrorView::Incomplete)) {
        theorem_decode_is_final(buf, more, pos);
        lemma_decode_bounds(buf, pos);
        if let Ok((frame, n)) = spec_decode(buf, pos) {
            lemma_decode_all_is_final(buf, more, pos + n, (count - 1) as nat);
        }
    }
}

} // verus!
