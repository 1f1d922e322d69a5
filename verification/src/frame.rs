//! Frames, the values of the wire protocol, and their codec.
//!
//! A frame starts with one byte that tells its kind: `+` a simple string, `-`
//! an error line, `:` an integer, `$` a bulk string or the null value, `*` an
//! array of frames. Lines end in CR LF.
use crate::buffer::bytes_as_slice;
use crate::buffer::bytes_view;
use crate::decimal::decimal_digits;
use crate::decimal::DIGIT_ONE;
use crate::decimal::parse_decimal;
use crate::decimal::spec_parse_decimal;
use crate::decimal::write_decimal;
use crate::text::append_decimal;
use crate::text::decimal_text;
use crate::text::string_from_utf8;
use bytes::Bytes;
use vstd::prelude::*;
use vstd::slice::slice_subrange;
use vstd::utf8::decode_utf8;
use vstd::utf8::encode_utf8;
use vstd::utf8::valid_utf8;

verus! {

/// Carriage return, the first byte of the line delimiter.
pub const CR: u8 = 13;

/// Line feed, the second byte of the line delimiter.
pub const LF: u8 = 10;

/// `+`, the leading byte of a simple string.
pub const TAG_SIMPLE: u8 = 43;

/// `-`, the leading byte of an error line, and of the payload of the null value.
pub const TAG_ERROR: u8 = 45;

/// `:`, the leading byte of an integer.
pub const TAG_INTEGER: u8 = 58;

/// `$`, the leading byte of a bulk string and of the null value.
pub const TAG_BULK: u8 = 36;

/// `*`, the leading byte of an array.
pub const TAG_ARRAY: u8 = 42;

/// One value of the wire protocol.
#[derive(Debug, PartialEq)]
pub enum Frame {
    /// A short status text.
    Simple(String),
    /// An error line.
    SimpleError(String),
    /// An unsigned number.
    Integer(u64),
    /// Arbitrary bytes, sent with their length in front.
    Bulk(Bytes),
    /// The absence of a bulk value.
    Null,
    /// Frames in order: a request with its arguments, or a reply of many values.
    Array(Vec<Frame>),
}

/// The mathematical value of a [`Frame`].
pub enum FrameView {
    Simple(Seq<char>),
    SimpleError(Seq<char>),
    Integer(u64),
    Bulk(Seq<u8>),
    Null,
    Array(Seq<FrameView>),
}

impl View for Frame {
    type V = FrameView;

    open spec fn view(&self) -> FrameView {
        frame_view(*self)
    }
}

/// The value of `frame`.
pub open spec fn frame_view(frame: Frame) -> FrameView
    decreases frame,
{
    match frame {
        Frame::Simple(text) => FrameView::Simple(text@),
        Frame::SimpleError(text) => FrameView::SimpleError(text@),
        Frame::Integer(value) => FrameView::Integer(value),
        Frame::Bulk(data) => FrameView::Bulk(bytes_view(data)),
        Frame::Null => FrameView::Null,
        Frame::Array(frames) => FrameView::Array(views(frames@)),
    }
}

/// The values of `frames`, in order.
pub open spec fn views(frames: Seq<Frame>) -> Seq<FrameView>
    decreases frames,
{
    if frames.len() == 0 {
        Seq::empty()
    } else {
        views(frames.drop_last()).push(frame_view(frames.last()))
    }
}

/// [`views`] takes the value of each frame, one for one.
pub proof fn lemma_views(frames: Seq<Frame>)
    ensures
        views(frames).len() == frames.len(),
        forall|i: int| 0 <= i < frames.len() ==> #[trigger] views(frames)[i] == frames[i]@,
    decreases frames.len(),
{
    if frames.len() > 0 {
        lemma_views(frames.drop_last());
    }
}

impl Clone for Frame {
    /// Returns a frame of the same value.
    fn clone(&self) -> (copy: Frame)
        ensures
            copy@ == self@,
        decreases self,
    {
        match self {
            Frame::Simple(text) => Frame::Simple(text.clone()),
            Frame::SimpleError(text) => Frame::SimpleError(text.clone()),
            Frame::Integer(value) => Frame::Integer(*value),
            Frame::Bulk(data) => Frame::Bulk(data.clone()),
            Frame::Null => Frame::Null,
            Frame::Array(frames) => {
                let mut copies: Vec<Frame> = Vec::new();
                let mut i: usize = 0;
                while i < frames.len()
                    invariant
                        i <= frames@.len(),
                        self is Array,
                        self->Array_0 == *frames,
                        copies@.len() == i,
                        forall|j: int| 0 <= j < i ==> (#[trigger] copies@[j])@ == frames@[j]@,
                    decreases frames@.len() - i,
                {
                    let copy = frames[i].clone();
                    copies.push(copy);
                    i += 1;
                }
                proof {
                    lemma_views(copies@);
                    lemma_views(frames@);
                    assert(views(copies@) =~= views(frames@));
                }
                Frame::Array(copies)
            },
        }
    }
}

/// Why a decode gave no frame.
#[derive(Debug)]
pub enum Error {
    /// The bytes seen so far end before the frame does. No fault: decode again
    /// from the same position once more bytes have arrived.
    Incomplete,
    /// The bytes cannot start a frame; the text says why.
    Other(String),
}

/// The mathematical value of an [`Error`].
pub enum ErrorView {
    Incomplete,
    Other(Seq<char>),
}

impl View for Error {
    type V = ErrorView;

    open spec fn view(&self) -> ErrorView {
        match self {
            Error::Incomplete => ErrorView::Incomplete,
            Error::Other(text) => ErrorView::Other(text@),
        }
    }
}

/// The text of the error for a line that should hold a number and does not.
pub open spec fn unparsable_integer() -> Seq<char> {
    "unable to parse integer"@
}

/// The text of the error for a payload after `$-` other than `1`.
pub open spec fn invalid_format() -> Seq<char> {
    "protocol error; invalid frame format"@
}

/// The text of the error for a status line that is not UTF-8.
pub open spec fn invalid_string() -> Seq<char> {
    "protocol error; invalid string"@
}

/// The text of the error for the leading byte `byte`, which starts no kind of
/// frame: it ends with the byte as a decimal number.
pub open spec fn unknown_leading_byte(byte: u8) -> Seq<char> {
    "unknown frame leading byte "@ + decimal_text(byte as nat)
}

/// The number of bytes from `start` to the first CR LF at or after `start`, or
/// `None` when `buf` holds no CR LF from there on.
pub open spec fn line_len(buf: Seq<u8>, start: int) -> Option<nat>
    decreases buf.len() - start,
{
    if start < 0 || start + 1 >= buf.len() {
        None
    } else if buf[start] == CR && buf[start + 1] == LF {
        Some(0)
    } else {
        match line_len(buf, start + 1) {
            Some(n) => Some(n + 1),
            None => None,
        }
    }
}

/// Does a CR LF start at index `i` of `buf`?
pub open spec fn crlf_at(buf: Seq<u8>, i: int) -> bool {
    0 <= i && i + 1 < buf.len() && buf[i] == CR && buf[i + 1] == LF
}

/// [`line_len`] finds the first CR LF: none starts before it, and one starts
/// where it says; it finds none only where there is none.
pub proof fn lemma_line_len(buf: Seq<u8>, start: int)
    requires
        0 <= start,
    ensures
        match line_len(buf, start) {
            Some(n) => crlf_at(buf, start + n) && forall|i: int|
                start <= i < start + n ==> !crlf_at(buf, i),
            None => forall|i: int| start <= i ==> !crlf_at(buf, i),
        },
    decreases buf.len() - start,
{
    if start + 1 < buf.len() && !(buf[start] == CR && buf[start + 1] == LF) {
        lemma_line_len(buf, start + 1);
    }
}

/// The first CR LF at or after `start` is where [`line_len`] says.
pub proof fn lemma_line_len_first(buf: Seq<u8>, start: int, n: nat)
    requires
        0 <= start,
        crlf_at(buf, start + n),
        forall|i: int| start <= i < start + n ==> !crlf_at(buf, i),
    ensures
        line_len(buf, start) == Some(n),
    decreases n,
{
    if n > 0 {
        assert(!crlf_at(buf, start));
        lemma_line_len_first(buf, start + 1, (n - 1) as nat);
    }
}

/// Where no CR LF starts at or after `start`, [`line_len`] finds none.
pub proof fn lemma_line_len_none(buf: Seq<u8>, start: int)
    requires
        0 <= start,
        forall|i: int| start <= i ==> !crlf_at(buf, i),
    ensures
        line_len(buf, start) is None,
    decreases buf.len() - start,
{
    if start + 1 < buf.len() {
        assert(!crlf_at(buf, start));
        lemma_line_len_none(buf, start + 1);
    }
}

/// Returns the byte at `position` without moving on, or `Incomplete` when
/// `payload` ends at or before `position`.
pub fn peek_u8(payload: &[u8], position: usize) -> (r: core::result::Result<u8, Error>)
    ensures
        position < payload@.len() ==> r == Ok::<u8, Error>(payload@[position as int]),
        position >= payload@.len() ==> r == Err::<u8, Error>(Error::Incomplete),
{
    if position < payload.len() {
        Ok(payload[position])
    } else {
        Err(Error::Incomplete)
    }
}

/// Reads the line that starts at `position`: the bytes up to the next CR LF.
///
/// Returns the line without its delimiter, and the position just after the
/// delimiter. Where `payload` holds no CR LF at or after `position` the result
/// is `Incomplete`.
pub fn get_line<'a>(payload: &'a [u8], position: usize) -> (r: core::result::Result<
    (&'a [u8], usize),
    Error,
>)
    ensures
        match line_len(payload@, position as int) {
            Some(n) => r matches Ok((line, next)) && line@ == payload@.subrange(
                position as int,
                position + n,
            ) && next == position + n + 2,
            None => r == Err::<(&[u8], usize), Error>(Error::Incomplete),
        },
{
    let mut i: usize = position;
    while i < payload.len() && i + 1 < payload.len()
        invariant
            position <= i,
            forall|j: int| position <= j < i ==> !crlf_at(payload@, j),
        decreases payload@.len() - i,
    {
        if payload[i] == CR && payload[i + 1] == LF {
            proof {
                lemma_line_len_first(payload@, position as int, (i - position) as nat);
            }
            return Ok((slice_subrange(payload, position, i), i + 2));
        }
        i += 1;
    }
    proof {
        lemma_line_len_none(payload@, position as int);
    }
    Err(Error::Incomplete)
}

/// What [`get_uint`] returns on the bytes `buf` from `start`: the number on the
/// line and the count of bytes read, delimiter included.
pub open spec fn spec_uint(buf: Seq<u8>, start: int) -> core::result::Result<(u64, nat), ErrorView> {
    match line_len(buf, start) {
        None => Err(ErrorView::Incomplete),
        Some(n) => match spec_parse_decimal(buf.subrange(start, start + n)) {
            Some(value) => Ok((value, n + 2)),
            None => Err(ErrorView::Other(unparsable_integer())),
        },
    }
}

/// Reads the line that starts at `position` as an unsigned decimal number.
///
/// Returns the number and the position just after the line's delimiter;
/// `Incomplete` where the line has no end yet; an error where the line is not a
/// decimal numeral that fits in 64 bits.
pub fn get_uint(payload: &[u8], position: usize) -> (r: core::result::Result<(u64, usize), Error>)
    ensures
        match spec_uint(payload@, position as int) {
            Ok((value, used)) => r == Ok::<(u64, usize), Error>(
                (value, (position + used) as usize),
            ) && position + used <= payload@.len(),
            Err(e) => r matches Err(error) && error@ == e,
        },
{
    proof {
        lemma_line_len(payload@, position as int);
    }
    match get_line(payload, position) {
        Err(e) => Err(e),
        Ok((line, next)) => match parse_decimal(line) {
            Some(value) => Ok((value, next)),
            None => Err(Error::Other("unable to parse integer".to_string())),
        },
    }
}

/// Where [`line_len`] finds a line, the line and its delimiter lie within `buf`.
pub proof fn lemma_line_len_bound(buf: Seq<u8>, start: int)
    requires
        0 <= start,
    ensures
        line_len(buf, start) matches Some(n) ==> start + n + 2 <= buf.len(),
    decreases buf.len() - start,
{
    if start + 1 < buf.len() && !(buf[start] == CR && buf[start + 1] == LF) {
        lemma_line_len_bound(buf, start + 1);
    }
}

/// What a status line holds on the bytes `buf` from `start`: its text and the
/// count of bytes read, delimiter included.
pub open spec fn spec_text(buf: Seq<u8>, start: int) -> core::result::Result<
    (Seq<char>, nat),
    ErrorView,
> {
    match line_len(buf, start) {
        None => Err(ErrorView::Incomplete),
        Some(n) => {
            let line = buf.subrange(start, start + n);
            if valid_utf8(line) {
                Ok((decode_utf8(line), n + 2))
            } else {
                Err(ErrorView::Other(invalid_string()))
            }
        },
    }
}

/// What follows a `$` on the bytes `buf` from `start`: the null value, written
/// `-1`, or a length, a line end, that many bytes and two bytes more, which are
/// not looked at.
pub open spec fn spec_bulk(buf: Seq<u8>, start: int) -> core::result::Result<
    (FrameView, nat),
    ErrorView,
> {
    if start < 0 || start >= buf.len() {
        Err(ErrorView::Incomplete)
    } else if buf[start] == TAG_ERROR {
        match line_len(buf, start) {
            None => Err(ErrorView::Incomplete),
            Some(n) => if buf.subrange(start, start + n) == seq![TAG_ERROR, DIGIT_ONE] {
                Ok((FrameView::Null, n + 2))
            } else {
                Err(ErrorView::Other(invalid_format()))
            },
        }
    } else {
        match spec_uint(buf, start) {
            Err(e) => Err(e),
            Ok((len, n)) => if buf.len() - (start + n) < len + 2 {
                Err(ErrorView::Incomplete)
            } else {
                Ok((FrameView::Bulk(buf.subrange(start + n, start + n + len)), n + len as nat + 2))
            },
        }
    }
}

/// What [`Frame::decode`] returns on the bytes `buf` from `pos`: the frame that
/// starts there and the count of bytes it takes, or why there is none.
pub open spec fn spec_decode(buf: Seq<u8>, pos: int) -> core::result::Result<
    (FrameView, nat),
    ErrorView,
>
    decreases buf.len() - pos, 0nat,
{
    if pos < 0 || pos >= buf.len() {
        Err(ErrorView::Incomplete)
    } else if buf[pos] == TAG_SIMPLE {
        match spec_text(buf, pos + 1) {
            Ok((text, n)) => Ok((FrameView::Simple(text), 1 + n)),
            Err(e) => Err(e),
        }
    } else if buf[pos] == TAG_ERROR {
        match spec_text(buf, pos + 1) {
            Ok((text, n)) => Ok((FrameView::SimpleError(text), 1 + n)),
            Err(e) => Err(e),
        }
    } else if buf[pos] == TAG_INTEGER {
        match spec_uint(buf, pos + 1) {
            Ok((value, n)) => Ok((FrameView::Integer(value), 1 + n)),
            Err(e) => Err(e),
        }
    } else if buf[pos] == TAG_BULK {
        match spec_bulk(buf, pos + 1) {
            Ok((frame, n)) => Ok((frame, 1 + n)),
            Err(e) => Err(e),
        }
    } else if buf[pos] == TAG_ARRAY {
        match spec_uint(buf, pos + 1) {
            Err(e) => Err(e),
            Ok((count, n)) => {
                proof {
                    lemma_line_len_bound(buf, pos + 1);
                }
                match spec_decode_all(buf, pos + 1 + n, count as nat) {
                    Ok((frames, m)) => Ok((FrameView::Array(frames), 1 + n + m)),
                    Err(e) => Err(e),
                }
            },
        }
    } else {
        Err(ErrorView::Other(unknown_leading_byte(buf[pos])))
    }
}

/// `count` frames decoded one after the other on the bytes `buf` from `pos`, and
/// the count of bytes they take together. The first that fails fails them all.
pub open spec fn spec_decode_all(buf: Seq<u8>, pos: int, count: nat) -> core::result::Result<
    (Seq<FrameView>, nat),
    ErrorView,
>
    decreases buf.len() - pos, count,
{
    if count == 0 {
        Ok((Seq::empty(), 0))
    } else {
        match spec_decode(buf, pos) {
            Err(e) => Err(e),
            Ok((frame, n)) => if pos + n > buf.len() {
                Err(ErrorView::Incomplete)
            } else {
                match spec_decode_all(buf, pos + n, (count - 1) as nat) {
                    Ok((frames, m)) => Ok((seq![frame] + frames, n + m)),
                    Err(e) => Err(e),
                }
            },
        }
    }
}

/// A decoded frame takes at least one byte and ends within `buf`.
pub proof fn lemma_decode_bounds(buf: Seq<u8>, pos: int)
    requires
        0 <= pos,
    ensures
        spec_decode(buf, pos) matches Ok((_, n)) ==> 1 <= n && pos + n <= buf.len(),
    decreases buf.len() - pos, 0nat,
{
    if pos < buf.len() {
        lemma_line_len_bound(buf, pos + 1);
        if buf[pos] == TAG_ARRAY {
            if let Ok((count, n)) = spec_uint(buf, pos + 1) {
                lemma_decode_all_bounds(buf, pos + 1 + n, count as nat);
            }
        }
    }
}

/// Frames decoded one after the other end within `buf`.
pub proof fn lemma_decode_all_bounds(buf: Seq<u8>, pos: int, count: nat)
    requires
        0 <= pos <= buf.len(),
    ensures
        spec_decode_all(buf, pos, count) matches Ok((frames, m)) ==> pos + m <= buf.len()
            && frames.len() == count,
    decreases buf.len() - pos, count,
{
    if count > 0 {
        lemma_decode_bounds(buf, pos);
        if let Ok((frame, n)) = spec_decode(buf, pos) {
            lemma_decode_all_bounds(buf, pos + n, (count - 1) as nat);
        }
    }
}

/// Reads the status line that starts at `start`: its text, and the position
/// just after its delimiter.
fn decode_text(payload: &[u8], start: usize) -> (r: core::result::Result<(String, usize), Error>)
    ensures
        match spec_text(payload@, start as int) {
            Ok((text, used)) => r matches Ok((string, next)) && string@ == text && next == start
                + used && next <= payload@.len(),
            Err(e) => r matches Err(error) && error@ == e,
        },
{
    proof {
        lemma_line_len_bound(payload@, start as int);
    }
    match get_line(payload, start) {
        Err(e) => Err(e),
        Ok((line, next)) => match string_from_utf8(line) {
            Some(text) => Ok((text, next)),
            None => Err(Error::Other("protocol error; invalid string".to_string())),
        },
    }
}

/// Reads what follows a `$`, from `start`: the null value or a bulk string, and
/// the position just after it.
fn decode_bulk(payload: &[u8], start: usize) -> (r: core::result::Result<(Frame, usize), Error>)
    ensures
        match spec_bulk(payload@, start as int) {
            Ok((frame, used)) => r matches Ok((f, next)) && f@ == frame && next == start + used
                && next <= payload@.len(),
            Err(e) => r matches Err(error) && error@ == e,
        },
{
    proof {
        lemma_line_len_bound(payload@, start as int);
    }
    match peek_u8(payload, start) {
        Err(e) => Err(e),
        Ok(first) => if first == TAG_ERROR {
            match get_line(payload, start) {
                Err(e) => Err(e),
                Ok((line, next)) => {
                    if line.len() == 2 && line[0] == TAG_ERROR && line[1] == DIGIT_ONE {
                        assert(line@ =~= seq![TAG_ERROR, DIGIT_ONE]);
                        Ok((Frame::Null, next))
                    } else {
                        Err(Error::Other("protocol error; invalid frame format".to_string()))
                    }
                },
            }
        } else {
            match get_uint(payload, start) {
                Err(e) => Err(e),
                Ok((len, next)) => {
                    let remaining: u64 = (payload.len() - next) as u64;
                    if remaining < 2 || remaining - 2 < len {
                        Err(Error::Incomplete)
                    } else {
                        let end: usize = next + len as usize;
                        let data = Bytes::copy_from_slice(slice_subrange(payload, next, end));
                        Ok((Frame::Bulk(data), end + 2))
                    }
                },
            }
        },
    }
}

impl Frame {
    /// Decodes the frame that starts at `position` of `payload`.
    ///
    /// On success the result holds the frame and the position just after it:
    /// the bytes before that position are consumed, those from it on are not
    /// touched. `Incomplete` says that `payload` ends before the frame does;
    /// nothing is consumed then, and the same call on a longer `payload` may
    /// succeed. Any other error is final.
    pub fn decode(payload: &[u8], position: usize) -> (r: core::result::Result<
        (Frame, usize),
        Error,
    >)
        ensures
            match r {
                Ok((frame, end)) => position < end <= payload@.len() && spec_decode(
                    payload@,
                    position as int,
                ) == Ok::<(FrameView, nat), ErrorView>((frame@, (end - position) as nat)),
                Err(e) => spec_decode(payload@, position as int) == Err::<
                    (FrameView, nat),
                    ErrorView,
                >(e@),
            },
        decreases payload@.len() - position,
    {
        if position >= payload.len() {
            return Err(Error::Incomplete);
        }
        let tag: u8 = payload[position];
        if tag == TAG_SIMPLE {
            match decode_text(payload, position + 1) {
                Ok((text, next)) => Ok((Frame::Simple(text), next)),
                Err(e) => Err(e),
            }
        } else if tag == TAG_ERROR {
            match decode_text(payload, position + 1) {
                Ok((text, next)) => Ok((Frame::SimpleError(text), next)),
                Err(e) => Err(e),
            }
        } else if tag == TAG_INTEGER {
            match get_uint(payload, position + 1) {
                Ok((value, next)) => Ok((Frame::Integer(value), next)),
                Err(e) => Err(e),
            }
        } else if tag == TAG_BULK {
            decode_bulk(payload, position + 1)
        } else if tag == TAG_ARRAY {
            match get_uint(payload, position + 1) {
                Err(e) => Err(e),
                Ok((count, start)) => {
                    let mut out: Vec<Frame> = Vec::new();
                    let mut next: usize = start;
                    let mut i: u64 = 0;
                    while i < count
                        invariant
                            i <= count,
                            position < start <= next <= payload@.len(),
                            payload@[position as int] == TAG_ARRAY,
                            spec_uint(payload@, position + 1) == Ok::<(u64, nat), ErrorView>(
                                (count, (start - position - 1) as nat),
                            ),
                            out@.len() == i,
                            match spec_decode_all(payload@, next as int, (count - i) as nat) {
                                Ok((frames, m)) => spec_decode_all(
                                    payload@,
                                    start as int,
                                    count as nat,
                                ) == Ok::<(Seq<FrameView>, nat), ErrorView>(
                                    (views(out@) + frames, (next - start + m) as nat),
                                ),
                                Err(e) => spec_decode_all(payload@, start as int, count as nat)
                                    == Err::<(Seq<FrameView>, nat), ErrorView>(e),
                            },
                        decreases count - i,
                    {
                        proof {
                            lemma_decode_bounds(payload@, next as int);
                        }
                        match Frame::decode(payload, next) {
                            Err(e) => {
                                return Err(e);
                            },
                            Ok((frame, end)) => {
                                proof {
                                    let rest = spec_decode_all(
                                        payload@,
                                        end as int,
                                        (count - i - 1) as nat,
                                    );
                                    if let Ok((frames, m)) = rest {
                                        assert(views(out@.push(frame)) + frames =~= views(out@)
                                            + (seq![frame@] + frames)) by {
                                            lemma_views(out@);
                                            lemma_views(out@.push(frame));
                                        }
                                    }
                                }
                                out.push(frame);
                                next = end;
                            },
                        }
                        i += 1;
                    }
                    Ok((Frame::Array(out), next))
                },
            }
        } else {
            let mut text = "unknown frame leading byte ".to_string();
            append_decimal(tag as u64, &mut text);
            Err(Error::Other(text))
        }
    }
}

/// The line delimiter, CR LF.
pub open spec fn crlf() -> Seq<u8> {
    seq![CR, LF]
}

/// The bytes that [`Frame::encode`] gives for a frame of value `frame`.
pub open spec fn spec_encode(frame: FrameView) -> Seq<u8>
    decreases frame,
{
    match frame {
        FrameView::Simple(text) => seq![TAG_SIMPLE] + encode_utf8(text) + crlf(),
        FrameView::SimpleError(text) => seq![TAG_ERROR] + encode_utf8(text) + crlf(),
        FrameView::Integer(value) => seq![TAG_INTEGER] + decimal_digits(value as nat) + crlf(),
        FrameView::Bulk(data) => seq![TAG_BULK] + decimal_digits(data.len()) + crlf() + data
            + crlf(),
        FrameView::Null => seq![TAG_BULK, TAG_ERROR, DIGIT_ONE] + crlf(),
        FrameView::Array(frames) => seq![TAG_ARRAY] + decimal_digits(frames.len()) + crlf()
            + spec_encode_all(frames),
    }
}

/// The encodings of `frames`, one after the other.
pub open spec fn spec_encode_all(frames: Seq<FrameView>) -> Seq<u8>
    decreases frames,
{
    if frames.len() == 0 {
        Seq::empty()
    } else {
        spec_encode(frames.first()) + spec_encode_all(frames.drop_first())
    }
}

/// Encoding one frame more appends its encoding.
pub proof fn lemma_encode_all_push(frames: Seq<FrameView>, frame: FrameView)
    ensures
        spec_encode_all(frames.push(frame)) == spec_encode_all(frames) + spec_encode(frame),
    decreases frames.len(),
{
    let all = frames.push(frame);
    if frames.len() == 0 {
        assert(spec_encode_all(all.drop_first()) =~= Seq::<u8>::empty());
    } else {
        lemma_encode_all_push(frames.drop_first(), frame);
        assert(all.drop_first() =~= frames.drop_first().push(frame));
    }
}

/// Appends `bytes` to `out`.
fn extend(out: &mut Vec<u8>, bytes: &[u8])
    ensures
        final(out)@ == old(out)@ + bytes@,
{
    out.extend_from_slice(bytes);
}

/// Appends the line delimiter to `out`.
fn end_line(out: &mut Vec<u8>)
    ensures
        final(out)@ == old(out)@ + crlf(),
{
    out.push(CR);
    out.push(LF);
}

impl Frame {
    /// Encodes the frame: its leading byte, then what the kind asks for.
    ///
    /// A status text or error line is written as it is and ended with CR LF; an
    /// integer as its decimal numeral; a bulk string as its length, CR LF, its
    /// bytes, CR LF; the null value as `$-1`; an array as the count of its
    /// elements, CR LF, and then each element's encoding, with nothing after
    /// the last.
    pub fn encode(&self) -> (bytes: Vec<u8>)
        ensures
            bytes@ == spec_encode(self@),
        decreases self,
    {
        let mut bytes: Vec<u8> = Vec::new();
        match self {
            Frame::Simple(text) => {
                bytes.push(TAG_SIMPLE);
                extend(&mut bytes, text.as_str().as_bytes());
                end_line(&mut bytes);
            },
            Frame::SimpleError(text) => {
                bytes.push(TAG_ERROR);
                extend(&mut bytes, text.as_str().as_bytes());
                end_line(&mut bytes);
            },
            Frame::Integer(value) => {
                bytes.push(TAG_INTEGER);
                write_decimal(*value, &mut bytes);
                end_line(&mut bytes);
            },
            Frame::Bulk(data) => {
                let slice = bytes_as_slice(data);
                bytes.push(TAG_BULK);
                write_decimal(slice.len() as u64, &mut bytes);
                end_line(&mut bytes);
                extend(&mut bytes, slice);
                end_line(&mut bytes);
            },
            Frame::Null => {
                bytes.push(TAG_BULK);
                bytes.push(TAG_ERROR);
                bytes.push(DIGIT_ONE);
                end_line(&mut bytes);
            },
            Frame::Array(frames) => {
                bytes.push(TAG_ARRAY);
                write_decimal(frames.len() as u64, &mut bytes);
                end_line(&mut bytes);
                let ghost header = bytes@;
                let mut i: usize = 0;
                proof {
                    lemma_views(frames@);
                }
                while i < frames.len()
                    invariant
                        i <= frames@.len(),
                        self is Array,
                        self->Array_0 == *frames,
                        views(frames@).len() == frames@.len(),
                        bytes@ == header + spec_encode_all(views(frames@).take(i as int)),
                    decreases frames@.len() - i,
                {
                    let element = frames[i].encode();
                    proof {
                        lemma_views(frames@);
                        let done = views(frames@).take(i as int);
                        lemma_encode_all_push(done, frames@[i as int]@);
                        assert(done.push(frames@[i as int]@) =~= views(frames@).take(i + 1));
                    }
                    extend(&mut bytes, element.as_slice());
                    i += 1;
                }
                proof {
                    lemma_views(frames@);
                    assert(views(frames@).take(i as int) =~= views(frames@));
                }
            },
        }
        bytes
    }
}

} // verus!
