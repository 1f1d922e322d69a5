//! The receive side of a connection: the buffer that cuts a byte stream into
//! frames, and the bytes to send for a reply.
//!
//! The stream itself is the driver's. To get a frame the driver steps
//! [`Connection::read_frame`], first with [`Input::Start`]; as long as the step
//! answers [`Step::Read`] it reads from the stream once and steps again with
//! what the read gave. A reply is sent by writing the bytes of
//! [`Connection::write_frame`] and flushing them before the next read, so that
//! on one connection each request is answered before the next is looked at.
use crate::buffer::bytes_mut_advance;
use crate::buffer::bytes_mut_as_slice;
use crate::buffer::bytes_mut_view;
use crate::frame::spec_decode;
use crate::frame::spec_encode;
use crate::frame::Frame;
use crate::frame::FrameView;
use crate::roundtrip::theorem_part_is_incomplete;
use crate::roundtrip::theorem_round_trip;
use crate::roundtrip::wire_safe;
use crate::Error;
use crate::ErrorView;
use bytes::BytesMut;
use vstd::prelude::*;

verus! {

/// The bytes received on a connection and not yet consumed by a frame.
pub struct Connection {
    buffer: BytesMut,
}

impl View for Connection {
    type V = Seq<u8>;

    /// The bytes in the buffer, oldest first.
    closed spec fn view(&self) -> Seq<u8> {
        bytes_mut_view(self.buffer)
    }
}

/// What the driver brings to a step of [`Connection::read_frame`].
pub enum Input<'a> {
    /// Nothing: the driver has not read since the last frame.
    Start,
    /// The bytes that one read from the stream gave. None at all means that
    /// the peer has closed the stream.
    Read(&'a [u8]),
}

/// The mathematical value of an [`Input`].
pub enum InputView {
    Start,
    Read(Seq<u8>),
}

impl<'a> View for Input<'a> {
    type V = InputView;

    open spec fn view(&self) -> InputView {
        match self {
            Input::Start => InputView::Start,
            Input::Read(bytes) => InputView::Read(bytes@),
        }
    }
}

/// What a step of [`Connection::read_frame`] asks of the driver.
#[derive(Debug)]
pub enum Step {
    /// Here is the next frame.
    Frame(Frame),
    /// The buffer ends before the next frame does: read from the stream, and
    /// step again with what the read gave.
    Read,
    /// The peer has closed the stream between two frames: there are no more
    /// frames.
    Closed,
    /// The connection is to be given up.
    Failed(Error),
}

/// The mathematical value of a [`Step`].
pub enum StepView {
    Frame(FrameView),
    Read,
    Closed,
    Failed(ErrorView),
}

impl View for Step {
    type V = StepView;

    open spec fn view(&self) -> StepView {
        match self {
            Step::Frame(frame) => StepView::Frame(frame@),
            Step::Read => StepView::Read,
            Step::Closed => StepView::Closed,
            Step::Failed(error) => StepView::Failed(error@),
        }
    }
}

/// What [`Connection::parse_frame`] makes of the buffered bytes `buffer`: the
/// step, and the bytes that stay in the buffer.
pub open spec fn spec_parse_frame(buffer: Seq<u8>) -> (StepView, Seq<u8>) {
    match spec_decode(buffer, 0) {
        Ok((frame, used)) => (StepView::Frame(frame), buffer.skip(used as int)),
        Err(crate::frame::ErrorView::Incomplete) => (StepView::Read, buffer),
        Err(crate::frame::ErrorView::Other(text)) => (
            StepView::Failed(ErrorView::Protocol(text)),
            buffer,
        ),
    }
}

/// What [`Connection::read_frame`] makes of the buffered bytes `buffer` and the
/// input `input`: the step, and the bytes that stay in the buffer.
pub open spec fn spec_read_frame(buffer: Seq<u8>, input: InputView) -> (StepView, Seq<u8>) {
    match input {
        InputView::Start => spec_parse_frame(buffer),
        InputView::Read(bytes) => if bytes.len() > 0 {
            spec_parse_frame(buffer + bytes)
        } else if buffer.len() == 0 {
            (StepView::Closed, buffer)
        } else {
            (StepView::Failed(ErrorView::ConnectionReset), buffer)
        },
    }
}

/// The size in bytes with which a receive buffer starts out.
pub const INITIAL_CAPACITY: usize = 4096;

impl Connection {
    /// Returns a connection that has received nothing.
    pub fn new() -> (connection: Connection)
        ensures
            connection@ == Seq::<u8>::empty(),
    {
        Connection { buffer: BytesMut::with_capacity(INITIAL_CAPACITY) }
    }

    /// Decodes one frame from the front of the buffer.
    ///
    /// Where the buffer starts with a whole frame, the frame is returned and
    /// its bytes leave the buffer; what follows them stays. Where the buffer
    /// ends before the frame does, the answer is [`Step::Read`]; where its
    /// bytes can start no frame, it is a protocol error. The buffer is left as
    /// it is in both cases.
    pub fn parse_frame(&mut self) -> (step: Step)
        ensures
            (step@, final(self)@) == spec_parse_frame(old(self)@),
    {
        match Frame::decode(bytes_mut_as_slice(&self.buffer), 0) {
            Ok((frame, end)) => {
                bytes_mut_advance(&mut self.buffer, end);
                Step::Frame(frame)
            },
            Err(crate::frame::Error::Incomplete) => Step::Read,
            Err(crate::frame::Error::Other(text)) => Step::Failed(Error::Protocol(text)),
        }
    }

    /// One step towards the next frame.
    ///
    /// With [`Input::Start`], and with the bytes of a read, which are put at
    /// the end of the buffer first, the step is that of
    /// [`Connection::parse_frame`]. A read that gave no bytes is the end of the
    /// stream: a clean one where the buffer is empty, and a connection reset
    /// where the buffer holds the beginning of a frame.
    pub fn read_frame(&mut self, input: Input<'_>) -> (step: Step)
        ensures
            (step@, final(self)@) == spec_read_frame(old(self)@, input@),
    {
        match input {
            Input::Start => self.parse_frame(),
            Input::Read(bytes) => {
                if bytes.len() > 0 {
                    self.buffer.extend_from_slice(bytes);
                    self.parse_frame()
                } else if bytes_mut_as_slice(&self.buffer).len() == 0 {
                    Step::Closed
                } else {
                    Step::Failed(Error::ConnectionReset)
                }
            },
        }
    }

    /// The bytes that carry `frame` to the peer. The driver writes all of them
    /// and flushes before it reads again.
    pub fn write_frame(&self, frame: Frame) -> (bytes: Vec<u8>)
        ensures
            bytes@ == spec_encode(frame@),
    {
        frame.encode()
    }
}

/// What the driver ends up with when it starts on the buffered bytes `buffer`
/// and its reads give `chunks`, one after the other: the first step that asks
/// for no read, or the last step where the chunks run out before that, and the
/// bytes that stay in the buffer.
pub open spec fn spec_deliver(buffer: Seq<u8>, chunks: Seq<Seq<u8>>) -> (StepView, Seq<u8>) {
    spec_feed(spec_read_frame(buffer, InputView::Start), chunks)
}

/// What the driver ends up with when the last step was `state.0`, the buffer
/// holds `state.1`, and its reads have `chunks` yet to give.
pub open spec fn spec_feed(state: (StepView, Seq<u8>), chunks: Seq<Seq<u8>>) -> (
    StepView,
    Seq<u8>,
)
    decreases chunks.len(),
{
    if state.0 is Read && chunks.len() > 0 {
        spec_feed(
            spec_read_frame(state.1, InputView::Read(chunks.first())),
            chunks.drop_first(),
        )
    } else {
        state
    }
}

/// Chunks that hold a byte each hold a byte together.
proof fn lemma_flatten_not_empty(chunks: Seq<Seq<u8>>)
    requires
        chunks.len() > 0,
        chunks.first().len() > 0,
    ensures
        chunks.flatten().len() > 0,
{
}

/// Once the buffer holds the beginning of a frame's encoding, the chunks that
/// bring the rest of it deliver the frame and leave the buffer empty.
proof fn lemma_feed(frame: FrameView, buffer: Seq<u8>, chunks: Seq<Seq<u8>>)
    requires
        wire_safe(frame),
        chunks.len() > 0,
        forall|i: int| 0 <= i < chunks.len() ==> (#[trigger] chunks[i]).len() > 0,
        buffer + chunks.flatten() == spec_encode(frame),
    ensures
        spec_feed((StepView::Read, buffer), chunks) == (
            StepView::Frame(frame),
            Seq::<u8>::empty(),
        ),
    decreases chunks.len(),
{
    let encoded = spec_encode(frame);
    let chunk = chunks.first();
    let rest = chunks.drop_first();
    let grown = buffer + chunk;
    assert(chunk.len() > 0);
    assert(grown + rest.flatten() =~= buffer + chunks.flatten());
    let next = spec_read_frame(buffer, InputView::Read(chunk));
    assert(next == spec_parse_frame(grown));
    assert(spec_feed((StepView::Read, buffer), chunks) == spec_feed(next, rest));
    if rest.len() == 0 {
        assert(rest.flatten() =~= Seq::<u8>::empty());
        assert(grown =~= encoded);
        theorem_round_trip(frame, Seq::empty());
        assert(grown.skip(encoded.len() as int) =~= Seq::<u8>::empty());
        assert(next == (StepView::Frame(frame), Seq::<u8>::empty()));
    } else {
        assert forall|i: int| 0 <= i < rest.len() implies (#[trigger] rest[i]).len() > 0 by {
            assert(rest[i] == chunks[i + 1]);
        }
        lemma_flatten_not_empty(rest);
        assert(grown =~= encoded.take(grown.len() as int));
        theorem_part_is_incomplete(frame, grown.len() as int);
        assert(next == (StepView::Read, grown));
        lemma_feed(frame, grown, rest);
    }
}

/// Incremental delivery. The bytes of an encoded frame, cut into chunks at any
/// places and read one chunk at a time, deliver the frame that they deliver
/// when read at once, and leave the buffer empty. A chunk holds a byte at
/// least: a read that gives none is the end of the stream.
pub proof fn theorem_incremental_delivery(frame: FrameView, chunks: Seq<Seq<u8>>)
    requires
        wire_safe(frame),
        forall|i: int| 0 <= i < chunks.len() ==> (#[trigger] chunks[i]).len() > 0,
        chunks.flatten() == spec_encode(frame),
    ensures
        spec_deliver(Seq::empty(), chunks) == (StepView::Frame(frame), Seq::<u8>::empty()),
        spec_deliver(Seq::empty(), chunks) == spec_deliver(
            Seq::empty(),
            seq![spec_encode(frame)],
        ),
{
    let encoded = spec_encode(frame);
    let nothing = Seq::<u8>::empty();
    assert(encoded.len() > 0);
    assert(chunks.len() > 0) by {
        if chunks.len() == 0 {
            assert(chunks.flatten() =~= Seq::<u8>::empty());
        }
    }
    assert(spec_read_frame(nothing, InputView::Start) == (StepView::Read, nothing));
    assert(nothing + chunks.flatten() =~= encoded);
    lemma_feed(frame, nothing, chunks);
    let whole = seq![encoded];
    assert(whole.flatten() =~= encoded) by {
        assert(whole.drop_first() =~= Seq::<Seq<u8>>::empty());
        assert(whole.first() =~= encoded);
        assert(whole.drop_first().flatten() =~= Seq::<u8>::empty());
    }
    assert(nothing + whole.flatten() =~= encoded);
    lemma_feed(frame, nothing, whole);
}

} // verus!
