//! The dispatcher: one request in, one reply out, in the order received.
//!
//! A connection waits for a frame, runs it, replies, and waits again, until the
//! peer closes the stream between two frames. A frame that cannot be decoded
//! and a request that cannot be read give the connection up: the protocol has
//! no mark at which to find the next request again.
use crate::clock::TimeSpan;
use crate::command::set::spec_options;
use crate::command::set::Options;
use crate::command::spec_parse;
use crate::command::spec_reply;
use crate::command::spec_store;
use crate::command::Command;
use crate::command::Store;
use crate::connection::spec_read_frame;
use crate::connection::Connection;
use crate::connection::Input;
use crate::connection::InputView;
use crate::connection::Step;
use crate::connection::StepView;
use crate::database::new_db;
use crate::database::Database;
use crate::frame::spec_encode;
use crate::frame::views;
use crate::frame::Frame;
use crate::frame::FrameView;
use crate::Error;
use crate::ErrorView;
use vstd::prelude::*;

verus! {

/// The store with the commands that run against it.
pub struct Server {
    pub db: Database,
}

impl Default for Server {
    /// A server whose store holds nothing.
    fn default() -> (server: Server)
        ensures
            server.db@ == Map::<Seq<char>, Seq<u8>>::empty(),
    {
        Server { db: new_db() }
    }
}

/// The text of the error for a request that is no array.
pub open spec fn expected_array() -> Seq<char> {
    "protocol error; expected array"@
}

/// What [`Server::execute_at`] makes of the request frame `frame` when the
/// store holds `store` and the clock stands `now` after the epoch: the reply and
/// what the store holds afterwards, or why the request was not run.
pub open spec fn spec_execute(frame: FrameView, store: Store, now: TimeSpan) -> core::result::Result<
    (FrameView, Store),
    ErrorView,
> {
    match frame {
        FrameView::Array(frames) => match spec_parse(frames, now) {
            Ok(command) => Ok((spec_reply(command, store), spec_store(command, store))),
            Err(e) => Err(e),
        },
        _ => Err(ErrorView::Protocol(expected_array())),
    }
}

/// What the driver does after a step of [`Server::process`].
#[derive(Debug)]
pub enum Action {
    /// Write these bytes, the reply to a request, flush them, and step again
    /// with [`Input::Start`].
    Reply(Vec<u8>),
    /// Read from the stream, and step again with what the read gave.
    Read,
    /// Close the stream: the peer has left between two requests.
    Close,
    /// Give the connection up, without a reply.
    Abort(Error),
}

/// The mathematical value of an [`Action`].
pub enum ActionView {
    Reply(Seq<u8>),
    Read,
    Close,
    Abort(ErrorView),
}

impl View for Action {
    type V = ActionView;

    open spec fn view(&self) -> ActionView {
        match self {
            Action::Reply(bytes) => ActionView::Reply(bytes@),
            Action::Read => ActionView::Read,
            Action::Close => ActionView::Close,
            Action::Abort(error) => ActionView::Abort(error@),
        }
    }
}

/// What [`Server::process`] makes of the buffered bytes `buffer`, the store
/// `store` and the input `input`, when the clock stands `now` after the epoch:
/// the action, the bytes that stay in the buffer, and what the store holds
/// afterwards.
pub open spec fn spec_process(buffer: Seq<u8>, store: Store, input: InputView, now: TimeSpan) -> (
    ActionView,
    Seq<u8>,
    Store,
) {
    let (step, rest) = spec_read_frame(buffer, input);
    match step {
        StepView::Frame(frame) => match spec_execute(frame, store, now) {
            Ok((reply, after)) => (ActionView::Reply(spec_encode(reply)), rest, after),
            Err(e) => (ActionView::Abort(e), rest, store),
        },
        StepView::Read => (ActionView::Read, rest, store),
        StepView::Closed => (ActionView::Close, rest, store),
        StepView::Failed(e) => (ActionView::Abort(e), rest, store),
    }
}

impl Server {
    /// Runs the request that `frame` holds, with the clock standing `now` after
    /// the epoch, and returns the reply.
    ///
    /// The frame has to be an array, whose elements are read as a request. A
    /// frame of another kind, and an array that holds no request, are protocol
    /// errors, and leave the store as it is.
    pub fn execute_at(&mut self, frame: Frame, now: TimeSpan) -> (r: crate::Result<Frame>)
        ensures
            match spec_execute(frame@, old(self).db@, now) {
                Ok((reply, store)) => r matches Ok(f) && f@ == reply && final(self).db@ == store,
                Err(e) => r matches Err(error) && error@ == e && final(self).db@ == old(
                    self,
                ).db@,
            },
    {
        match frame {
            Frame::Array(frames) => match Command::try_from_at(frames.as_slice(), now) {
                Ok(command) => Ok(command.execute(&mut self.db)),
                Err(e) => Err(e),
            },
            _ => Err(Error::Protocol("protocol error; expected array".to_string())),
        }
    }

    /// Runs the request that `frame` holds and returns the reply, as
    /// [`Server::execute_at`] does. The clock is read for the time of life of a
    /// `SET`; neither the reply nor the store depends on what it shows.
    pub fn execute(&mut self, frame: Frame) -> (r: crate::Result<Frame>)
        ensures
            forall|now: TimeSpan|
                match #[trigger] spec_execute(frame@, old(self).db@, now) {
                    Ok((reply, store)) => r matches Ok(f) && f@ == reply && final(self).db@
                        == store,
                    Err(e) => r matches Err(error) && error@ == e && final(self).db@ == old(
                        self,
                    ).db@,
                },
    {
        let ghost request = frame@;
        let ghost store = self.db@;
        match frame {
            Frame::Array(frames) => {
                let parsed = Command::try_from(frames.as_slice());
                proof {
                    let shown = choose|now: TimeSpan|
                        match #[trigger] spec_parse(views(frames@), now) {
                            Ok(command) => parsed matches Ok(p) && p@ == command,
                            Err(e) => parsed matches Err(error) && error@ == e,
                        };
                    assert forall|now: TimeSpan|
                        spec_execute(request, store, now) == spec_execute(
                            request,
                            store,
                            shown,
                        ) by {
                        lemma_execute_any_time(request, store, now, shown);
                    }
                }
                match parsed {
                    Ok(command) => Ok(command.execute(&mut self.db)),
                    Err(e) => Err(e),
                }
            },
            _ => Err(Error::Protocol("protocol error; expected array".to_string())),
        }
    }

    /// One step of a connection: that of [`Connection::read_frame`], and for a
    /// frame the request run and the reply encoded. A request that is not run
    /// gets no reply.
    pub fn process(&mut self, connection: &mut Connection, input: Input<'_>) -> (action: Action)
        ensures
            forall|now: TimeSpan|
                (action@, final(connection)@, final(self).db@) == #[trigger] spec_process(
                    old(connection)@,
                    old(self).db@,
                    input@,
                    now,
                ),
    {
        match connection.read_frame(input) {
            Step::Frame(frame) => match self.execute(frame) {
                Ok(reply) => Action::Reply(connection.write_frame(reply)),
                Err(e) => Action::Abort(e),
            },
            Step::Read => Action::Read,
            Step::Closed => Action::Close,
            Step::Failed(e) => Action::Abort(e),
        }
    }
}

/// Do `a` and `b` differ in nothing but the time of life?
pub open spec fn same_but_ttl(a: Options, b: Options) -> bool {
    a.replacement == b.replacement && a.get == b.get
}

/// The clock decides nothing about the options of a `SET` but the time of life.
pub proof fn lemma_options_any_time(
    tokens: Seq<FrameView>,
    pos: int,
    now: TimeSpan,
    other: TimeSpan,
    seen: Options,
    seen_other: Options,
)
    requires
        same_but_ttl(seen, seen_other),
    ensures
        match (spec_options(tokens, pos, now, seen), spec_options(tokens, pos, other, seen_other)) {
            (Ok(a), Ok(b)) => same_but_ttl(a, b),
            (Err(a), Err(b)) => a == b,
            _ => false,
        },
    decreases tokens.len() - pos,
{
    if 0 <= pos < tokens.len() {
        match crate::command::text_of(tokens[pos]) {
            Err(_) => {},
            Ok(word) => {
                if crate::command::set::takes_argument(word) {
                    match crate::command::spec_next_integer(tokens, pos + 1) {
                        Err(_) => {},
                        Ok(amount) => {
                            lemma_options_any_time(
                                tokens,
                                pos + 2,
                                now,
                                other,
                                Options {
                                    ttl: crate::command::set::spec_ttl(word, amount, now),
                                    ..seen
                                },
                                Options {
                                    ttl: crate::command::set::spec_ttl(word, amount, other),
                                    ..seen_other
                                },
                            );
                        },
                    }
                } else {
                    lemma_options_any_time(
                        tokens,
                        pos + 1,
                        now,
                        other,
                        crate::command::set::spec_flag(word, seen),
                        crate::command::set::spec_flag(word, seen_other),
                    );
                }
            },
        }
    }
}

/// Neither the reply to a request nor what it does to the store depends on the
/// clock, and neither does the error of a request that is not run.
pub proof fn lemma_execute_any_time(frame: FrameView, store: Store, now: TimeSpan, other: TimeSpan)
    ensures
        spec_execute(frame, store, now) == spec_execute(frame, store, other),
{
    if let FrameView::Array(frames) = frame {
        lemma_options_any_time(
            frames.skip(1),
            2,
            now,
            other,
            crate::command::set::no_options(),
            crate::command::set::no_options(),
        );
    }
}

/// A request under a name that no command bears is answered with an error
/// line that names it, and leaves the store as it is.
pub proof fn theorem_unknown_command(frames: Seq<FrameView>, store: Store, now: TimeSpan)
    requires
        crate::command::spec_next_string(frames, 0) matches Ok(name) && name != "GET"@ && name
            != "MGET"@ && name != "SET"@,
    ensures
        spec_execute(FrameView::Array(frames), store, now) matches Ok((reply, after)) && reply
            == crate::command::unknown::not_implemented(
            crate::command::spec_next_string(frames, 0)->Ok_0,
        ) && reply is SimpleError && after == store,
{
}

/// A frame that is no array is no request: it is a protocol error, the store
/// stays as it is, and the connection is given up without a reply.
pub proof fn theorem_not_an_array(
    frame: FrameView,
    buffer: Seq<u8>,
    store: Store,
    input: InputView,
    now: TimeSpan,
)
    requires
        !(frame is Array),
    ensures
        spec_execute(frame, store, now) == Err::<(FrameView, Store), ErrorView>(
            ErrorView::Protocol(expected_array()),
        ),
        spec_read_frame(buffer, input).0 == StepView::Frame(frame) ==> {
            &&& spec_process(buffer, store, input, now).0 == ActionView::Abort(
                ErrorView::Protocol(expected_array()),
            )
            &&& spec_process(buffer, store, input, now).2 == store
        },
{
}

} // verus!
