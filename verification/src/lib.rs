//! The core of a small key-value server that speaks a Redis-like wire protocol.
//!
//! The crate does no I/O. A driver owns the sockets and the lock around the
//! store; it hands this library the bytes it has read and writes out the bytes
//! this library gives back.
//!
//! * [`frame`]: the wire values and their codec.
//! * [`command`]: requests parsed from frames and run against the store.
//! * [`connection`]: the receive buffer that cuts a byte stream into frames.
//! * [`server`]: the per-connection dispatcher.
//! * [`database`]: the store.
//! * [`roundtrip`] and [`requests`]: what is proved of the codec and of whole
//!   requests.
//! * [`decimal`], [`text`], [`clock`] and [`buffer`]: numerals, strings, time,
//!   and the contracts of the `bytes` crate.
use vstd::prelude::*;

pub mod buffer;
pub mod clock;
pub mod command;
pub mod connection;
pub mod database;
pub mod decimal;
pub mod frame;
pub mod requests;
pub mod roundtrip;
pub mod server;
pub mod text;

verus! {

/// Why a connection is given up.
#[derive(Debug)]
pub enum Error {
    /// The peer broke the protocol; the text says how.
    Protocol(String),
    /// The peer closed the stream in the middle of a frame.
    ConnectionReset,
}

/// The mathematical value of an [`Error`].
pub enum ErrorView {
    Protocol(Seq<char>),
    ConnectionReset,
}

impl View for Error {
    type V = ErrorView;

    open spec fn view(&self) -> ErrorView {
        match self {
            Error::Protocol(text) => ErrorView::Protocol(text@),
            Error::ConnectionReset => ErrorView::ConnectionReset,
        }
    }
}

/// The text that tells of a stream closed in the middle of a frame.
pub open spec fn connection_reset() -> Seq<char> {
    "connection reset by peer"@
}

impl Error {
    /// What the error says of itself, for a log or a report.
    pub fn message(&self) -> (text: String)
        ensures
            text@ == match self@ {
                ErrorView::Protocol(reason) => reason,
                ErrorView::ConnectionReset => connection_reset(),
            },
    {
        match self {
            Error::Protocol(reason) => reason.clone(),
            Error::ConnectionReset => "connection reset by peer".to_string(),
        }
    }
}

/// What the functions of this crate return that can give a connection up.
pub type Result<T> = std::result::Result<T, Error>;

} // verus!
