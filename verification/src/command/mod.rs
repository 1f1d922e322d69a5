//! Requests: parsed from the frames of an array, then run against the store.
//!
//! The first frame of a request names the command, case-sensitively; the frames
//! after it are its arguments. A name that no command bears gives
//! [`Unknown`], which is a request like the others and no parse error.
use crate::buffer::bytes_view;
use crate::clock::TimeSpan;
use crate::database::Database;
use crate::frame::lemma_views;
use crate::frame::views;
use crate::frame::Frame;
use crate::frame::FrameView;
use crate::text::string_from_utf8;
use crate::Error;
use crate::ErrorView;
use bytes::Bytes;
use vstd::prelude::*;
use vstd::slice::slice_subrange;
use vstd::utf8::decode_utf8;
use vstd::utf8::encode_utf8;
use vstd::utf8::valid_utf8;

pub mod get;
pub mod mget;
pub mod set;
pub mod theorems;
pub mod unknown;

verus! {

/// What the store holds: the bytes under each key.
pub type Store = Map<Seq<char>, Seq<u8>>;

/// When `SET` may write.
#[derive(Debug, Clone, Copy, PartialEq, Eq, Structural)]
pub enum Replacement {
    /// Always.
    Always,
    /// Only where the key holds nothing yet (`NX`).
    Never,
    /// Only where the key holds a value already (`XX`).
    OnlyOverride,
}

impl Default for Replacement {
    fn default() -> (r: Replacement)
        ensures
            r == Replacement::Always,
    {
        Replacement::Always
    }
}

/// The mathematical value of a request.
pub enum CommandView {
    Get { key: Seq<char> },
    MGet { keys: Seq<Seq<char>> },
    SetValue {
        key: Seq<char>,
        value: Seq<u8>,
        ttl: Option<TimeSpan>,
        replacement: Replacement,
        get: bool,
    },
    Unknown { name: Seq<char> },
}

/// A request.
#[derive(Debug)]
pub enum Command {
    Get(get::Get),
    MGet(mget::MGet),
    SetValue(set::SetValue),
    Unknown(unknown::Unknown),
}

impl View for Command {
    type V = CommandView;

    open spec fn view(&self) -> CommandView {
        match self {
            Command::Get(command) => command@,
            Command::MGet(command) => command@,
            Command::SetValue(command) => command@,
            Command::Unknown(command) => command@,
        }
    }
}

/// The text of the error for a request that ends where a token is due.
pub open spec fn unexpected_end() -> Seq<char> {
    "protocol error; unexpected end of request"@
}

/// The text of the error for a bulk string that should be text and is not UTF-8.
pub open spec fn invalid_string() -> Seq<char> {
    "protocol error; invalid string"@
}

/// The text of the error for a frame that is neither a simple nor a bulk string.
pub open spec fn expected_text() -> Seq<char> {
    "protocol error; expected simple frame or bulk frame"@
}

/// The text of the error for a frame that should be an integer and is not.
pub open spec fn expected_integer() -> Seq<char> {
    "protocol error; expected integer frame"@
}

/// The text of the error for a request without a command name.
pub open spec fn lack_of_name() -> Seq<char> {
    "Lack of command name"@
}

/// The text that `token` stands for: that of a simple string, or the UTF-8
/// reading of a bulk string.
pub open spec fn text_of(token: FrameView) -> core::result::Result<Seq<char>, ErrorView> {
    match token {
        FrameView::Simple(text) => Ok(text),
        FrameView::Bulk(data) => if valid_utf8(data) {
            Ok(decode_utf8(data))
        } else {
            Err(ErrorView::Protocol(invalid_string()))
        },
        _ => Err(ErrorView::Protocol(expected_text())),
    }
}

/// The bytes that `token` stands for: those of a bulk string, or the UTF-8
/// encoding of a simple string.
pub open spec fn bytes_of(token: FrameView) -> core::result::Result<Seq<u8>, ErrorView> {
    match token {
        FrameView::Simple(text) => Ok(encode_utf8(text)),
        FrameView::Bulk(data) => Ok(data),
        _ => Err(ErrorView::Protocol(expected_text())),
    }
}

/// The number that `token` stands for: that of an integer frame.
pub open spec fn integer_of(token: FrameView) -> core::result::Result<u64, ErrorView> {
    match token {
        FrameView::Integer(value) => Ok(value),
        _ => Err(ErrorView::Protocol(expected_integer())),
    }
}

/// What [`next_string`] returns on the tokens `tokens` at `pos`.
pub open spec fn spec_next_string(tokens: Seq<FrameView>, pos: int) -> core::result::Result<
    Seq<char>,
    ErrorView,
> {
    if 0 <= pos < tokens.len() {
        text_of(tokens[pos])
    } else {
        Err(ErrorView::Protocol(unexpected_end()))
    }
}

/// What [`next_bytes`] returns on the tokens `tokens` at `pos`.
pub open spec fn spec_next_bytes(tokens: Seq<FrameView>, pos: int) -> core::result::Result<
    Seq<u8>,
    ErrorView,
> {
    if 0 <= pos < tokens.len() {
        bytes_of(tokens[pos])
    } else {
        Err(ErrorView::Protocol(unexpected_end()))
    }
}

/// What [`next_integer`] returns on the tokens `tokens` at `pos`.
pub open spec fn spec_next_integer(tokens: Seq<FrameView>, pos: int) -> core::result::Result<
    u64,
    ErrorView,
> {
    if 0 <= pos < tokens.len() {
        integer_of(tokens[pos])
    } else {
        Err(ErrorView::Protocol(unexpected_end()))
    }
}

/// Reads the token at `position` as text.
///
/// A simple string gives its text, a bulk string its bytes read as UTF-8. The
/// result is an error where the bulk string is not UTF-8, where the frame is of
/// another kind, and where `frames` has no token at `position`.
pub fn next_string(frames: &[Frame], position: usize) -> (r: crate::Result<String>)
    ensures
        match spec_next_string(views(frames@), position as int) {
            Ok(text) => r matches Ok(string) && string@ == text,
            Err(e) => r matches Err(error) && error@ == e,
        },
{
    proof {
        lemma_views(frames@);
    }
    if position >= frames.len() {
        return Err(Error::Protocol("protocol error; unexpected end of request".to_string()));
    }
    match &frames[position] {
        Frame::Simple(text) => Ok(text.clone()),
        Frame::Bulk(data) => match string_from_utf8(crate::buffer::bytes_as_slice(data)) {
            Some(text) => Ok(text),
            None => Err(Error::Protocol("protocol error; invalid string".to_string())),
        },
        _ => Err(
            Error::Protocol("protocol error; expected simple frame or bulk frame".to_string()),
        ),
    }
}

/// Reads the token at `position` as bytes.
///
/// A bulk string gives its bytes, a simple string the UTF-8 encoding of its
/// text. The result is an error where the frame is of another kind, and where
/// `frames` has no token at `position`.
pub fn next_bytes(frames: &[Frame], position: usize) -> (r: crate::Result<Bytes>)
    ensures
        match spec_next_bytes(views(frames@), position as int) {
            Ok(data) => r matches Ok(bytes) && bytes_view(bytes) == data,
            Err(e) => r matches Err(error) && error@ == e,
        },
{
    proof {
        lemma_views(frames@);
    }
    if position >= frames.len() {
        return Err(Error::Protocol("protocol error; unexpected end of request".to_string()));
    }
    match &frames[position] {
        Frame::Simple(text) => Ok(Bytes::copy_from_slice(text.as_str().as_bytes())),
        Frame::Bulk(data) => Ok(data.clone()),
        _ => Err(
            Error::Protocol("protocol error; expected simple frame or bulk frame".to_string()),
        ),
    }
}

/// Reads the token at `position` as a number.
///
/// An integer frame gives its number. The result is an error where the frame is
/// of another kind, and where `frames` has no token at `position`.
pub fn next_integer(frames: &[Frame], position: usize) -> (r: crate::Result<u64>)
    ensures
        match spec_next_integer(views(frames@), position as int) {
            Ok(value) => r matches Ok(number) && number == value,
            Err(e) => r matches Err(error) && error@ == e,
        },
{
    proof {
        lemma_views(frames@);
    }
    if position >= frames.len() {
        return Err(Error::Protocol("protocol error; unexpected end of request".to_string()));
    }
    match &frames[position] {
        Frame::Integer(value) => Ok(*value),
        _ => Err(Error::Protocol("protocol error; expected integer frame".to_string())),
    }
}

/// Does `text` read `word`?
pub fn is_word(text: &String, word: &str) -> (r: bool)
    ensures
        r == (text@ == word@),
{
    *text == word.to_string()
}

/// The value that the store `store` holds under `key`, as a reply: a bulk
/// string, or the null value where it holds none.
pub open spec fn lookup(store: Store, key: Seq<char>) -> FrameView {
    if store.contains_key(key) {
        FrameView::Bulk(store[key])
    } else {
        FrameView::Null
    }
}

/// Looks `key` up in `db` for a reply.
pub fn fetch(db: &Database, key: &str) -> (reply: Frame)
    ensures
        reply@ == lookup(db@, key@),
{
    match db.get(key) {
        Some(value) => Frame::Bulk(value),
        None => Frame::Null,
    }
}

/// What [`Command::try_from_at`] returns on the frames `frames` of a request,
/// when the clock stands `now` after the epoch.
pub open spec fn spec_parse(frames: Seq<FrameView>, now: TimeSpan) -> core::result::Result<
    CommandView,
    ErrorView,
> {
    match spec_next_string(frames, 0) {
        Err(_) => Err(ErrorView::Protocol(lack_of_name())),
        Ok(name) => if name == "GET"@ {
            get::spec_get(frames.skip(1))
        } else if name == "MGET"@ {
            Ok(CommandView::MGet { keys: mget::spec_keys(frames.skip(1), 0) })
        } else if name == "SET"@ {
            set::spec_set(frames.skip(1), now)
        } else {
            Ok(CommandView::Unknown { name })
        },
    }
}

/// The reply to the request `command` when the store holds `store`.
pub open spec fn spec_reply(command: CommandView, store: Store) -> FrameView {
    match command {
        CommandView::Get { key } => lookup(store, key),
        CommandView::MGet { keys } => mget::lookups(store, keys),
        CommandView::SetValue { key, value, ttl, replacement, get } => if get {
            lookup(store, key)
        } else {
            set::ok()
        },
        CommandView::Unknown { name } => unknown::not_implemented(name),
    }
}

/// What the store holds after the request `command`, when it held `store`
/// before.
pub open spec fn spec_store(command: CommandView, store: Store) -> Store {
    match command {
        CommandView::SetValue { key, value, ttl, replacement, get } => set::written(
            store,
            key,
            value,
            replacement,
        ),
        _ => store,
    }
}

/// The arguments of a request are its frames but the first.
pub proof fn lemma_views_skip(frames: Seq<Frame>)
    requires
        frames.len() >= 1,
    ensures
        views(frames.subrange(1, frames.len() as int)) == views(frames).skip(1),
{
    lemma_views(frames);
    lemma_views(frames.subrange(1, frames.len() as int));
}

/// Reads a request from the frames of an array, at the time `at` where one is
/// given, and else at the time that the wall clock shows.
fn parse(frames: &[Frame], at: Option<TimeSpan>) -> (r: crate::Result<Command>)
    ensures
        exists|now: TimeSpan|
            (at matches Some(given) ==> now == given) && match #[trigger] spec_parse(
                views(frames@),
                now,
            ) {
                Ok(command) => r matches Ok(parsed) && parsed@ == command,
                Err(e) => r matches Err(error) && error@ == e,
            },
{
    let ghost any = match at {
        Some(given) => given,
        None => TimeSpan { nanos: 0 },
    };
    let name = match next_string(frames, 0) {
        Ok(name) => name,
        Err(_) => {
            assert(spec_parse(views(frames@), any) is Err);
            return Err(Error::Protocol("Lack of command name".to_string()));
        },
    };
    proof {
        lemma_views(frames@);
        lemma_views_skip(frames@);
    }
    let arguments = slice_subrange(frames, 1, frames.len());
    if is_word(&name, "GET") {
        match get::Get::try_from(arguments) {
            Ok(command) => Ok(Command::Get(command)),
            Err(e) => Err(e),
        }
    } else if is_word(&name, "MGET") {
        Ok(Command::MGet(mget::MGet::from(arguments)))
    } else if is_word(&name, "SET") {
        let parsed = match at {
            Some(now) => set::SetValue::try_from_at(arguments, now),
            None => set::SetValue::try_from(arguments),
        };
        proof {
            let now = choose|now: TimeSpan|
                (at matches Some(given) ==> now == given) && match #[trigger] set::spec_set(
                    views(arguments@),
                    now,
                ) {
                    Ok(command) => parsed matches Ok(set) && set@ == command,
                    Err(e) => parsed matches Err(error) && error@ == e,
                };
            assert(spec_parse(views(frames@), now) == set::spec_set(views(arguments@), now));
        }
        match parsed {
            Ok(command) => Ok(Command::SetValue(command)),
            Err(e) => Err(e),
        }
    } else {
        Ok(Command::Unknown(unknown::Unknown { name }))
    }
}

impl Command {
    /// Reads a request from the frames of an array, with the clock standing
    /// `now` after the epoch.
    ///
    /// The first frame has to be text: it names the command. `GET`, `MGET` and
    /// `SET` read their arguments from the frames after it; any other name
    /// gives [`Command::Unknown`]. A request without a name is an error, and so
    /// is one whose command does not find the arguments it needs.
    pub fn try_from_at(frames: &[Frame], now: TimeSpan) -> (r: crate::Result<Command>)
        ensures
            match spec_parse(views(frames@), now) {
                Ok(command) => r matches Ok(parsed) && parsed@ == command,
                Err(e) => r matches Err(error) && error@ == e,
            },
    {
        parse(frames, Some(now))
    }

    /// Reads a request as [`Command::try_from_at`] does, at the time that the
    /// wall clock shows. Only the time of life of a `SET` depends on the clock,
    /// and the clock is read for a `SET` only.
    pub fn try_from(frames: &[Frame]) -> (r: crate::Result<Command>)
        ensures
            exists|now: TimeSpan|
                match #[trigger] spec_parse(views(frames@), now) {
                    Ok(command) => r matches Ok(parsed) && parsed@ == command,
                    Err(e) => r matches Err(error) && error@ == e,
                },
    {
        parse(frames, None)
    }

    /// Runs the request against the store and returns the reply.
    pub fn execute(&self, db: &mut Database) -> (reply: Frame)
        ensures
            reply@ == spec_reply(self@, old(db)@),
            final(db)@ == spec_store(self@, old(db)@),
    {
        match self {
            Command::Get(command) => command.execute(db),
            Command::MGet(command) => command.execute(db),
            Command::SetValue(command) => command.execute(db),
            Command::Unknown(command) => command.execute(db),
        }
    }
}

} // verus!
