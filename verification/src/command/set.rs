//! `SET key value [options]`: a write, with its conditions.
//!
//! The options follow the value in any order, each a keyword, some with one
//! argument:
//!
//! * `EX seconds`, `PX milliseconds`: the value expires that long from now.
//! * `EXAT unix-seconds`, `PXAT unix-milliseconds`: the value expires at that
//!   time; where the time has passed already, no time of life is recorded.
//! * `NX`: write only where the key holds nothing; `XX`: write only where the
//!   key holds a value. The last of them wins.
//! * `GET`: reply with the value held before.
//!
//! A text that is none of these keywords is passed over. The first token that
//! is no text ends the options without an error; what follows it is not looked
//! at. A keyword whose argument is missing, or is no integer frame, is an error.
//!
//! The time of life is recorded with the request. Nothing in this crate makes a
//! value expire.
use crate::buffer::bytes_view;
use crate::clock::spec_checked_sub;
use crate::clock::unix_time;
use crate::clock::TimeSpan;
use crate::clock::NANOS_PER_MILLI;
use crate::clock::NANOS_PER_SEC;
use crate::command::fetch;
use crate::command::is_word;
use crate::command::lookup;
use crate::command::next_bytes;
use crate::command::next_integer;
use crate::command::next_string;
use crate::command::spec_next_bytes;
use crate::command::spec_next_integer;
use crate::command::spec_next_string;
use crate::command::text_of;
use crate::command::CommandView;
use crate::command::Replacement;
use crate::command::Store;
use crate::database::Database;
use crate::frame::lemma_views;
use crate::frame::views;
use crate::frame::Frame;
use crate::frame::FrameView;
use crate::ErrorView;
use bytes::Bytes;
use vstd::prelude::*;

verus! {

/// The request to put `value` under `key`.
#[derive(Debug)]
pub struct SetValue {
    pub key: String,
    pub value: Bytes,
    /// How long the value is meant to live; `None` for ever.
    pub ttl: Option<TimeSpan>,
    /// When the write takes place.
    pub replacement: Replacement,
    /// Whether the reply carries the value held before.
    pub get: bool,
}

impl View for SetValue {
    type V = CommandView;

    open spec fn view(&self) -> CommandView {
        CommandView::SetValue {
            key: self.key@,
            value: bytes_view(self.value),
            ttl: self.ttl,
            replacement: self.replacement,
            get: self.get,
        }
    }
}

/// What the options of a `SET` have settled.
#[derive(Debug, Clone, Copy, PartialEq, Eq, Structural)]
pub struct Options {
    pub ttl: Option<TimeSpan>,
    pub replacement: Replacement,
    pub get: bool,
}

/// The options of a `SET` that gives none: no time of life, always write,
/// reply with the status.
pub open spec fn no_options() -> Options {
    Options { ttl: None, replacement: Replacement::Always, get: false }
}

/// Is `word` one of the keywords that take an argument?
pub open spec fn takes_argument(word: Seq<char>) -> bool {
    word == "EX"@ || word == "PX"@ || word == "EXAT"@ || word == "PXAT"@
}

/// The time of life that the keyword `word` with the argument `amount` asks
/// for, when the clock stands `now` after the epoch.
pub open spec fn spec_ttl(word: Seq<char>, amount: u64, now: TimeSpan) -> Option<TimeSpan> {
    if word == "EX"@ {
        Some(TimeSpan { nanos: (amount * NANOS_PER_SEC) as u128 })
    } else if word == "PX"@ {
        Some(TimeSpan { nanos: (amount * NANOS_PER_MILLI) as u128 })
    } else if word == "EXAT"@ {
        spec_checked_sub(TimeSpan { nanos: (amount * NANOS_PER_SEC) as u128 }, now)
    } else {
        spec_checked_sub(TimeSpan { nanos: (amount * NANOS_PER_MILLI) as u128 }, now)
    }
}

/// What the keyword `word`, which takes no argument, makes of `seen`.
pub open spec fn spec_flag(word: Seq<char>, seen: Options) -> Options {
    if word == "NX"@ {
        Options { replacement: Replacement::Never, ..seen }
    } else if word == "XX"@ {
        Options { replacement: Replacement::OnlyOverride, ..seen }
    } else if word == "GET"@ {
        Options { get: true, ..seen }
    } else {
        seen
    }
}

/// What the tokens of `tokens` from `pos` on make of `seen`, when the clock
/// stands `now` after the epoch.
pub open spec fn spec_options(
    tokens: Seq<FrameView>,
    pos: int,
    now: TimeSpan,
    seen: Options,
) -> core::result::Result<Options, ErrorView>
    decreases tokens.len() - pos,
{
    if pos < 0 || pos >= tokens.len() {
        Ok(seen)
    } else {
        match text_of(tokens[pos]) {
            Err(_) => Ok(seen),
            Ok(word) => if takes_argument(word) {
                match spec_next_integer(tokens, pos + 1) {
                    Err(e) => Err(e),
                    Ok(amount) => spec_options(
                        tokens,
                        pos + 2,
                        now,
                        Options { ttl: spec_ttl(word, amount, now), ..seen },
                    ),
                }
            } else {
                spec_options(tokens, pos + 1, now, spec_flag(word, seen))
            },
        }
    }
}

/// What [`SetValue::try_from_at`] returns on the arguments `tokens`, when the
/// clock stands `now` after the epoch.
pub open spec fn spec_set(tokens: Seq<FrameView>, now: TimeSpan) -> core::result::Result<
    CommandView,
    ErrorView,
> {
    match spec_next_string(tokens, 0) {
        Err(e) => Err(e),
        Ok(key) => match spec_next_bytes(tokens, 1) {
            Err(e) => Err(e),
            Ok(value) => match spec_options(tokens, 2, now, no_options()) {
                Err(e) => Err(e),
                Ok(options) => Ok(
                    CommandView::SetValue {
                        key,
                        value,
                        ttl: options.ttl,
                        replacement: options.replacement,
                        get: options.get,
                    },
                ),
            },
        },
    }
}

/// What the store `store` holds after a `SET` of `value` under `key` with the
/// policy `replacement`.
pub open spec fn written(store: Store, key: Seq<char>, value: Seq<u8>, replacement: Replacement) -> Store {
    match replacement {
        Replacement::Always => store.insert(key, value),
        Replacement::Never => if store.contains_key(key) {
            store
        } else {
            store.insert(key, value)
        },
        Replacement::OnlyOverride => if store.contains_key(key) {
            store.insert(key, value)
        } else {
            store
        },
    }
}

/// The status with which a `SET` replies: the simple string `OK`.
pub open spec fn ok() -> FrameView {
    FrameView::Simple("OK"@)
}

/// The time of life for the keyword `word`, which takes an argument, with the
/// argument `amount`, when the clock stands `now` after the epoch.
fn time_to_live(word: &String, amount: u64, now: TimeSpan) -> (ttl: Option<TimeSpan>)
    requires
        takes_argument(word@),
    ensures
        ttl == spec_ttl(word@, amount, now),
{
    if is_word(word, "EX") {
        Some(TimeSpan::from_secs(amount))
    } else if is_word(word, "PX") {
        Some(TimeSpan::from_millis(amount))
    } else if is_word(word, "EXAT") {
        TimeSpan::from_secs(amount).checked_sub(now)
    } else {
        TimeSpan::from_millis(amount).checked_sub(now)
    }
}

/// Does one of the tokens of `tokens` from `pos` on read `EXAT` or `PXAT`?
pub open spec fn spec_names_a_deadline(tokens: Seq<FrameView>, pos: int) -> bool
    decreases tokens.len() - pos,
{
    if pos < 0 || pos >= tokens.len() {
        false
    } else {
        text_of(tokens[pos]) == Ok::<Seq<char>, ErrorView>("EXAT"@) || text_of(tokens[pos]) == Ok::<
            Seq<char>,
            ErrorView,
        >("PXAT"@) || spec_names_a_deadline(tokens, pos + 1)
    }
}

/// Does one of `tokens` read `EXAT` or `PXAT`?
fn names_a_deadline(tokens: &[Frame]) -> (r: bool)
    ensures
        r == spec_names_a_deadline(views(tokens@), 0),
{
    let mut position: usize = 0;
    proof {
        lemma_views(tokens@);
    }
    while position < tokens.len()
        invariant
            position <= tokens@.len(),
            views(tokens@).len() == tokens@.len(),
            spec_names_a_deadline(views(tokens@), 0) == spec_names_a_deadline(
                views(tokens@),
                position as int,
            ),
        decreases tokens@.len() - position,
    {
        match next_string(tokens, position) {
            Ok(word) => {
                if is_word(&word, "EXAT") || is_word(&word, "PXAT") {
                    return true;
                }
            },
            Err(_) => {},
        }
        position += 1;
    }
    false
}

impl SetValue {
    /// Builds the request from its arguments, with the clock standing `now`
    /// after the epoch: the key, which has to be text; the value, text or bulk;
    /// then the options.
    pub fn try_from_at(tokens: &[Frame], now: TimeSpan) -> (r: crate::Result<SetValue>)
        ensures
            match spec_set(views(tokens@), now) {
                Ok(command) => r matches Ok(set) && set@ == command,
                Err(e) => r matches Err(error) && error@ == e,
            },
    {
        let key = match next_string(tokens, 0) {
            Ok(key) => key,
            Err(e) => {
                return Err(e);
            },
        };
        let value = match next_bytes(tokens, 1) {
            Ok(value) => value,
            Err(e) => {
                return Err(e);
            },
        };
        let mut ttl: Option<TimeSpan> = None;
        let mut replacement = Replacement::Always;
        let mut get: bool = false;
        let mut position: usize = 2;
        let ghost all = views(tokens@);
        proof {
            lemma_views(tokens@);
        }
        loop
            invariant
                2 <= position,
                all == views(tokens@),
                all.len() == tokens@.len(),
                spec_next_string(all, 0) == Ok::<Seq<char>, ErrorView>(key@),
                spec_next_bytes(all, 1) == Ok::<Seq<u8>, ErrorView>(bytes_view(value)),
                spec_options(all, 2, now, no_options()) == spec_options(
                    all,
                    position as int,
                    now,
                    Options { ttl, replacement, get },
                ),
            ensures
                spec_options(all, 2, now, no_options()) == Ok::<Options, ErrorView>(
                    Options { ttl, replacement, get },
                ),
            decreases tokens@.len() + 2 - position,
        {
            if position >= tokens.len() {
                break ;
            }
            let word = match next_string(tokens, position) {
                Ok(word) => word,
                Err(_) => {
                    break ;
                },
            };
            if is_word(&word, "EX") || is_word(&word, "PX") || is_word(&word, "EXAT") || is_word(
                &word,
                "PXAT",
            ) {
                match next_integer(tokens, position + 1) {
                    Err(e) => {
                        return Err(e);
                    },
                    Ok(amount) => {
                        ttl = time_to_live(&word, amount, now);
                    },
                }
                position += 2;
            } else {
                if is_word(&word, "NX") {
                    replacement = Replacement::Never;
                } else if is_word(&word, "XX") {
                    replacement = Replacement::OnlyOverride;
                } else if is_word(&word, "GET") {
                    get = true;
                }
                position += 1;
            }
        }
        Ok(SetValue { key, value, ttl, replacement, get })
    }

    /// Builds the request from its arguments, as [`SetValue::try_from_at`] does,
    /// at the time that the wall clock shows. Only the time of life depends on
    /// the clock, and that only after `EXAT` and `PXAT`: where the arguments
    /// name neither, the clock is not read.
    pub fn try_from(tokens: &[Frame]) -> (r: crate::Result<SetValue>)
        ensures
            exists|now: TimeSpan|
                match #[trigger] spec_set(views(tokens@), now) {
                    Ok(command) => r matches Ok(set) && set@ == command,
                    Err(e) => r matches Err(error) && error@ == e,
                },
    {
        let now = if names_a_deadline(tokens) {
            unix_time()
        } else {
            TimeSpan::from_secs(0)
        };
        SetValue::try_from_at(tokens, now)
    }

    /// Runs the request. The reply is made first: the value held under the key
    /// before, or the null value, where the request asks for it; else the
    /// status `OK`. Then the write takes place, where the policy lets it. A
    /// write that the policy holds back changes nothing, and the reply is the
    /// same.
    pub fn execute(&self, db: &mut Database) -> (reply: Frame)
        ensures
            reply@ == if self.get {
                lookup(old(db)@, self.key@)
            } else {
                ok()
            },
            final(db)@ == written(old(db)@, self.key@, bytes_view(self.value), self.replacement),
    {
        let previous = fetch(db, self.key.as_str());
        let held: bool = match previous {
            Frame::Null => false,
            _ => true,
        };
        let reply = if self.get {
            previous
        } else {
            Frame::Simple("OK".to_string())
        };
        let write: bool = match self.replacement {
            Replacement::Always => true,
            Replacement::Never => !held,
            Replacement::OnlyOverride => held,
        };
        if write {
            db.insert(self.key.clone(), self.value.clone());
        }
        reply
    }
}

} // verus!
