//! Requests as they come over the wire, and what the server makes of them.
//!
//! A client sends a request as an array of bulk strings. The theorems here
//! follow such requests through the parser and the commands: what the reply is,
//! and what the store holds afterwards.
use crate::clock::TimeSpan;
use crate::command::lookup;
use crate::command::set::no_options;
use crate::command::set::ok;
use crate::command::set::spec_options;
use crate::command::set::written;
use crate::command::set::Options;
use crate::command::spec_parse;
use crate::command::text_of;
use crate::command::CommandView;
use crate::command::Replacement;
use crate::command::Store;
use crate::frame::FrameView;
use crate::server::spec_execute;
use crate::ErrorView;
use vstd::prelude::*;
use vstd::utf8::encode_utf8;

verus! {

/// The token that carries the text `word`: a bulk string of its UTF-8 bytes.
pub open spec fn token(word: Seq<char>) -> FrameView {
    FrameView::Bulk(encode_utf8(word))
}

/// A token reads as the text that it carries.
pub proof fn lemma_token(word: Seq<char>)
    ensures
        text_of(token(word)) == Ok::<Seq<char>, ErrorView>(word),
{
    vstd::utf8::encode_utf8_valid_utf8(word);
    vstd::utf8::encode_utf8_decode_utf8(word);
}

/// The keywords and the names of the commands are different texts.
proof fn lemma_words_differ()
    ensures
        "GET"@ != "MGET"@,
        "GET"@ != "SET"@,
        "MGET"@ != "SET"@,
        "NX"@ != "XX"@,
        "NX"@ != "GET"@,
        "XX"@ != "GET"@,
        "EX"@ != "NX"@,
        "EX"@ != "XX"@,
        "EX"@ != "GET"@,
        "PX"@ != "NX"@,
        "PX"@ != "XX"@,
        "PX"@ != "GET"@,
        "EXAT"@ != "NX"@,
        "EXAT"@ != "XX"@,
        "EXAT"@ != "GET"@,
        "PXAT"@ != "NX"@,
        "PXAT"@ != "XX"@,
        "PXAT"@ != "GET"@,
{
    reveal_strlit("GET");
    reveal_strlit("MGET");
    reveal_strlit("SET");
    reveal_strlit("NX");
    reveal_strlit("XX");
    reveal_strlit("EX");
    reveal_strlit("PX");
    reveal_strlit("EXAT");
    reveal_strlit("PXAT");
    assert("GET"@[0] != "SET"@[0]);
    assert("NX"@[0] != "XX"@[0]);
    assert("EX"@[0] != "NX"@[0]);
    assert("EX"@[0] != "XX"@[0]);
    assert("PX"@[0] != "NX"@[0]);
    assert("PX"@[0] != "XX"@[0]);
}

/// `GET key` replies with what the store holds under `key`, and leaves the
/// store as it is.
pub proof fn theorem_get_request(store: Store, key: Seq<char>, now: TimeSpan)
    ensures
        spec_execute(FrameView::Array(seq![token("GET"@), token(key)]), store, now) == Ok::<
            (FrameView, Store),
            ErrorView,
        >((lookup(store, key), store)),
        !store.contains_key(key) ==> lookup(store, key) == FrameView::Null,
{
    let frames = seq![token("GET"@), token(key)];
    lemma_token("GET"@);
    lemma_token(key);
    assert(frames.skip(1)[0] == token(key));
}

/// The `SET` request for `value` under `key` with the keywords `words` after
/// them, none of which takes an argument.
pub open spec fn set_request(key: Seq<char>, value: Seq<u8>, words: Seq<Seq<char>>) -> FrameView {
    FrameView::Array(
        seq![token("SET"@), token(key), FrameView::Bulk(value)] + words.map_values(
            |word: Seq<char>| token(word),
        ),
    )
}

/// What the keywords `words`, none of which takes an argument, make of `seen`.
pub open spec fn flags(words: Seq<Seq<char>>, seen: Options) -> Options
    decreases words.len(),
{
    if words.len() == 0 {
        seen
    } else {
        flags(words.drop_first(), crate::command::set::spec_flag(words.first(), seen))
    }
}

/// The options of a `SET` whose keywords take no argument are what the keywords
/// make of them one after the other.
proof fn lemma_flags(
    tokens: Seq<FrameView>,
    pos: int,
    words: Seq<Seq<char>>,
    now: TimeSpan,
    seen: Options,
)
    requires
        0 <= pos,
        tokens.len() == pos + words.len(),
        forall|i: int| 0 <= i < words.len() ==> tokens[pos + i] == token(#[trigger] words[i]),
        forall|i: int|
            0 <= i < words.len() ==> !crate::command::set::takes_argument(#[trigger] words[i]),
    ensures
        spec_options(tokens, pos, now, seen) == Ok::<Options, ErrorView>(flags(words, seen)),
    decreases words.len(),
{
    if words.len() > 0 {
        let word = words.first();
        assert(tokens[pos + 0] == token(words[0]));
        lemma_token(word);
        let rest = words.drop_first();
        assert forall|i: int| 0 <= i < rest.len() implies tokens[pos + 1 + i] == token(
            #[trigger] rest[i],
        ) by {
            assert(rest[i] == words[i + 1]);
            assert(tokens[pos + (i + 1)] == token(words[i + 1]));
        }
        assert forall|i: int| 0 <= i < rest.len() implies !crate::command::set::takes_argument(
            #[trigger] rest[i],
        ) by {
            assert(rest[i] == words[i + 1]);
        }
        lemma_flags(tokens, pos + 1, rest, now, crate::command::set::spec_flag(word, seen));
    }
}

/// A `SET` request whose keywords take no argument replies with the value held
/// before where `GET` is among the keywords, and with the status where it is
/// not; and it writes as the last of `NX` and `XX` among them says, or always
/// where there is neither.
pub proof fn theorem_set_request(
    store: Store,
    key: Seq<char>,
    value: Seq<u8>,
    words: Seq<Seq<char>>,
    now: TimeSpan,
)
    requires
        forall|i: int|
            0 <= i < words.len() ==> !crate::command::set::takes_argument(#[trigger] words[i]),
    ensures
        spec_execute(set_request(key, value, words), store, now) == Ok::<
            (FrameView, Store),
            ErrorView,
        >(
            (
                if flags(words, no_options()).get {
                    lookup(store, key)
                } else {
                    ok()
                },
                written(store, key, value, flags(words, no_options()).replacement),
            ),
        ),
        flags(words, no_options()).ttl is None,
{
    let frames = set_request(key, value, words)->Array_0;
    let arguments = frames.skip(1);
    lemma_token("SET"@);
    lemma_token(key);
    lemma_words_differ();
    assert(frames[0] == token("SET"@));
    assert(arguments[0] == token(key));
    assert(arguments[1] == FrameView::Bulk(value));
    assert forall|i: int| 0 <= i < words.len() implies arguments[2 + i] == token(
        #[trigger] words[i],
    ) by {
        assert(arguments[2 + i] == frames[3 + i]);
    }
    lemma_flags(arguments, 2, words, now, no_options());
    lemma_flags_keep_ttl(words, no_options());
}

/// Keywords without an argument leave the time of life as it is.
proof fn lemma_flags_keep_ttl(words: Seq<Seq<char>>, seen: Options)
    ensures
        flags(words, seen).ttl == seen.ttl,
    decreases words.len(),
{
    if words.len() > 0 {
        lemma_flags_keep_ttl(
            words.drop_first(),
            crate::command::set::spec_flag(words.first(), seen),
        );
    }
}

/// What the keywords of the `SET` requests in the theorems below settle.
proof fn lemma_some_flags()
    ensures
        flags(Seq::empty(), no_options()) == no_options(),
        flags(seq!["NX"@], no_options()) == (Options {
            replacement: Replacement::Never,
            ..no_options()
        }),
        flags(seq!["XX"@], no_options()) == (Options {
            replacement: Replacement::OnlyOverride,
            ..no_options()
        }),
        flags(seq!["XX"@, "GET"@], no_options()) == (Options {
            replacement: Replacement::OnlyOverride,
            get: true,
            ..no_options()
        }),
        flags(seq!["NX"@, "XX"@], no_options()) == (Options {
            replacement: Replacement::OnlyOverride,
            ..no_options()
        }),
        flags(seq!["XX"@, "NX"@], no_options()) == (Options {
            replacement: Replacement::Never,
            ..no_options()
        }),
        !crate::command::set::takes_argument("NX"@),
        !crate::command::set::takes_argument("XX"@),
        !crate::command::set::takes_argument("GET"@),
{
    lemma_words_differ();
    reveal_with_fuel(flags, 3);
    assert(seq!["NX"@].drop_first() =~= Seq::<Seq<char>>::empty());
    assert(seq!["XX"@].drop_first() =~= Seq::<Seq<char>>::empty());
    assert(seq!["XX"@, "GET"@].drop_first() =~= seq!["GET"@]);
    assert(seq!["GET"@].drop_first() =~= Seq::<Seq<char>>::empty());
    assert(seq!["NX"@, "XX"@].drop_first() =~= seq!["XX"@]);
    assert(seq!["XX"@, "NX"@].drop_first() =~= seq!["NX"@]);
}

/// After `SET key value`, `GET key` replies with `value`.
pub proof fn theorem_get_after_set_request(
    store: Store,
    key: Seq<char>,
    value: Seq<u8>,
    now: TimeSpan,
)
    ensures
        ({
            let set = spec_execute(set_request(key, value, Seq::empty()), store, now);
            &&& set matches Ok((reply, after))
            &&& reply == ok()
            &&& spec_execute(FrameView::Array(seq![token("GET"@), token(key)]), after, now)
                == Ok::<(FrameView, Store), ErrorView>((FrameView::Bulk(value), after))
        }),
{
    lemma_some_flags();
    theorem_set_request(store, key, value, Seq::empty(), now);
    let after = written(store, key, value, Replacement::Always);
    theorem_get_request(after, key, now);
}

/// `SET key first NX` and then `SET key second NX`, on a store that holds
/// nothing under `key`, leave `first` under `key`: the second request writes
/// nothing. Both are answered with the status.
pub proof fn theorem_set_nx_twice(
    store: Store,
    key: Seq<char>,
    first: Seq<u8>,
    second: Seq<u8>,
    now: TimeSpan,
)
    requires
        !store.contains_key(key),
    ensures
        ({
            let one = spec_execute(set_request(key, first, seq!["NX"@]), store, now);
            &&& one matches Ok((reply, after))
            &&& reply == ok()
            &&& after == store.insert(key, first)
            &&& spec_execute(set_request(key, second, seq!["NX"@]), after, now) == Ok::<
                (FrameView, Store),
                ErrorView,
            >((ok(), after))
        }),
{
    lemma_some_flags();
    theorem_set_request(store, key, first, seq!["NX"@], now);
    theorem_set_request(store.insert(key, first), key, second, seq!["NX"@], now);
}

/// `SET key value XX` on a store that holds nothing under `key` writes nothing,
/// and is answered with the status all the same.
pub proof fn theorem_set_xx_absent(store: Store, key: Seq<char>, value: Seq<u8>, now: TimeSpan)
    requires
        !store.contains_key(key),
    ensures
        spec_execute(set_request(key, value, seq!["XX"@]), store, now) == Ok::<
            (FrameView, Store),
            ErrorView,
        >((ok(), store)),
{
    lemma_some_flags();
    theorem_set_request(store, key, value, seq!["XX"@], now);
}

/// `SET key value XX GET` on a store that holds `held` under `key` replies
/// with `held`, and leaves `value` under `key`: the reply tells of the store
/// before the write.
pub proof fn theorem_set_xx_get(
    store: Store,
    key: Seq<char>,
    held: Seq<u8>,
    value: Seq<u8>,
    now: TimeSpan,
)
    requires
        store.contains_key(key),
        store[key] == held,
    ensures
        spec_execute(set_request(key, value, seq!["XX"@, "GET"@]), store, now) == Ok::<
            (FrameView, Store),
            ErrorView,
        >((FrameView::Bulk(held), store.insert(key, value))),
{
    lemma_some_flags();
    theorem_set_request(store, key, value, seq!["XX"@, "GET"@], now);
}

/// Where a `SET` gives both `NX` and `XX`, the one that comes last decides.
pub proof fn theorem_set_last_policy_wins(
    store: Store,
    key: Seq<char>,
    value: Seq<u8>,
    now: TimeSpan,
)
    ensures
        spec_execute(set_request(key, value, seq!["NX"@, "XX"@]), store, now)
            == spec_execute(set_request(key, value, seq!["XX"@]), store, now),
        spec_execute(set_request(key, value, seq!["XX"@, "NX"@]), store, now)
            == spec_execute(set_request(key, value, seq!["NX"@]), store, now),
{
    lemma_some_flags();
    theorem_set_request(store, key, value, seq!["NX"@, "XX"@], now);
    theorem_set_request(store, key, value, seq!["XX"@, "NX"@], now);
    theorem_set_request(store, key, value, seq!["XX"@], now);
    theorem_set_request(store, key, value, seq!["NX"@], now);
}

/// `MGET` with three keys replies with three values in the order of the keys,
/// the null value for each key that holds nothing, and leaves the store as it
/// is.
pub proof fn theorem_mget_request(
    store: Store,
    first: Seq<char>,
    second: Seq<char>,
    third: Seq<char>,
    now: TimeSpan,
)
    ensures
        spec_execute(
            FrameView::Array(seq![token("MGET"@), token(first), token(second), token(third)]),
            store,
            now,
        ) == Ok::<(FrameView, Store), ErrorView>(
            (
                FrameView::Array(
                    seq![lookup(store, first), lookup(store, second), lookup(store, third)],
                ),
                store,
            ),
        ),
{
    let frames = seq![token("MGET"@), token(first), token(second), token(third)];
    let arguments = frames.skip(1);
    lemma_token("MGET"@);
    lemma_token(first);
    lemma_token(second);
    lemma_token(third);
    lemma_words_differ();
    reveal_with_fuel(crate::command::mget::spec_keys, 4);
    assert(arguments[0] == token(first));
    assert(arguments[1] == token(second));
    assert(arguments[2] == token(third));
    let keys = crate::command::mget::spec_keys(arguments, 0);
    assert(keys =~= seq![first, second, third]);
    assert(keys.map_values(|key: Seq<char>| lookup(store, key)) =~= seq![
        lookup(store, first),
        lookup(store, second),
        lookup(store, third),
    ]);
}

} // verus!
