//! What the commands owe to each other: how the replies of one follow from the
//! writes of another.
use crate::clock::TimeSpan;
use crate::command::lookup;
use crate::command::set::ok;
use crate::command::spec_reply;
use crate::command::spec_store;
use crate::command::CommandView;
use crate::command::Replacement;
use crate::command::Store;
use crate::frame::FrameView;
use vstd::prelude::*;

verus! {

/// A `SET` of `value` under `key` with the policy `replacement`, and with
/// neither a time of life nor `GET`.
pub open spec fn set_of(key: Seq<char>, value: Seq<u8>, replacement: Replacement) -> CommandView {
    CommandView::SetValue { key, value, ttl: None, replacement, get: false }
}

/// `GET` on a key that holds nothing replies with the null value, and leaves it
/// holding nothing.
pub proof fn theorem_get_absent(store: Store, key: Seq<char>)
    requires
        !store.contains_key(key),
    ensures
        spec_reply(CommandView::Get { key }, store) == FrameView::Null,
        spec_store(CommandView::Get { key }, store) == store,
{
}

/// After a `SET` of `value` under `key` that always writes, `GET` on `key`
/// replies with `value`, whatever the key held before, and whatever time of
/// life the `SET` gave.
pub proof fn theorem_get_after_set(
    store: Store,
    key: Seq<char>,
    value: Seq<u8>,
    ttl: Option<TimeSpan>,
    get: bool,
)
    ensures
        spec_reply(
            CommandView::Get { key },
            spec_store(
                CommandView::SetValue { key, value, ttl, replacement: Replacement::Always, get },
                store,
            ),
        ) == FrameView::Bulk(value),
{
}

/// `MGET` replies with one value for each key, in the order of the keys: the
/// bytes held under the key, or the null value where the key holds none. It
/// leaves the store as it is.
pub proof fn theorem_mget_in_order(store: Store, keys: Seq<Seq<char>>)
    ensures
        spec_reply(CommandView::MGet { keys }, store) matches FrameView::Array(replies)
            && replies.len() == keys.len() && forall|i: int|
            0 <= i < keys.len() ==> #[trigger] replies[i] == if store.contains_key(keys[i]) {
                FrameView::Bulk(store[keys[i]])
            } else {
                FrameView::Null
            },
        spec_store(CommandView::MGet { keys }, store) == store,
{
}

/// Of two `SET`s under one key that write only where the key holds nothing,
/// the second changes nothing; where the key held nothing at first, it holds
/// the value of the first afterwards. Both reply with the status.
pub proof fn theorem_set_never_replaces(
    store: Store,
    key: Seq<char>,
    first: Seq<u8>,
    second: Seq<u8>,
)
    ensures
        ({
            let after_first = spec_store(set_of(key, first, Replacement::Never), store);
            let after_second = spec_store(set_of(key, second, Replacement::Never), after_first);
            &&& after_second == after_first
            &&& after_second.contains_key(key)
            &&& !store.contains_key(key) ==> after_second[key] == first
            &&& store.contains_key(key) ==> after_second == store
            &&& spec_reply(set_of(key, first, Replacement::Never), store) == ok()
            &&& spec_reply(set_of(key, second, Replacement::Never), after_first) == ok()
        }),
{
}

/// A `SET` that writes only where the key holds a value already changes
/// nothing where the key holds none, and replies with the status all the same.
pub proof fn theorem_set_only_overrides(store: Store, key: Seq<char>, value: Seq<u8>)
    requires
        !store.contains_key(key),
    ensures
        spec_store(set_of(key, value, Replacement::OnlyOverride), store) == store,
        spec_reply(set_of(key, value, Replacement::OnlyOverride), store) == ok(),
{
}

/// A `SET` with `GET` replies with what the key held before the write, and the
/// write takes place all the same: on a key that holds a value, a `SET` that
/// writes only where the key holds one replies with the old value and leaves
/// the new one. On a key that holds nothing the reply is the null value.
pub proof fn theorem_set_get_replies_with_previous(
    store: Store,
    key: Seq<char>,
    value: Seq<u8>,
    ttl: Option<TimeSpan>,
    replacement: Replacement,
)
    ensures
        ({
            let command = CommandView::SetValue { key, value, ttl, replacement, get: true };
            &&& spec_reply(command, store) == lookup(store, key)
            &&& store.contains_key(key) && replacement == Replacement::OnlyOverride ==> {
                &&& spec_reply(command, store) == FrameView::Bulk(store[key])
                &&& spec_store(command, store).contains_key(key)
                &&& spec_store(command, store)[key] == value
            }
            &&& !store.contains_key(key) ==> spec_reply(command, store) == FrameView::Null
        }),
{
}

/// A request under an unknown name replies with an error line and leaves the
/// store as it is.
pub proof fn theorem_unknown_changes_nothing(store: Store, name: Seq<char>)
    ensures
        spec_reply(CommandView::Unknown { name }, store) is SimpleError,
        spec_store(CommandView::Unknown { name }, store) == store,
{
}

} // verus!
