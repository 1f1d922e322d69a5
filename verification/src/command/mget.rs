//! `MGET key ...`: the values held under many keys, in the order asked.
use crate::command::fetch;
use crate::command::lookup;
use crate::command::next_string;
use crate::command::text_of;
use crate::command::CommandView;
use crate::command::Store;
use crate::database::Database;
use crate::frame::lemma_views;
use crate::frame::views;
use crate::frame::Frame;
use crate::frame::FrameView;
use vstd::prelude::*;

verus! {

/// The request for the values under `keys`.
#[derive(Debug)]
pub struct MGet {
    pub keys: Vec<String>,
}

/// The texts of `keys`, in order.
pub open spec fn texts(keys: Seq<String>) -> Seq<Seq<char>> {
    keys.map_values(|key: String| key@)
}

impl View for MGet {
    type V = CommandView;

    open spec fn view(&self) -> CommandView {
        CommandView::MGet { keys: texts(self.keys@) }
    }
}

/// The keys that the tokens of `tokens` from `pos` on give: the texts of the
/// tokens up to the first that is no text, or up to the end.
pub open spec fn spec_keys(tokens: Seq<FrameView>, pos: int) -> Seq<Seq<char>>
    decreases tokens.len() - pos,
{
    if pos < 0 || pos >= tokens.len() {
        Seq::empty()
    } else {
        match text_of(tokens[pos]) {
            Ok(key) => seq![key] + spec_keys(tokens, pos + 1),
            Err(_) => Seq::empty(),
        }
    }
}

/// The reply to a request for the values under `keys`: for each key in turn a
/// bulk string, or the null value where the store holds nothing under it.
pub open spec fn lookups(store: Store, keys: Seq<Seq<char>>) -> FrameView {
    FrameView::Array(keys.map_values(|key: Seq<char>| lookup(store, key)))
}

impl MGet {
    /// Builds the request from its arguments: each is a key, as long as it is
    /// text. The first token that is no text ends the keys without an error.
    /// No key at all is a request too.
    pub fn from(tokens: &[Frame]) -> (command: MGet)
        ensures
            command@ == (CommandView::MGet { keys: spec_keys(views(tokens@), 0) }),
    {
        let mut keys: Vec<String> = Vec::new();
        let mut position: usize = 0;
        let ghost all = views(tokens@);
        proof {
            lemma_views(tokens@);
        }
        loop
            invariant
                all == views(tokens@),
                all.len() == tokens@.len(),
                spec_keys(all, 0) == texts(keys@) + spec_keys(all, position as int),
            ensures
                spec_keys(all, 0) == texts(keys@),
            decreases tokens@.len() + 1 - position,
        {
            if position >= tokens.len() {
                break ;
            }
            match next_string(tokens, position) {
                Ok(key) => {
                    keys.push(key);
                },
                Err(_) => {
                    break ;
                },
            }
            position += 1;
        }
        MGet { keys }
    }

    /// Replies with an array that holds, for each key in the order asked, the
    /// value held under it as a bulk string, or the null value where the key
    /// holds none. A key that holds nothing does not fail the others. The store
    /// is left as it is.
    pub fn execute(&self, db: &mut Database) -> (reply: Frame)
        ensures
            reply@ == lookups(old(db)@, texts(self.keys@)),
            final(db)@ == old(db)@,
    {
        let mut result: Vec<Frame> = Vec::new();
        let mut i: usize = 0;
        while i < self.keys.len()
            invariant
                i <= self.keys@.len(),
                db@ == old(db)@,
                result@.len() == i,
                forall|j: int|
                    0 <= j < i ==> (#[trigger] result@[j])@ == lookup(db@, self.keys@[j]@),
            decreases self.keys@.len() - i,
        {
            let frame = fetch(db, self.keys[i].as_str());
            result.push(frame);
            i += 1;
        }
        proof {
            lemma_views(result@);
            assert(views(result@) =~= texts(self.keys@).map_values(
                |key: Seq<char>| lookup(db@, key),
            ));
        }
        Frame::Array(result)
    }
}

} // verus!
