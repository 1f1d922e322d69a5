//! `GET key`: the value held under one key.
use crate::command::fetch;
use crate::command::lookup;
use crate::command::next_string;
use crate::command::spec_next_string;
use crate::command::CommandView;
use crate::database::Database;
use crate::frame::views;
use crate::frame::Frame;
use crate::frame::FrameView;
use crate::ErrorView;
use vstd::prelude::*;

verus! {

/// The request for the value under `key`.
#[derive(Debug)]
pub struct Get {
    pub key: String,
}

impl View for Get {
    type V = CommandView;

    open spec fn view(&self) -> CommandView {
        CommandView::Get { key: self.key@ }
    }
}

/// What [`Get::try_from`] returns on the arguments `tokens`.
pub open spec fn spec_get(tokens: Seq<FrameView>) -> core::result::Result<CommandView, ErrorView> {
    match spec_next_string(tokens, 0) {
        Ok(key) => Ok(CommandView::Get { key }),
        Err(e) => Err(e),
    }
}

impl Get {
    /// Builds the request from its arguments: the first is the key, and has to
    /// be text; any after it are not looked at.
    pub fn try_from(tokens: &[Frame]) -> (r: crate::Result<Get>)
        ensures
            match spec_get(views(tokens@)) {
                Ok(command) => r matches Ok(get) && get@ == command,
                Err(e) => r matches Err(error) && error@ == e,
            },
    {
        match next_string(tokens, 0) {
            Ok(key) => Ok(Get { key }),
            Err(e) => Err(e),
        }
    }

    /// Replies with the value held under the key as a bulk string, or with the
    /// null value where the key holds none. The store is left as it is.
    pub fn execute(&self, db: &mut Database) -> (reply: Frame)
        ensures
            reply@ == lookup(old(db)@, self.key@),
            final(db)@ == old(db)@,
    {
        fetch(db, self.key.as_str())
    }
}

} // verus!
