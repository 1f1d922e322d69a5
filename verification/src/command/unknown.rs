//! A request whose name no command bears.
use crate::command::CommandView;
use crate::database::Database;
use crate::frame::Frame;
use crate::frame::FrameView;
use vstd::prelude::*;
use vstd::string::StringExecFns;

verus! {

/// A request under the name `name`, which is the name of no command.
#[derive(Debug)]
pub struct Unknown {
    pub name: String,
}

impl View for Unknown {
    type V = CommandView;

    open spec fn view(&self) -> CommandView {
        CommandView::Unknown { name: self.name@ }
    }
}

/// The error line that answers a request under the unknown name `name`.
pub open spec fn not_implemented(name: Seq<char>) -> FrameView {
    FrameView::SimpleError("Command \""@ + name + "\" not implemented"@)
}

impl Unknown {
    /// Replies with an error line that names the command. The store is left as
    /// it is.
    pub fn execute(&self, db: &mut Database) -> (reply: Frame)
        ensures
            reply@ == not_implemented(self.name@),
            final(db)@ == old(db)@,
    {
        let mut text = "Command \"".to_string();
        text.append(self.name.as_str());
        text.append("\" not implemented");
        Frame::SimpleError(text)
    }
}

} // verus!
