//! A command whose name is not known.

use crate::cmd::{reply_of, CommandView};
use crate::entity::frame::Frame;
use crate::entity::db::Table;
use vstd::prelude::*;

verus! {

/// A request with a name that is no command.
#[derive(Debug)]
pub struct Unknown {
    command_name: String,
}

impl View for Unknown {
    type V = CommandView;

    closed spec fn view(&self) -> CommandView {
        CommandView::Unknown { name: self.command_name@ }
    }
}

impl Unknown {
    /// Which kind of request this is.
    pub proof fn lemma_kind(&self)
        ensures
            self@ is Unknown,
    {
    }

    /// The request with the name `key`.
    pub fn new(key: String) -> (cmd: Unknown)
        ensures
            cmd@ == (CommandView::Unknown { name: key@ }),
    {
        Unknown { command_name: key }
    }

    /// The name.
    pub fn get_name(&self) -> (name: &str)
        ensures
            self@ == (CommandView::Unknown { name: name@ }),
    {
        self.command_name.as_str()
    }

    /// Gives the reply, which says that the name is not known.
    pub fn apply(self) -> (reply: Frame)
        ensures
            forall|t: Table| reply@ == #[trigger] reply_of(self@, t),
    {
        let mut text = "ERR unknown command '".to_string();
        text.append(self.command_name.as_str());
        text.append("'");
        Frame::Error(text)
    }
}

} // verus!
