//! The message body, stored apart from the mailbox that refers to it.

use vstd::prelude::*;
use vstd::string::*;
use crate::mail::model::MessageView;

verus! {

/// A message body as it is stored: who sent it and what it says.
#[derive(Debug, PartialEq, Eq)]
pub struct Message {
    sender: u32,
    contents: String,
}

impl View for Message {
    type V = MessageView;

    closed spec fn view(&self) -> MessageView {
        MessageView { sender: self.sender, contents: self.contents@ }
    }
}

impl Clone for Message {
    fn clone(&self) -> (copy: Message)
        ensures
            copy@ == self@,
    {
        Message { sender: self.sender, contents: self.contents.clone() }
    }
}

impl Default for Message {
    /// The empty message of user zero.
    fn default() -> (message: Message)
        ensures
            message@ == (MessageView { sender: 0, contents: Seq::empty() }),
    {
        Message::new(0, String::new())
    }
}

impl Message {
    /// A message from `sender` that says `contents`.
    pub fn new(sender: u32, contents: String) -> (message: Message)
        ensures
            message@ == (MessageView { sender, contents: contents@ }),
    {
        Message { sender, contents }
    }

    /// User id of the sender.
    pub fn sender(&self) -> (sender: u32)
        ensures
            sender == self@.sender,
    {
        self.sender
    }

    /// The text of the message.
    pub fn contents(&self) -> (contents: &str)
        ensures
            contents@ == self@.contents,
    {
        self.contents.as_str()
    }
}

} // verus!
