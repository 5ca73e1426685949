//! The mailbox subsystem: message references, mailboxes, the record store,
//! and the operations that the `!mail` commands run against it.
//!
//! - [`command`] reads a chat text as a command, [`reply`] writes the
//!   answers.
//! - [`engine`] carries the commands out on a [`MailStore`]; [`keys`] finds
//!   the key for a new message.
//! - [`changes`] tells which records an operation changed, in an order
//!   that is safe to stop in, and [`layout`] where each record is kept.
//! - [`model`] holds the mathematical model that every contract is stated
//!   over, and [`laws`] what is proved of it.

pub mod changes;
pub mod command;
pub mod directory;
pub mod engine;
pub mod keys;
pub mod laws;
pub mod layout;
pub mod mailbox;
pub mod message;
pub mod model;
pub mod reply;
pub mod store;

pub use self::changes::{follow, read_changes, Change};
pub use self::command::{chat_filter, Command};
pub use self::engine::{
    clear_mailbox, delete_message, read_message, reconcile, remove_message, send_message,
    user_connected, DeleteOutcome, SendOutcome,
};
pub use self::layout::{mailbox_path, message_path};
pub use self::mailbox::Mailbox;
pub use self::message::Message;
pub use self::model::{MessageRef, MAX_MESSAGES};
pub use self::reply::{mailbox_string, message_string};
pub use self::store::{load_mailbox, store_mailbox, MailStore};
