//! Chat-bot plugins for a voice-chat server.
//!
//! The core is the mailbox subsystem in [`mail`]: users leave each other
//! messages with `!mail send`, and read and delete them with `!mail read`
//! and `!mail delete`. Beside it stand three small text filters: nickname
//! changes ([`change_name`]), the list of registered users ([`list_users`])
//! and inline emotes ([`emotes`]).
//!
//! The library decides and computes; it does not talk to the chat server
//! and does not touch the disk. A handler that embeds it reads the records
//! it needs into a [`mail::MailStore`], lets the library run the command,
//! writes back what changed and sends the reply.

pub mod change_name;
pub mod emotes;
pub mod list_users;
pub mod mail;
pub mod pattern;
pub mod text;
