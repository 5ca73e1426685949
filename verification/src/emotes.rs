//! Inline emotes: names between colons in a chat text are replaced by
//! pictures, which are kept in a small cache.

pub mod cache;
pub mod filter;

pub use self::cache::EmoteCache;
pub use self::filter::{chat_filter, image_html, render, Piece};
