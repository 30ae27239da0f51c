//! Formatting of chat message text into HTML: HTML escaping, ASCII emoticon
//! replacement, markdown rendering and link detection.
pub mod components;
