//! Plain data items of header components: simple items and quoted strings.
pub mod simple_item;
pub mod input;
pub mod quoted;
pub mod encoded_word;
