//! Encoding of mail headers: the header buffer with its line breaking rules,
//! quoting and the encodings used inside header fields.
pub mod encoder;
pub mod quoted_string;
pub mod quote;
pub mod writer;
pub mod quoted_printable;
pub mod idna;
pub mod utf8_to_ascii;
pub mod test_utils;
