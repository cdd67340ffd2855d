//! Components of header fields.
pub mod utils;
pub mod header_name;
pub mod unstructured;
pub mod email;
pub mod cfws;
pub mod disposition;
pub mod word;
pub mod phrase;
pub mod transfer_encoding;
pub mod message_id;
pub mod path;
pub mod received_token;
pub mod mailbox;
pub mod mailbox_list;
pub mod phrase_list;
pub mod mime;
