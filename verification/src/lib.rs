pub mod utils;
pub mod grammar;
pub mod char_validators;
pub mod error;
pub mod codec;
pub mod data;
pub mod components;
pub mod headers;
pub mod compositor;
pub mod composition;
pub mod default_impl;
