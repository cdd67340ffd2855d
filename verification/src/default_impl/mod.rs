//! Default implementations of the parts a mail composition needs.
pub mod vfs;
pub mod component_id;
pub mod fs;
pub mod name_composer;
