//! Helpers shared by the components.
pub mod text_partition;
pub mod item;
