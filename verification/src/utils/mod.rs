//! Containers, text handling and time.

pub mod clock;
pub mod name_map;
pub mod ring_buffer;
pub mod text;
