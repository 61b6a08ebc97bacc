//! Buffers that device data is read into.

pub mod aligned_buffer;
