//! Platform-independent building blocks shared by the device drivers.

pub mod ring_buffer;
