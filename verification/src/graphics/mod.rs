//! Framebuffer access and primitive drawing.

pub mod drawing;
pub mod framebuffer;
pub mod pixel;
pub mod text;
