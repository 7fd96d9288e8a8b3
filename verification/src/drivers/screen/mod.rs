pub mod display;
pub mod framebuffer;
