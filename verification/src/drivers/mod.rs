pub mod keyboard;
pub mod screen;
pub mod vga;
