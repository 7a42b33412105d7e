//! Frame buffer logic for the Sharp LS013B7DH03 memory LCD (128 x 128 pixels,
//! one bit per pixel), as driven over SPI on an EFM32 Pearl Gecko board.

pub mod bits;
pub mod display;
pub mod ls013b7dh03;
