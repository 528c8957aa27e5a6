//! Driver core for a strip of P9813 LED driver chips.
//!
//! The library covers the pure logic of the strip: gamma-corrected lookup
//! tables, fixed-point HSV to RGB conversion, the 4-byte pixel encoding the
//! chips expect, assembly of a full transmission buffer with its zero
//! padding, the day/night dimming schedule, and the per-tick animation
//! state machine. All arithmetic is integer fixed-point, so every function
//! here carries a proved contract. Device I/O, signal handling and clock
//! reads live outside the library and hand it plain values.

pub mod animation;
pub mod color;
pub mod dimming;
pub mod fixed;
pub mod frame;
pub mod gamma;
