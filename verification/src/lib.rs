//! Driver for a chain of MAX7219-based 8x8 LED-matrix modules arranged in a
//! rectangular grid and exposed as one monochrome canvas.
//!
//! The driver owns an in-memory framebuffer, maps logical pixel coordinates
//! onto per-chip digit registers (the grid is wired in reverse-row chain
//! order), and serializes the whole framebuffer to the chain over a
//! register-oriented byte bus.  Every bus transaction carries one
//! `[register, data]` pair for every module in the chain.

pub mod bus;
pub mod config;
pub mod departures;
pub mod driver;
pub mod mapping;
pub mod protocol;
pub mod stops;
