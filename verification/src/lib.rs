//! A multi-digit logical clock with shadow overflow counters.
//!
//! The primary clock is a single 64-bit radix counter interpreted as six
//! packed digits of fixed widths. A tick producer advances the counter by
//! atomic-style wrapping increments; an observer polls the counter, decodes
//! the digits, declares a wraparound whenever a digit's sampled value drops
//! below its previously sampled value, and drives per-slot shadow counters
//! through a divisor-based downsampling protocol.

pub mod memory_worm;
pub mod observer;
pub mod tick_worker;
