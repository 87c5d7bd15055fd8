//! Scheduling and addressing engine for a fixed LED installation.
//!
//! The library keeps the authoritative pixel buffer for three strips of
//! addressable pixels, hands out bounded (and possibly reversed) sections of
//! it to animation effects, reconciles the persisted display configuration
//! against the running effect instances, and encodes one frame per tick for
//! the transport that drives the hardware.  All colour arithmetic is done in
//! 16-bit fixed point (the full channel scale stands for intensity 1), so
//! every step of a tick is ordinary integer arithmetic with a contract.

pub mod color;
pub mod config;
pub mod controller;
pub mod effects;
pub mod notify;
pub mod runner;
pub mod section;
pub mod srgb;
pub mod timer;

pub use color::Rgba;
pub use section::Section;
