//! Core engine of a slippy-map surface.
//!
//! The crate models geographic positions in exact fixed-point Web-Mercator
//! "world coordinates" (a 2^32 x 2^32 grid covering the whole map), and on
//! top of that verifies:
//!
//! * tile addressing and the tile-pyramid fallback walk,
//! * an in-memory tile cache that deduplicates fetches and decides when the
//!   disk store or the network must be consulted,
//! * a size-budgeted eviction plan for the disk store,
//! * a pan/zoom/momentum viewport state machine driven by pointer input.
//!
//! Everything that is inherently outside the reach of verification - file
//! and network I/O, PNG decoding, GPU textures, and the transcendental
//! degree-to-Mercator conversions - is left to the embedding application,
//! which talks to this crate in plain integers.

pub mod cache;
pub mod disk;
pub mod fixed;
pub mod gesture;
pub mod marker;
pub mod momentum;
pub mod tile;
pub mod viewport;
pub mod world;
