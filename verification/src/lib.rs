//! Streaming of an unbounded two-dimensional tile world.
//!
//! The world is cut into chunks of a fixed number of grid cells. Around every
//! focal point a fixed neighborhood of chunks is kept resident: chunks that are
//! missing there are generated from a seeded noise field, chunks that no focal
//! point needs any more are removed.
//!
//! The crate is verified with Verus. Every function carries a contract, and
//! the laws that relate several functions are stated as proof functions next
//! to them. Two things are taken on trust and marked `external_body`: the hash
//! map of `bevy_utils` that holds the collision shapes, and the random number
//! generator of `rand` that reseeds the world.
//!
//! The crate holds no floating-point code. A noise value enters it as the bit
//! pattern of its IEEE 754 binary64 encoding, a world position as whole world
//! units.
pub mod level_generator;
