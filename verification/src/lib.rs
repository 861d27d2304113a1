//! Decomposition of function declarations, given as token sequences, into
//! their name, generic clause, parameters, return type and body.

pub mod angle;
pub mod error;
pub mod laws;
pub mod lookup;
pub mod params;
pub mod roundtrip;
pub mod samples;
pub mod shape;
pub mod signature;
pub mod spacing;
pub mod token;
