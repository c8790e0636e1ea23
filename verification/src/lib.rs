//! Renders videos of gravitational lensing: an N-body physics history, a
//! backward-time photon tracer, and a fixed-layout binary video container.
//! This library holds the verified core: the video container (construction,
//! frame access, the byte-exact codec) and the integer part of the history
//! lookup. The floating-point tracer and the parallel render driver live in
//! the unverified application around it.

pub mod codec;
pub mod color;
pub mod history;
pub mod video;
