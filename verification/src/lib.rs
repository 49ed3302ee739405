//! Integer-level logic of a small Monte Carlo path tracer: the packed pixel
//! format, the plain-text PPM image encoding, the pixel window that the
//! bilateral post-processing filter visits, and the bounce and light-slot
//! decisions of the path integrator.

pub mod color;
pub mod ppm;
pub mod filter;
pub mod path;
