//! The decisions of a small ray renderer, on numbers held as IEEE 754 words.
//!
//! A renderer of this kind does two sorts of work. It computes with
//! single-precision numbers (lengths, roots, angles), and it decides: which
//! root of a quadratic counts, whether a march along a ray has arrived, which
//! of several hits is the nearest, what integer a colour channel becomes.
//! This library holds the second sort. A number reaches it as its 32-bit
//! word, and every answer is stated against the value that the word encodes.

pub mod geometry;
pub mod march;
pub mod raster;
pub mod scalar;
pub mod vec3;
