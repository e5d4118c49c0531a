//! Height fields turned into closed triangle meshes, and the binary STL codec.
//!
//! Elevations, scales and vertex coordinates are single-precision values held
//! as their IEEE-754 bit patterns (`u32`), so that every comparison the mesh
//! builder makes and every byte the codec writes is stated exactly.
pub mod error;
pub mod float_bits;
pub mod triangle;
pub mod heightmap;
pub mod stl;
pub mod text;
pub mod image_rules;
