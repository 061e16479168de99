//! Reading and checking `.tlyx` (Topolyx) mesh containers.
//!
//! A `.tlyx` file is a small binary container holding a JSON chunk (scene and mesh metadata)
//! and a BIN chunk (the raw little-endian arrays that the metadata points into). This crate
//! splits the container, decodes the arrays a [`file::DataDescriptor`] refers to, groups them
//! per element, walks faces and fan-triangulates them, and runs the full validity pass of the
//! format over a parsed file.
//!
//! Floating-point values are carried as their IEEE-754 bit patterns (`u32`): decoding an `F32`
//! array is exact on bits, and the bit pattern is all the checks in this crate need.

pub mod data;
pub mod error;
pub mod faces;
pub mod file;
pub mod grouped;
pub mod reader;
pub mod util;
pub mod validate;
