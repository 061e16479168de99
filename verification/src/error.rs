//! The error type shared by every fallible operation of the crate.

use crate::file::{ComponentType, Domain, Semantic};
use vstd::prelude::*;

verus! {

/// Error raised while reading, decoding or checking a Topolyx file.
///
/// `f32` payloads (such as `meters_per_unit`) are carried as their IEEE-754 bit pattern.
#[derive(Debug, Clone, PartialEq, Eq)]
#[non_exhaustive]
pub enum TopolyxError {
    InvalidMagic,
    UnsupportedContainerVersion(u32),
    MalformedContainer,
    TotalLengthMismatch,
    /// The file holds this many bytes after the end of the BIN chunk.
    TrailingBytes(usize),
    UnalignedByteOffset(u32),
    ByteLengthMismatch,
    DataOutOfBounds,
    InvalidBoolValue(u8),
    HeaderVersionMismatch { container_version: u32, json_major: u32 },
    InvalidHeaderVersion(String),
    InvalidPadding { chunk: &'static str, expected: u8, found: u8 },
    EmptyName(&'static str),
    EmptyAttributeName { mesh: usize },
    DuplicateName { kind: &'static str, name: String },
    DuplicateAttributeName { mesh: usize, name: String },
    ObjectMeshIndexOutOfRange { object: usize, index: usize, length: usize },
    IndexOutOfRange { mesh: usize, field: &'static str, index: usize, length: usize },
    ComponentShapeMismatch {
        mesh: usize,
        field: &'static str,
        expected_type: ComponentType,
        expected_count: u32,
        found_type: ComponentType,
        found_count: u32,
    },
    SemanticShapeMismatch {
        mesh: usize,
        attribute: String,
        semantic: Semantic,
        found_type: ComponentType,
        found_count: u32,
    },
    TopologyElementCountMismatch { mesh: usize, field: &'static str, expected: u32, found: u32 },
    AttributeElementCountMismatch {
        mesh: usize,
        attribute: String,
        domain: Domain,
        expected: u32,
        found: u32,
    },
    InvalidCoordinateSystemField { field: &'static str, expected: &'static str, found: String },
    /// `meters_per_unit` (as IEEE-754 bits) is not a finite value greater than zero.
    InvalidMetersPerUnit(u32),
    SingularTransform { object: usize },
    InvalidFaceOffsets { mesh: usize },
    CornerEdgeMismatch { mesh: usize, corner: u32 },
    SelfEdge { mesh: usize, edge: u32, vertex: u32 },
    DuplicateEdge { mesh: usize, first: u32, second: u32 },
    EmptyMeshFaceOffsets { mesh: usize },
    UnexpectedComponentShape {
        field: &'static str,
        expected_type: ComponentType,
        expected_count: u32,
        found_type: ComponentType,
        found_count: u32,
    },
    CornerIndexOutOfRange { field: &'static str, corner: usize, index: usize, length: usize },
    /// Face `face`'s corner range `[start, end)` is reversed or runs past the corner arrays.
    InvalidFaceRange { face: usize, start: u32, end: u32 },
}

} // verus!
