//! The parsed structure of a Topolyx file's JSON chunk.

use vstd::prelude::*;

verus! {

/// Top-level structure of a Topolyx file.
#[derive(Debug, Clone)]
pub struct TopolyxFile {
    pub header: Header,
    pub coordinate_system: CoordinateSystem,
    pub objects: Vec<Object>,
    pub meshes: Vec<Mesh>,
}

/// Header of a Topolyx file (`format` is `"Topolyx"`, `version` is `"x.y"`).
#[derive(Debug, Clone)]
pub struct Header {
    pub format: String,
    pub version: String,
}

/// Coordinate system information stored in the file. Every field but `meters_per_unit` has a
/// single allowed value.
#[derive(Debug, Clone)]
pub struct CoordinateSystem {
    pub up_axis: String,
    pub forward_axis: String,
    pub handedness: String,
    pub winding: String,
    /// IEEE-754 bit pattern of the `f32` scale factor; must be finite and greater than zero.
    pub meters_per_unit: u32,
}

/// An object referencing a single mesh.
#[derive(Debug, Clone)]
pub struct Object {
    pub name: String,
    pub object_type: String,
    pub index: usize,
    /// Column-major 4x4 transform, each entry the IEEE-754 bit pattern of an `f32`.
    pub transform: [u32; 16],
}

/// Topology and attribute data of a single mesh.
#[derive(Debug, Clone)]
pub struct Mesh {
    pub name: String,
    pub element_counts: ElementCounts,
    pub topology: Topology,
    pub attributes: Vec<Attribute>,
}

/// Number of vertices, edges, faces and face corners of a mesh.
#[derive(Debug, Clone, Copy, PartialEq, Eq)]
pub struct ElementCounts {
    pub vertices: u32,
    pub edges: u32,
    pub faces: u32,
    pub corners: u32,
}

/// The five topology arrays every mesh carries.
#[derive(Debug, Clone, Copy, PartialEq, Eq)]
pub struct Topology {
    pub positions: DataDescriptor,
    pub edges: DataDescriptor,
    pub corner_vertices: DataDescriptor,
    pub corner_edges: DataDescriptor,
    pub face_offsets: DataDescriptor,
}

/// Where an array lives in the BIN chunk and how it is laid out.
#[derive(Debug, Clone, Copy, PartialEq, Eq)]
pub struct DataDescriptor {
    pub byte_offset: u32,
    pub byte_length: u32,
    pub component_type: ComponentType,
    pub component_count: u32,
    pub element_count: u32,
}

/// The component types an array may hold.
#[derive(Debug, Clone, Copy, PartialEq, Eq, Structural)]
pub enum ComponentType {
    F32,
    I32,
    U32,
    I8,
    U8,
    Bool,
}

/// Size in bytes of one component of type `t`.
pub open spec fn spec_byte_size(t: ComponentType) -> nat {
    match t {
        ComponentType::F32 | ComponentType::I32 | ComponentType::U32 => 4,
        ComponentType::I8 | ComponentType::U8 | ComponentType::Bool => 1,
    }
}

impl ComponentType {
    /// Size in bytes of a single component of this type.
    pub fn byte_size(self) -> (r: usize)
        ensures
            r == spec_byte_size(self),
    {
        match self {
            ComponentType::F32 | ComponentType::I32 | ComponentType::U32 => 4,
            ComponentType::I8 | ComponentType::U8 | ComponentType::Bool => 1,
        }
    }
}

/// A named attribute of a mesh.
#[derive(Debug, Clone)]
pub struct Attribute {
    pub name: String,
    pub domain: Domain,
    pub data: DataDescriptor,
    pub semantic: Semantic,
}

/// The element kind an attribute is stored per.
#[derive(Debug, Clone, Copy, PartialEq, Eq, Structural)]
pub enum Domain {
    Point,
    Edge,
    Face,
    Corner,
}

/// The role assigned to an attribute.
#[derive(Debug, Clone, Copy, PartialEq, Eq, Structural)]
pub enum Semantic {
    Position,
    Direction,
    Normal,
    Rotation,
    Tangent,
    Color,
    Unassigned,
}

impl Default for Semantic {
    fn default() -> (r: Semantic)
        ensures
            r == Semantic::Unassigned,
    {
        Semantic::Unassigned
    }
}

} // verus!
