//! The full validity pass of the format over an already-parsed `TopolyxFile`.

use crate::data::{lemma_extract_len, spec_extract, ComponentValues};
use crate::error::TopolyxError;
use crate::file::{
    Attribute, ComponentType, CoordinateSystem, DataDescriptor, Domain, ElementCounts, Mesh,
    Object, Semantic, Topology, TopolyxFile,
};
use crate::faces::{
    face_count, face_range_bad, face_ranges_ok, faces_concat, first_bad_face, faces_in, faces_sliceable, index_out_of_range,
    lemma_corner_fan_resolves_to_vertex_fan, lemma_face_indices_parallel_corner_indices, lemma_faces_cover_corners,
    lemma_offsets_bounded, mesh_fan_corners, mesh_fan_faces, spec_face_offsets, spec_faces,
};
use crate::grouped::{f32_bits, spec_f32_flat, spec_u32_flat, u32_values};
use crate::util::{first_in, is_first, lemma_first_in_none, lemma_first_in_props, lemma_first_in_some};
use std::collections::HashMap;
use vstd::prelude::*;

verus! {

/// `a` if it holds an error, else `b`: checks run in order and the first failure is reported.
pub open spec fn or_else(a: Option<TopolyxError>, b: Option<TopolyxError>) -> Option<TopolyxError> {
    if a is Some {
        a
    } else {
        b
    }
}

/// `Err` of the error found, or `Ok(())`.
pub open spec fn to_result(o: Option<TopolyxError>) -> Result<(), TopolyxError> {
    match o {
        Some(e) => Err(e),
        None => Ok(()),
    }
}

// ------------------------------------------------------------------------------------------
// Coordinate system
// ------------------------------------------------------------------------------------------

/// A field with one allowed value: the error when `found` is not `expected`.
pub open spec fn fixed_field_error(field: &'static str, expected: &'static str, found: String) -> Option<TopolyxError> {
    if found@ != expected@ {
        Some(TopolyxError::InvalidCoordinateSystemField { field, expected, found })
    } else {
        None
    }
}

/// The bit pattern is that of a finite `f32` greater than zero (positive subnormals and
/// normals; not zero, negatives, infinities or NaNs).
pub open spec fn is_finite_positive_f32(bits: u32) -> bool {
    0 < bits && bits < 0x7F80_0000
}

/// The coordinate system check: the four fixed fields in order, then `meters_per_unit`.
pub open spec fn coordinate_system_error(cs: CoordinateSystem) -> Option<TopolyxError> {
    or_else(
        fixed_field_error("up_axis", "+Z", cs.up_axis),
        or_else(
            fixed_field_error("forward_axis", "+Y", cs.forward_axis),
            or_else(
                fixed_field_error("handedness", "RIGHT", cs.handedness),
                or_else(
                    fixed_field_error("winding", "CCW", cs.winding),
                    if is_finite_positive_f32(cs.meters_per_unit) {
                        None
                    } else {
                        Some(TopolyxError::InvalidMetersPerUnit(cs.meters_per_unit))
                    },
                ),
            ),
        ),
    )
}

pub fn check_fixed_field(field: &'static str, expected: &'static str, found: &String) -> (r: Result<(), TopolyxError>)
    ensures
        r == to_result(fixed_field_error(field, expected, *found)),
{
    let wanted = expected.to_owned();
    if !(*found == wanted) {
        return Err(TopolyxError::InvalidCoordinateSystemField { field, expected, found: found.clone() });
    }
    Ok(())
}

pub fn validate_coordinate_system(cs: &CoordinateSystem) -> (r: Result<(), TopolyxError>)
    ensures
        r == to_result(coordinate_system_error(*cs)),
{
    check_fixed_field("up_axis", "+Z", &cs.up_axis)?;
    check_fixed_field("forward_axis", "+Y", &cs.forward_axis)?;
    check_fixed_field("handedness", "RIGHT", &cs.handedness)?;
    check_fixed_field("winding", "CCW", &cs.winding)?;
    if !(0 < cs.meters_per_unit && cs.meters_per_unit < 0x7F80_0000) {
        return Err(TopolyxError::InvalidMetersPerUnit(cs.meters_per_unit));
    }
    Ok(())
}

// ------------------------------------------------------------------------------------------
// Names
// ------------------------------------------------------------------------------------------

/// Name `i` of `names` is empty or repeats an earlier one.
pub open spec fn name_problem(names: Seq<Seq<char>>) -> spec_fn(int) -> bool {
    |i: int| names[i].len() == 0 || exists|j: int| 0 <= j < i && names[j] == names[i]
}

/// The names of some objects.
pub open spec fn object_names(objects: Seq<Object>) -> Seq<Seq<char>> {
    objects.map_values(|o: Object| o.name@)
}

/// The names of some meshes.
pub open spec fn mesh_names(meshes: Seq<Mesh>) -> Seq<Seq<char>> {
    meshes.map_values(|m: Mesh| m.name@)
}

/// The names of some attributes.
pub open spec fn attribute_names(attributes: Seq<Attribute>) -> Seq<Seq<char>> {
    attributes.map_values(|a: Attribute| a.name@)
}

/// Object names must be non-empty and unique: the first object breaking that.
pub open spec fn object_names_error(objects: Seq<Object>) -> Option<TopolyxError> {
    match first_in(0, objects.len() as int, name_problem(object_names(objects))) {
        Some(i) => if objects[i].name@.len() == 0 {
            Some(TopolyxError::EmptyName("object.name"))
        } else {
            Some(TopolyxError::DuplicateName { kind: "object.name", name: objects[i].name })
        },
        None => None,
    }
}

/// Mesh names must be non-empty and unique: the first mesh breaking that.
pub open spec fn mesh_names_error(meshes: Seq<Mesh>) -> Option<TopolyxError> {
    match first_in(0, meshes.len() as int, name_problem(mesh_names(meshes))) {
        Some(i) => if meshes[i].name@.len() == 0 {
            Some(TopolyxError::EmptyName("mesh.name"))
        } else {
            Some(TopolyxError::DuplicateName { kind: "mesh.name", name: meshes[i].name })
        },
        None => None,
    }
}

/// Attribute names of mesh `mesh` must be non-empty and unique within it.
pub open spec fn attribute_names_error(mesh: usize, attributes: Seq<Attribute>) -> Option<TopolyxError> {
    match first_in(0, attributes.len() as int, name_problem(attribute_names(attributes))) {
        Some(i) => if attributes[i].name@.len() == 0 {
            Some(TopolyxError::EmptyAttributeName { mesh })
        } else {
            Some(TopolyxError::DuplicateAttributeName { mesh, name: attributes[i].name })
        },
        None => None,
    }
}

/// Finds the first name of `names` (given as the strings `strs`) that is empty or repeats an
/// earlier one.
fn first_name_problem(strs: &Vec<&String>, Ghost(names): Ghost<Seq<Seq<char>>>) -> (r: Option<usize>)
    requires
        names.len() == strs@.len(),
        forall|i: int| 0 <= i < names.len() ==> #[trigger] names[i] == strs@[i]@,
    ensures
        match r {
            Some(i) => first_in(0, names.len() as int, name_problem(names)) == Some(i as int),
            None => first_in(0, names.len() as int, name_problem(names)) is None,
        },
        r matches Some(i) ==> i < strs@.len(),
{
    let mut i: usize = 0;
    while i < strs.len()
        invariant
            i <= strs@.len(),
            names.len() == strs@.len(),
            forall|k: int| 0 <= k < names.len() ==> #[trigger] names[k] == strs@[k]@,
            forall|k: int| 0 <= k < i ==> !#[trigger] name_problem(names)(k),
        decreases strs@.len() - i,
    {
        let name: &String = strs[i];
        let empty = name.as_str().is_empty();
        let mut dup = false;
        let mut j: usize = 0;
        while j < i && !dup
            invariant
                j <= i < strs@.len(),
                names.len() == strs@.len(),
                forall|k: int| 0 <= k < names.len() ==> #[trigger] names[k] == strs@[k]@,
                name@ == strs@[i as int]@,
                dup ==> j < i && names[j as int] == names[i as int],
                !dup ==> forall|k: int| 0 <= k < j ==> names[k] != names[i as int],
            decreases i - j + (if dup { 0int } else { 1int }),
        {
            let earlier: &String = strs[j];
            if *earlier == *name {
                dup = true;
            } else {
                j = j + 1;
            }
        }
        if empty || dup {
            proof {
                assert(name_problem(names)(i as int));
                assert(is_first(name_problem(names), 0, i as int));
                lemma_first_in_some(0, names.len() as int, name_problem(names), i as int);
            }
            return Some(i);
        }
        assert(!name_problem(names)(i as int));
        i = i + 1;
    }
    proof {
        lemma_first_in_none(0, names.len() as int, name_problem(names));
    }
    None
}

pub fn validate_object_names(objects: &Vec<Object>) -> (r: Result<(), TopolyxError>)
    ensures
        r == to_result(object_names_error(objects@)),
{
    let mut strs: Vec<&String> = Vec::new();
    let mut i: usize = 0;
    while i < objects.len()
        invariant
            i <= objects@.len(),
            strs@.len() == i,
            forall|k: int| 0 <= k < i ==> *(#[trigger] strs@[k]) == objects@[k].name,
        decreases objects@.len() - i,
    {
        strs.push(&objects[i].name);
        i = i + 1;
    }
    match first_name_problem(&strs, Ghost(object_names(objects@))) {
        Some(i) => {
            if objects[i].name.as_str().is_empty() {
                Err(TopolyxError::EmptyName("object.name"))
            } else {
                Err(TopolyxError::DuplicateName { kind: "object.name", name: objects[i].name.clone() })
            }
        },
        None => Ok(()),
    }
}

pub fn validate_mesh_names(meshes: &Vec<Mesh>) -> (r: Result<(), TopolyxError>)
    ensures
        r == to_result(mesh_names_error(meshes@)),
{
    let mut strs: Vec<&String> = Vec::new();
    let mut i: usize = 0;
    while i < meshes.len()
        invariant
            i <= meshes@.len(),
            strs@.len() == i,
            forall|k: int| 0 <= k < i ==> *(#[trigger] strs@[k]) == meshes@[k].name,
        decreases meshes@.len() - i,
    {
        strs.push(&meshes[i].name);
        i = i + 1;
    }
    match first_name_problem(&strs, Ghost(mesh_names(meshes@))) {
        Some(i) => {
            if meshes[i].name.as_str().is_empty() {
                Err(TopolyxError::EmptyName("mesh.name"))
            } else {
                Err(TopolyxError::DuplicateName { kind: "mesh.name", name: meshes[i].name.clone() })
            }
        },
        None => Ok(()),
    }
}

pub fn validate_attribute_names(mesh: usize, attributes: &Vec<Attribute>) -> (r: Result<(), TopolyxError>)
    ensures
        r == to_result(attribute_names_error(mesh, attributes@)),
{
    let mut strs: Vec<&String> = Vec::new();
    let mut i: usize = 0;
    while i < attributes.len()
        invariant
            i <= attributes@.len(),
            strs@.len() == i,
            forall|k: int| 0 <= k < i ==> *(#[trigger] strs@[k]) == attributes@[k].name,
        decreases attributes@.len() - i,
    {
        strs.push(&attributes[i].name);
        i = i + 1;
    }
    match first_name_problem(&strs, Ghost(attribute_names(attributes@))) {
        Some(i) => {
            if attributes[i].name.as_str().is_empty() {
                Err(TopolyxError::EmptyAttributeName { mesh })
            } else {
                Err(TopolyxError::DuplicateAttributeName { mesh, name: attributes[i].name.clone() })
            }
        },
        None => Ok(()),
    }
}

// ------------------------------------------------------------------------------------------
// Object indices and transforms
// ------------------------------------------------------------------------------------------

/// Object `i` is a `MESH` object whose `index` is not below `mesh_count`.
pub open spec fn object_index_problem(objects: Seq<Object>, mesh_count: int) -> spec_fn(int) -> bool {
    |i: int| objects[i].object_type@ == "MESH"@ && objects[i].index >= mesh_count
}

/// `MESH` objects must reference an existing mesh: the first one that does not.
pub open spec fn object_index_error(objects: Seq<Object>, mesh_count: int) -> Option<TopolyxError> {
    match first_in(0, objects.len() as int, object_index_problem(objects, mesh_count)) {
        Some(i) => Some(
            TopolyxError::ObjectMeshIndexOutOfRange {
                object: i as usize,
                index: objects[i].index,
                length: mesh_count as usize,
            },
        ),
        None => None,
    }
}

/// The entry at `i` is set.
pub open spec fn flag_set(flags: Seq<bool>) -> spec_fn(int) -> bool {
    |i: int| flags[i]
}

/// Object transforms must not be singular: the first object whose flag says it is.
pub open spec fn transform_error(singular: Seq<bool>) -> Option<TopolyxError> {
    match first_in(0, singular.len() as int, flag_set(singular)) {
        Some(i) => Some(TopolyxError::SingularTransform { object: i as usize }),
        None => None,
    }
}

pub fn validate_object_mesh_indices(objects: &Vec<Object>, mesh_count: usize) -> (r: Result<(), TopolyxError>)
    ensures
        r == to_result(object_index_error(objects@, mesh_count as int)),
{
    let mesh_type = "MESH".to_owned();
    let mut i: usize = 0;
    while i < objects.len()
        invariant
            i <= objects@.len(),
            mesh_type@ == "MESH"@,
            forall|j: int| 0 <= j < i ==> !#[trigger] object_index_problem(objects@, mesh_count as int)(j),
        decreases objects@.len() - i,
    {
        let object = &objects[i];
        if object.object_type == mesh_type && object.index >= mesh_count {
            proof {
                assert(is_first(object_index_problem(objects@, mesh_count as int), 0, i as int));
                lemma_first_in_some(0, objects@.len() as int, object_index_problem(objects@, mesh_count as int), i as int);
            }
            return Err(TopolyxError::ObjectMeshIndexOutOfRange { object: i, index: object.index, length: mesh_count });
        }
        i = i + 1;
    }
    proof {
        lemma_first_in_none(0, objects@.len() as int, object_index_problem(objects@, mesh_count as int));
    }
    Ok(())
}

pub fn validate_transforms(singular: &[bool]) -> (r: Result<(), TopolyxError>)
    ensures
        r == to_result(transform_error(singular@)),
{
    let mut i: usize = 0;
    while i < singular.len()
        invariant
            i <= singular@.len(),
            forall|j: int| 0 <= j < i ==> !#[trigger] flag_set(singular@)(j),
        decreases singular@.len() - i,
    {
        if singular[i] {
            proof {
                assert(is_first(flag_set(singular@), 0, i as int));
                lemma_first_in_some(0, singular@.len() as int, flag_set(singular@), i as int);
            }
            return Err(TopolyxError::SingularTransform { object: i });
        }
        i = i + 1;
    }
    proof {
        lemma_first_in_none(0, singular@.len() as int, flag_set(singular@));
    }
    Ok(())
}

// ------------------------------------------------------------------------------------------
// Shapes and element counts
// ------------------------------------------------------------------------------------------

/// Topology field `field` of mesh `mesh` must be `t` x `n`.
pub open spec fn topology_shape_error(mesh: usize, field: &'static str, d: DataDescriptor, t: ComponentType, n: u32) -> Option<TopolyxError> {
    if d.component_type != t || d.component_count != n {
        Some(
            TopolyxError::ComponentShapeMismatch {
                mesh,
                field,
                expected_type: t,
                expected_count: n,
                found_type: d.component_type,
                found_count: d.component_count,
            },
        )
    } else {
        None
    }
}

/// The five topology fields must have their fixed shapes, checked in order.
pub open spec fn topology_shapes_error(mesh: usize, t: Topology) -> Option<TopolyxError> {
    or_else(
        topology_shape_error(mesh, "positions", t.positions, ComponentType::F32, 3),
        or_else(
            topology_shape_error(mesh, "edges", t.edges, ComponentType::U32, 2),
            or_else(
                topology_shape_error(mesh, "corner_vertices", t.corner_vertices, ComponentType::U32, 1),
                or_else(
                    topology_shape_error(mesh, "corner_edges", t.corner_edges, ComponentType::U32, 1),
                    topology_shape_error(mesh, "face_offsets", t.face_offsets, ComponentType::U32, 1),
                ),
            ),
        ),
    )
}

/// The shapes an attribute with role `semantic` may have (any shape for no role).
pub open spec fn semantic_allows(semantic: Semantic, t: ComponentType, n: u32) -> bool {
    match semantic {
        Semantic::Position | Semantic::Direction | Semantic::Normal => t == ComponentType::F32 && n == 3,
        Semantic::Rotation | Semantic::Tangent => t == ComponentType::F32 && n == 4,
        Semantic::Color => (t == ComponentType::F32 && n == 4) || (t == ComponentType::U8 && n == 4),
        Semantic::Unassigned => true,
    }
}

/// Attribute `i` has a shape its role does not allow.
pub open spec fn semantic_problem(attributes: Seq<Attribute>) -> spec_fn(int) -> bool {
    |i: int|
        !semantic_allows(
            attributes[i].semantic,
            attributes[i].data.component_type,
            attributes[i].data.component_count,
        )
}

/// Every attribute's shape must suit its role: the first that does not.
pub open spec fn attribute_semantics_error(mesh: usize, attributes: Seq<Attribute>) -> Option<TopolyxError> {
    match first_in(0, attributes.len() as int, semantic_problem(attributes)) {
        Some(i) => Some(
            TopolyxError::SemanticShapeMismatch {
                mesh,
                attribute: attributes[i].name,
                semantic: attributes[i].semantic,
                found_type: attributes[i].data.component_type,
                found_count: attributes[i].data.component_count,
            },
        ),
        None => None,
    }
}

/// A topology field's `element_count` must be `expected`.
pub open spec fn topology_count_error(mesh: usize, field: &'static str, expected: u32, found: u32) -> Option<TopolyxError> {
    if found != expected {
        Some(TopolyxError::TopologyElementCountMismatch { mesh, field, expected, found })
    } else {
        None
    }
}

/// Number of elements of the domain `domain` in a mesh with counts `c`.
pub open spec fn spec_domain_count(domain: Domain, c: ElementCounts) -> u32 {
    match domain {
        Domain::Point => c.vertices,
        Domain::Edge => c.edges,
        Domain::Face => c.faces,
        Domain::Corner => c.corners,
    }
}

/// `faces + 1`, saturating at `u32::MAX`.
pub open spec fn faces_plus_one(c: ElementCounts) -> u32 {
    if c.faces == u32::MAX {
        u32::MAX
    } else {
        (c.faces + 1) as u32
    }
}

/// Attribute `i`'s `element_count` differs from its domain's count.
pub open spec fn attribute_count_problem(attributes: Seq<Attribute>, c: ElementCounts) -> spec_fn(int) -> bool {
    |i: int| attributes[i].data.element_count != spec_domain_count(attributes[i].domain, c)
}

/// Every array must hold one element per element of its domain: topology fields in order,
/// then attributes in order.
pub open spec fn element_counts_error(mesh: usize, m: Mesh) -> Option<TopolyxError> {
    let c = m.element_counts;
    let t = m.topology;
    or_else(
        topology_count_error(mesh, "positions", c.vertices, t.positions.element_count),
        or_else(
            topology_count_error(mesh, "edges", c.edges, t.edges.element_count),
            or_else(
                topology_count_error(mesh, "corner_vertices", c.corners, t.corner_vertices.element_count),
                or_else(
                    topology_count_error(mesh, "corner_edges", c.corners, t.corner_edges.element_count),
                    or_else(
                        topology_count_error(mesh, "face_offsets", faces_plus_one(c), t.face_offsets.element_count),
                        match first_in(0, m.attributes@.len() as int, attribute_count_problem(m.attributes@, c)) {
                            Some(i) => Some(
                                TopolyxError::AttributeElementCountMismatch {
                                    mesh,
                                    attribute: m.attributes@[i].name,
                                    domain: m.attributes@[i].domain,
                                    expected: spec_domain_count(m.attributes@[i].domain, c),
                                    found: m.attributes@[i].data.element_count,
                                },
                            ),
                            None => None,
                        },
                    ),
                ),
            ),
        ),
    )
}

pub fn check_shape(mesh: usize, field: &'static str, data: &DataDescriptor, expected_type: ComponentType, expected_count: u32) -> (r: Result<(), TopolyxError>)
    ensures
        r == to_result(topology_shape_error(mesh, field, *data, expected_type, expected_count)),
{
    if data.component_type != expected_type || data.component_count != expected_count {
        return Err(
            TopolyxError::ComponentShapeMismatch {
                mesh,
                field,
                expected_type,
                expected_count,
                found_type: data.component_type,
                found_count: data.component_count,
            },
        );
    }
    Ok(())
}

pub fn validate_topology_shape(mesh: usize, topology: &Topology) -> (r: Result<(), TopolyxError>)
    ensures
        r == to_result(topology_shapes_error(mesh, *topology)),
{
    check_shape(mesh, "positions", &topology.positions, ComponentType::F32, 3)?;
    check_shape(mesh, "edges", &topology.edges, ComponentType::U32, 2)?;
    check_shape(mesh, "corner_vertices", &topology.corner_vertices, ComponentType::U32, 1)?;
    check_shape(mesh, "corner_edges", &topology.corner_edges, ComponentType::U32, 1)?;
    check_shape(mesh, "face_offsets", &topology.face_offsets, ComponentType::U32, 1)?;
    Ok(())
}

fn shape_allowed(semantic: Semantic, t: ComponentType, n: u32) -> (r: bool)
    ensures
        r == semantic_allows(semantic, t, n),
{
    match semantic {
        Semantic::Position | Semantic::Direction | Semantic::Normal => t == ComponentType::F32 && n == 3,
        Semantic::Rotation | Semantic::Tangent => t == ComponentType::F32 && n == 4,
        Semantic::Color => (t == ComponentType::F32 && n == 4) || (t == ComponentType::U8 && n == 4),
        Semantic::Unassigned => true,
    }
}

pub fn validate_attribute_semantics(mesh: usize, attributes: &Vec<Attribute>) -> (r: Result<(), TopolyxError>)
    ensures
        r == to_result(attribute_semantics_error(mesh, attributes@)),
{
    let mut i: usize = 0;
    while i < attributes.len()
        invariant
            i <= attributes@.len(),
            forall|j: int| 0 <= j < i ==> !#[trigger] semantic_problem(attributes@)(j),
        decreases attributes@.len() - i,
    {
        let attribute = &attributes[i];
        let data = &attribute.data;
        if !shape_allowed(attribute.semantic, data.component_type, data.component_count) {
            proof {
                assert(is_first(semantic_problem(attributes@), 0, i as int));
                lemma_first_in_some(0, attributes@.len() as int, semantic_problem(attributes@), i as int);
            }
            return Err(
                TopolyxError::SemanticShapeMismatch {
                    mesh,
                    attribute: attribute.name.clone(),
                    semantic: attribute.semantic,
                    found_type: data.component_type,
                    found_count: data.component_count,
                },
            );
        }
        i = i + 1;
    }
    proof {
        lemma_first_in_none(0, attributes@.len() as int, semantic_problem(attributes@));
    }
    Ok(())
}

pub fn check_topology_count(mesh: usize, field: &'static str, expected: u32, found: u32) -> (r: Result<(), TopolyxError>)
    ensures
        r == to_result(topology_count_error(mesh, field, expected, found)),
{
    if found != expected {
        return Err(TopolyxError::TopologyElementCountMismatch { mesh, field, expected, found });
    }
    Ok(())
}

pub fn domain_element_count(domain: Domain, counts: &ElementCounts) -> (r: u32)
    ensures
        r == spec_domain_count(domain, *counts),
        domain == Domain::Point ==> r == counts.vertices,
        domain == Domain::Edge ==> r == counts.edges,
        domain == Domain::Face ==> r == counts.faces,
        domain == Domain::Corner ==> r == counts.corners,
{
    match domain {
        Domain::Point => counts.vertices,
        Domain::Edge => counts.edges,
        Domain::Face => counts.faces,
        Domain::Corner => counts.corners,
    }
}

pub fn validate_element_counts(mesh_index: usize, mesh: &Mesh) -> (r: Result<(), TopolyxError>)
    ensures
        r == to_result(element_counts_error(mesh_index, *mesh)),
{
    let counts = &mesh.element_counts;
    check_topology_count(mesh_index, "positions", counts.vertices, mesh.topology.positions.element_count)?;
    check_topology_count(mesh_index, "edges", counts.edges, mesh.topology.edges.element_count)?;
    check_topology_count(mesh_index, "corner_vertices", counts.corners, mesh.topology.corner_vertices.element_count)?;
    check_topology_count(mesh_index, "corner_edges", counts.corners, mesh.topology.corner_edges.element_count)?;
    check_topology_count(mesh_index, "face_offsets", counts.faces.saturating_add(1), mesh.topology.face_offsets.element_count)?;

    let attributes = &mesh.attributes;
    let mut i: usize = 0;
    while i < attributes.len()
        invariant
            i <= attributes@.len(),
            attributes == &mesh.attributes,
            counts == &mesh.element_counts,
            mesh.topology.positions.element_count == counts.vertices,
            mesh.topology.edges.element_count == counts.edges,
            mesh.topology.corner_vertices.element_count == counts.corners,
            mesh.topology.corner_edges.element_count == counts.corners,
            mesh.topology.face_offsets.element_count == faces_plus_one(*counts),
            forall|j: int| 0 <= j < i ==> !#[trigger] attribute_count_problem(attributes@, *counts)(j),
        decreases attributes@.len() - i,
    {
        let attribute = &attributes[i];
        let expected = domain_element_count(attribute.domain, counts);
        if attribute.data.element_count != expected {
            proof {
                assert(is_first(attribute_count_problem(attributes@, *counts), 0, i as int));
                lemma_first_in_some(0, attributes@.len() as int, attribute_count_problem(attributes@, *counts), i as int);
            }
            return Err(
                TopolyxError::AttributeElementCountMismatch {
                    mesh: mesh_index,
                    attribute: attribute.name.clone(),
                    domain: attribute.domain,
                    expected,
                    found: attribute.data.element_count,
                },
            );
        }
        i = i + 1;
    }
    proof {
        lemma_first_in_none(0, attributes@.len() as int, attribute_count_problem(attributes@, *counts));
    }
    Ok(())
}

// ------------------------------------------------------------------------------------------
// Decoded topology values
// ------------------------------------------------------------------------------------------

/// Edges `j` and `i` of the flat edge array `e` join the same two vertices.
pub open spec fn same_edge(e: Seq<u32>, j: int, i: int) -> bool {
    ||| (e[2 * j] == e[2 * i] && e[2 * j + 1] == e[2 * i + 1])
    ||| (e[2 * j] == e[2 * i + 1] && e[2 * j + 1] == e[2 * i])
}

/// Edge `j` joins the same two vertices as edge `i`.
pub open spec fn same_as(e: Seq<u32>, i: int) -> spec_fn(int) -> bool {
    |j: int| same_edge(e, j, i)
}

/// Edge `i` has an endpoint out of range, is a self-edge, or repeats an earlier edge.
pub open spec fn edge_problem(e: Seq<u32>, vertex_count: u32) -> spec_fn(int) -> bool {
    |i: int|
        e[2 * i] >= vertex_count || e[2 * i + 1] >= vertex_count || e[2 * i] == e[2 * i + 1]
            || exists|j: int| 0 <= j < i && same_edge(e, j, i)
}

/// The error for edge `i`, the first edge with a problem.
pub open spec fn edge_error_at(mesh: usize, e: Seq<u32>, vertex_count: u32, i: int) -> TopolyxError {
    if e[2 * i] >= vertex_count {
        TopolyxError::IndexOutOfRange { mesh, field: "edges", index: e[2 * i] as usize, length: vertex_count as usize }
    } else if e[2 * i + 1] >= vertex_count {
        TopolyxError::IndexOutOfRange { mesh, field: "edges", index: e[2 * i + 1] as usize, length: vertex_count as usize }
    } else if e[2 * i] == e[2 * i + 1] {
        TopolyxError::SelfEdge { mesh, edge: i as u32, vertex: e[2 * i] }
    } else {
        match first_in(0, i, same_as(e, i)) {
            Some(j) => TopolyxError::DuplicateEdge { mesh, first: j as u32, second: i as u32 },
            None => TopolyxError::DuplicateEdge { mesh, first: 0, second: i as u32 },
        }
    }
}

/// Every edge must join two distinct in-range vertices and appear once: the first that does
/// not.
pub open spec fn edges_error(mesh: usize, e: Seq<u32>, vertex_count: u32) -> Option<TopolyxError> {
    match first_in(0, (e.len() / 2) as int, edge_problem(e, vertex_count)) {
        Some(i) => Some(edge_error_at(mesh, e, vertex_count, i)),
        None => None,
    }
}

/// Key identifying an unordered pair of vertices.
pub open spec fn edge_key(a: u32, b: u32) -> int {
    if a <= b {
        a * 0x1_0000_0000 + b
    } else {
        b * 0x1_0000_0000 + a
    }
}

/// Key of edge `j` of the flat edge array `e`.
pub open spec fn key_of(e: Seq<u32>, j: int) -> int {
    edge_key(e[2 * j], e[2 * j + 1])
}

proof fn lemma_edge_key(a: u32, b: u32, c: u32, d: u32)
    ensures
        (edge_key(a, b) == edge_key(c, d)) <==> ((a == c && b == d) || (a == d && b == c)),
        0 <= edge_key(a, b) <= u64::MAX,
{
    let lo1: int = if a <= b { a as int } else { b as int };
    let hi1: int = if a <= b { b as int } else { a as int };
    let lo2: int = if c <= d { c as int } else { d as int };
    let hi2: int = if c <= d { d as int } else { c as int };
    assert(edge_key(a, b) == lo1 * 0x1_0000_0000 + hi1);
    assert(edge_key(c, d) == lo2 * 0x1_0000_0000 + hi2);
    if lo1 < lo2 {
        assert(lo1 * 0x1_0000_0000 + hi1 < lo2 * 0x1_0000_0000 + hi2);
    } else if lo2 < lo1 {
        assert(lo2 * 0x1_0000_0000 + hi2 < lo1 * 0x1_0000_0000 + hi1);
    }
}

fn pair_key(a: u32, b: u32) -> (r: u64)
    ensures
        r == edge_key(a, b),
{
    if a <= b {
        (a as u64) * 0x1_0000_0000 + b as u64
    } else {
        (b as u64) * 0x1_0000_0000 + a as u64
    }
}

pub fn check_index(mesh: usize, field: &'static str, index: u32, length: u32) -> (r: Result<(), TopolyxError>)
    ensures
        index >= length ==> r == Err::<(), TopolyxError>(
            TopolyxError::IndexOutOfRange { mesh, field, index: index as usize, length: length as usize },
        ),
        index < length ==> r is Ok,
{
    if index >= length {
        return Err(TopolyxError::IndexOutOfRange { mesh, field, index: index as usize, length: length as usize });
    }
    Ok(())
}

/// Recording edge `i` (new to the map) keeps the map of first occurrences up to date.
proof fn lemma_seen_step(e: Seq<u32>, i: int, old_seen: Map<u64, u32>, seen: Map<u64, u32>, key: u64, a: u32, b: u32)
    requires
        0 <= i,
        2 * i + 1 < e.len(),
        a == e[2 * i],
        b == e[2 * i + 1],
        key == edge_key(a, b),
        seen == old_seen.insert(key, i as u32),
        forall|j: int| 0 <= j < i ==> !same_edge(e, j, i),
        forall|j: int|
            0 <= j < i ==> #[trigger] old_seen.contains_key(key_of(e, j) as u64)
                && old_seen[key_of(e, j) as u64] == j as u32,
        forall|k: u64|
            #[trigger] old_seen.contains_key(k) ==> exists|j: int| 0 <= j < i && key_of(e, j) == k,
    ensures
        forall|j: int|
            0 <= j < i + 1 ==> #[trigger] seen.contains_key(key_of(e, j) as u64)
                && seen[key_of(e, j) as u64] == j as u32,
        forall|k: u64|
            #[trigger] seen.contains_key(k) ==> exists|j: int| 0 <= j < i + 1 && key_of(e, j) == k,
{
    lemma_edge_key(a, b, a, b);
    assert forall|j: int| 0 <= j < i + 1 implies #[trigger] seen.contains_key(key_of(e, j) as u64)
        && seen[key_of(e, j) as u64] == j as u32 by {
        if j < i {
            lemma_edge_key(e[2 * j], e[2 * j + 1], a, b);
            assert(!same_edge(e, j, i));
            assert(old_seen.contains_key(key_of(e, j) as u64));
            assert(key_of(e, j) as u64 != key);
        } else {
            assert(key_of(e, j) as u64 == key);
        }
    }
    assert forall|k: u64| #[trigger] seen.contains_key(k) implies exists|j: int|
        0 <= j < i + 1 && key_of(e, j) == k by {
        if k != key {
            assert(old_seen.contains_key(k));
            let j = choose|j: int| 0 <= j < i && key_of(e, j) == k;
            assert(0 <= j < i + 1);
        } else {
            assert(key_of(e, i) == k);
        }
    }
}

/// Checks for out-of-range endpoints, self-edges and duplicate edges, in edge order.
#[verifier::spinoff_prover]
#[verifier::rlimit(40)]
pub fn validate_edges(mesh: usize, edges: &[u32], vertex_count: u32) -> (r: Result<(), TopolyxError>)
    requires
        edges@.len() % 2 == 0,
    ensures
        r == to_result(edges_error(mesh, edges@, vertex_count)),
{
    broadcast use vstd::std_specs::hash::group_hash_axioms;
    let ghost e = edges@;
    let n = edges.len() / 2;
    let mut seen: HashMap<u64, u32> = HashMap::new();
    let mut i: usize = 0;
    while i < n
        invariant
            e == edges@,
            n == e.len() / 2,
            e.len() % 2 == 0,
            i <= n,
            forall|j: int| 0 <= j < i ==> !#[trigger] edge_problem(e, vertex_count)(j),
            forall|j: int|
                0 <= j < i ==> #[trigger] seen@.contains_key(key_of(e, j) as u64)
                    && seen@[key_of(e, j) as u64] == j as u32,
            forall|k: u64|
                #[trigger] seen@.contains_key(k) ==> exists|j: int|
                    0 <= j < i && key_of(e, j) == k,
        decreases n - i,
    {
        assert(e.len() == edges.len());
        assert(2 * i + 1 < e.len());
        let a = edges[2 * i];
        let b = edges[2 * i + 1];
        let edge_index = i as u32;

        if a >= vertex_count || b >= vertex_count || a == b {
            proof {
                assert(edge_problem(e, vertex_count)(i as int));
                assert(is_first(edge_problem(e, vertex_count), 0, i as int));
                lemma_first_in_some(0, n as int, edge_problem(e, vertex_count), i as int);
            }
            check_index(mesh, "edges", a, vertex_count)?;
            check_index(mesh, "edges", b, vertex_count)?;
            return Err(TopolyxError::SelfEdge { mesh, edge: edge_index, vertex: a });
        }

        let key = pair_key(a, b);
        match seen.get(&key) {
            Some(first) => {
                let first = *first;
                proof {
                    let j = choose|j: int| 0 <= j < i && key_of(e, j) == key;
                    lemma_edge_key(e[2 * j], e[2 * j + 1], a, b);
                    assert(same_edge(e, j, i as int));
                    assert(edge_problem(e, vertex_count)(i as int));
                    assert(is_first(edge_problem(e, vertex_count), 0, i as int));
                    lemma_first_in_some(0, n as int, edge_problem(e, vertex_count), i as int);
                    assert forall|k: int| 0 <= k < j implies !#[trigger] same_as(e, i as int)(k) by {
                        if same_edge(e, k, i as int) {
                            lemma_edge_key(e[2 * k], e[2 * k + 1], a, b);
                            lemma_edge_key(e[2 * k], e[2 * k + 1], e[2 * j], e[2 * j + 1]);
                            assert(same_edge(e, k, j));
                            assert(edge_problem(e, vertex_count)(j));
                        }
                    }
                    assert(is_first(same_as(e, i as int), 0, j));
                    lemma_first_in_some(0, i as int, same_as(e, i as int), j);
                    assert(key_of(e, j) as u64 == key);
                    assert(seen@.contains_key(key_of(e, j) as u64));
                    assert(seen@[key] == j as u32);
                }
                return Err(TopolyxError::DuplicateEdge { mesh, first, second: edge_index });
            },
            None => {},
        }
        proof {
            assert forall|j: int| 0 <= j < i implies !same_edge(e, j, i as int) by {
                lemma_edge_key(e[2 * j], e[2 * j + 1], a, b);
                assert(seen@.contains_key(key_of(e, j) as u64));
            }
            assert(!edge_problem(e, vertex_count)(i as int));
            lemma_edge_key(a, b, a, b);
        }
        let ghost old_seen = seen@;
        seen.insert(key, edge_index);
        proof {
            lemma_seen_step(e, i as int, old_seen, seen@, key, a, b);
        }
        i = i + 1;
    }
    proof {
        lemma_first_in_none(0, n as int, edge_problem(e, vertex_count));
    }
    Ok(())
}

/// Entry `c` of `xs` is not below `length`.
pub open spec fn entry_out_of_range(xs: Seq<u32>, length: u32) -> spec_fn(int) -> bool {
    |c: int| xs[c] >= length
}

/// Every entry of `xs` must be below `length`: the first that is not.
pub open spec fn indices_error(mesh: usize, field: &'static str, xs: Seq<u32>, length: u32) -> Option<TopolyxError> {
    match first_in(0, xs.len() as int, entry_out_of_range(xs, length)) {
        Some(c) => Some(
            TopolyxError::IndexOutOfRange { mesh, field, index: xs[c] as usize, length: length as usize },
        ),
        None => None,
    }
}

pub fn validate_indices(mesh: usize, field: &'static str, xs: &[u32], length: u32) -> (r: Result<(), TopolyxError>)
    ensures
        r == to_result(indices_error(mesh, field, xs@, length)),
{
    let mut c: usize = 0;
    while c < xs.len()
        invariant
            c <= xs@.len(),
            forall|j: int| 0 <= j < c ==> !#[trigger] entry_out_of_range(xs@, length)(j),
        decreases xs@.len() - c,
    {
        if xs[c] >= length {
            proof {
                assert(is_first(entry_out_of_range(xs@, length), 0, c as int));
                lemma_first_in_some(0, xs@.len() as int, entry_out_of_range(xs@, length), c as int);
            }
            return Err(TopolyxError::IndexOutOfRange { mesh, field, index: xs[c] as usize, length: length as usize });
        }
        c = c + 1;
    }
    proof {
        lemma_first_in_none(0, xs@.len() as int, entry_out_of_range(xs@, length));
    }
    Ok(())
}

/// All four element counts are zero.
pub open spec fn counts_all_zero(c: ElementCounts) -> bool {
    c.vertices == 0 && c.edges == 0 && c.faces == 0 && c.corners == 0
}

/// A mesh with all-zero element counts must have `face_offsets == [0]`.
pub open spec fn empty_mesh_error(mesh: usize, c: ElementCounts, fo: Seq<u32>) -> Option<TopolyxError> {
    if counts_all_zero(c) && !(fo.len() > 0 && fo[0] == 0) {
        Some(TopolyxError::EmptyMeshFaceOffsets { mesh })
    } else {
        None
    }
}

pub fn validate_empty_mesh(mesh: usize, counts: &ElementCounts, face_offsets: &[u32]) -> (r: Result<(), TopolyxError>)
    ensures
        r == to_result(empty_mesh_error(mesh, *counts, face_offsets@)),
{
    let is_empty = counts.vertices == 0 && counts.edges == 0 && counts.faces == 0 && counts.corners == 0;
    if !is_empty {
        return Ok(());
    }
    if !(face_offsets.len() > 0 && face_offsets[0] == 0) {
        return Err(TopolyxError::EmptyMeshFaceOffsets { mesh });
    }
    Ok(())
}

/// `fo` partitions the corner range `[0, corners)` into faces of at least 3 corners each: it
/// starts at 0, ends at `corners`, and each entry is at least 3 above the one before (so it
/// also never decreases).
pub open spec fn is_corner_partition(fo: Seq<u32>, corners: u32) -> bool {
    &&& fo.len() > 0
    &&& fo[0] == 0
    &&& fo.last() == corners
    &&& forall|k: int| 0 <= k < fo.len() - 1 ==> #[trigger] fo[k] + 3 <= fo[k + 1]
}

/// `face_offsets` must partition the corner range into faces of at least 3 corners.
pub open spec fn face_offsets_error(mesh: usize, fo: Seq<u32>, corners: u32) -> Option<TopolyxError> {
    if is_corner_partition(fo, corners) {
        None
    } else {
        Some(TopolyxError::InvalidFaceOffsets { mesh })
    }
}

pub fn validate_face_offsets_structure(mesh: usize, face_offsets: &[u32], corners: u32) -> (r: Result<(), TopolyxError>)
    ensures
        r == to_result(face_offsets_error(mesh, face_offsets@, corners)),
{
    let n = face_offsets.len();
    if n == 0 || face_offsets[0] != 0 || face_offsets[n - 1] != corners {
        return Err(TopolyxError::InvalidFaceOffsets { mesh });
    }
    let mut k: usize = 0;
    while k + 1 < n
        invariant
            n == face_offsets@.len(),
            n > 0,
            k < n,
            forall|j: int| 0 <= j < k ==> #[trigger] face_offsets@[j] + 3 <= face_offsets@[j + 1],
        decreases n - k,
    {
        if face_offsets[k] > face_offsets[k + 1] || face_offsets[k + 1] - face_offsets[k] < 3 {
            return Err(TopolyxError::InvalidFaceOffsets { mesh });
        }
        k = k + 1;
    }
    Ok(())
}

/// Edge `ei` of the flat edge array `e` joins vertices `x` and `y` (in either order).
pub open spec fn edge_connects(e: Seq<u32>, ei: int, x: u32, y: u32) -> bool {
    (e[2 * ei] == x && e[2 * ei + 1] == y) || (e[2 * ei] == y && e[2 * ei + 1] == x)
}

/// The corner after `c` within face `f`, wrapping to the face's first corner.
pub open spec fn next_corner(fo: Seq<u32>, f: int, c: int) -> int {
    if c + 1 == fo[f + 1] {
        fo[f] as int
    } else {
        c + 1
    }
}

/// Corner `c` of face `f`: its `corner_edges` entry does not join its vertex and the next
/// corner's vertex.
pub open spec fn corner_problem(fo: Seq<u32>, cv: Seq<u32>, ce: Seq<u32>, e: Seq<u32>, f: int) -> spec_fn(int) -> bool {
    |c: int| !edge_connects(e, ce[c] as int, cv[c], cv[next_corner(fo, f, c)])
}

/// The first corner of face `f` with a problem, if any.
pub open spec fn face_first_bad_corner(fo: Seq<u32>, cv: Seq<u32>, ce: Seq<u32>, e: Seq<u32>, f: int) -> Option<int> {
    first_in(fo[f] as int, fo[f + 1] as int, corner_problem(fo, cv, ce, e, f))
}

/// Face `f` has a corner with a problem.
pub open spec fn face_problem(fo: Seq<u32>, cv: Seq<u32>, ce: Seq<u32>, e: Seq<u32>) -> spec_fn(int) -> bool {
    |f: int| face_first_bad_corner(fo, cv, ce, e, f) is Some
}

/// Every corner's edge must join it to the next corner of its face: faces in order, corners
/// in order within a face, the first failing corner.
pub open spec fn corner_edge_error(mesh: usize, fo: Seq<u32>, cv: Seq<u32>, ce: Seq<u32>, e: Seq<u32>) -> Option<TopolyxError> {
    match first_in(0, fo.len() - 1, face_problem(fo, cv, ce, e)) {
        Some(f) => match face_first_bad_corner(fo, cv, ce, e, f) {
            Some(c) => Some(TopolyxError::CornerEdgeMismatch { mesh, corner: c as u32 }),
            None => None,
        },
        None => None,
    }
}

pub fn validate_corner_edge_consistency(
    mesh: usize,
    face_offsets: &[u32],
    corner_vertices: &[u32],
    corner_edges: &[u32],
    edges: &[u32],
) -> (r: Result<(), TopolyxError>)
    requires
        face_offsets@.len() > 0,
        forall|k: int| 0 <= k < face_offsets@.len() - 1 ==> #[trigger] face_offsets@[k] <= face_offsets@[k + 1],
        face_offsets@.last() == corner_vertices@.len(),
        corner_edges@.len() == corner_vertices@.len(),
        forall|c: int| 0 <= c < corner_edges@.len() ==> 2 * (#[trigger] corner_edges@[c]) + 1 < edges@.len(),
    ensures
        r == to_result(corner_edge_error(mesh, face_offsets@, corner_vertices@, corner_edges@, edges@)),
{
    let ghost fo = face_offsets@;
    let ghost cv = corner_vertices@;
    let ghost ce = corner_edges@;
    let ghost e = edges@;
    let n = face_offsets.len() - 1;
    let mut f: usize = 0;
    proof {
        lemma_offsets_bounded(fo);
    }
    while f < n
        invariant
            n == fo.len() - 1,
            f <= n,
            fo == face_offsets@,
            cv == corner_vertices@,
            ce == corner_edges@,
            e == edges@,
            fo.len() > 0,
            forall|k: int| 0 <= k < fo.len() ==> #[trigger] fo[k] <= fo.last(),
            forall|k: int| 0 <= k < fo.len() - 1 ==> #[trigger] fo[k] <= fo[k + 1],
            fo.last() == cv.len(),
            ce.len() == cv.len(),
            forall|c: int| 0 <= c < ce.len() ==> 2 * (#[trigger] ce[c]) + 1 < e.len(),
            forall|g: int| 0 <= g < f ==> !#[trigger] face_problem(fo, cv, ce, e)(g),
        decreases n - f,
    {
        let start = face_offsets[f] as usize;
        let end = face_offsets[f + 1] as usize;
        assert(fo[f as int] <= fo[f + 1]);
        assert(fo[f + 1] <= fo.last());
        let mut c = start;
        while c < end
            invariant
                start <= c <= end,
                start == fo[f as int],
                end == fo[f + 1],
                end <= cv.len(),
                f < n,
                n == fo.len() - 1,
                fo == face_offsets@,
                cv == corner_vertices@,
                ce == corner_edges@,
                e == edges@,
                fo.last() == cv.len(),
                ce.len() == cv.len(),
                forall|c: int| 0 <= c < ce.len() ==> 2 * (#[trigger] ce[c]) + 1 < e.len(),
                forall|g: int| 0 <= g < f ==> !#[trigger] face_problem(fo, cv, ce, e)(g),
                forall|j: int| start <= j < c ==> !#[trigger] corner_problem(fo, cv, ce, e, f as int)(j),
            decreases end - c,
        {
            let next = if c + 1 == end { start } else { c + 1 };
            let edge_index = corner_edges[c] as usize;
            assert(2 * ce[c as int] + 1 < e.len());
            assert(e.len() == edges.len());
            let ev0 = edges[edge_index * 2];
            let ev1 = edges[edge_index * 2 + 1];
            let cv0 = corner_vertices[c];
            let cv1 = corner_vertices[next];
            let connects = (ev0 == cv0 && ev1 == cv1) || (ev0 == cv1 && ev1 == cv0);
            if !connects {
                proof {
                    assert(next == next_corner(fo, f as int, c as int));
                    assert(corner_problem(fo, cv, ce, e, f as int)(c as int));
                    assert(is_first(corner_problem(fo, cv, ce, e, f as int), start as int, c as int));
                    lemma_first_in_some(start as int, end as int, corner_problem(fo, cv, ce, e, f as int), c as int);
                    assert(face_problem(fo, cv, ce, e)(f as int));
                    assert(is_first(face_problem(fo, cv, ce, e), 0, f as int));
                    lemma_first_in_some(0, fo.len() - 1, face_problem(fo, cv, ce, e), f as int);
                }
                return Err(TopolyxError::CornerEdgeMismatch { mesh, corner: c as u32 });
            }
            proof {
                assert(next == next_corner(fo, f as int, c as int));
            }
            c = c + 1;
        }
        proof {
            lemma_first_in_none(start as int, end as int, corner_problem(fo, cv, ce, e, f as int));
        }
        f = f + 1;
    }
    proof {
        lemma_first_in_none(0, fo.len() - 1, face_problem(fo, cv, ce, e));
    }
    Ok(())
}

/// In a non-decreasing sequence every entry is at most the last.
// ------------------------------------------------------------------------------------------
// Whole mesh
// ------------------------------------------------------------------------------------------

/// The error decoding descriptor `d`, if decoding fails.
pub open spec fn extract_error(d: DataDescriptor, bin: Seq<u8>) -> Option<TopolyxError> {
    match spec_extract(d, bin) {
        Err(e) => Some(e),
        Ok(_) => None,
    }
}

/// Checks on a mesh's decoded topology arrays, in order: edges, corner vertex indices, corner
/// edge indices, the empty-mesh rule, the `face_offsets` partition, corner/edge consistency.
pub open spec fn decoded_topology_error(
    mesh: usize,
    c: ElementCounts,
    e: Seq<u32>,
    cv: Seq<u32>,
    ce: Seq<u32>,
    fo: Seq<u32>,
) -> Option<TopolyxError> {
    or_else(
        edges_error(mesh, e, c.vertices),
        or_else(
            indices_error(mesh, "corner_vertices", cv, c.vertices),
            or_else(
                indices_error(mesh, "corner_edges", ce, c.edges),
                or_else(
                    empty_mesh_error(mesh, c, fo),
                    or_else(face_offsets_error(mesh, fo, c.corners), corner_edge_error(mesh, fo, cv, ce, e)),
                ),
            ),
        ),
    )
}

/// Decoding the four index arrays of a mesh's topology (in order), then checking their values.
pub open spec fn topology_values_error(mesh: usize, m: Mesh, bin: Seq<u8>) -> Option<TopolyxError> {
    let t = m.topology;
    match spec_extract(t.edges, bin) {
        Err(x) => Some(x),
        Ok(ev) => match spec_extract(t.corner_vertices, bin) {
            Err(x) => Some(x),
            Ok(cvv) => match spec_extract(t.corner_edges, bin) {
                Err(x) => Some(x),
                Ok(cev) => match spec_extract(t.face_offsets, bin) {
                    Err(x) => Some(x),
                    Ok(fov) => decoded_topology_error(
                        mesh,
                        m.element_counts,
                        u32_values(ev),
                        u32_values(cvv),
                        u32_values(cev),
                        u32_values(fov),
                    ),
                },
            },
        },
    }
}

/// Attribute `i`'s data fails to decode.
pub open spec fn attribute_extract_problem(attributes: Seq<Attribute>, bin: Seq<u8>) -> spec_fn(int) -> bool {
    |i: int| spec_extract(attributes[i].data, bin) is Err
}

/// The first attribute whose data fails to decode, and its error.
pub open spec fn attributes_extract_error(attributes: Seq<Attribute>, bin: Seq<u8>) -> Option<TopolyxError> {
    match first_in(0, attributes.len() as int, attribute_extract_problem(attributes, bin)) {
        Some(i) => extract_error(attributes[i].data, bin),
        None => None,
    }
}

/// All checks on mesh `mesh`, in order: topology shapes, attribute names, attribute roles,
/// element counts, decoding positions and every attribute, then the topology values.
pub open spec fn mesh_error(mesh: usize, m: Mesh, bin: Seq<u8>) -> Option<TopolyxError> {
    or_else(
        topology_shapes_error(mesh, m.topology),
        or_else(
            attribute_names_error(mesh, m.attributes@),
            or_else(
                attribute_semantics_error(mesh, m.attributes@),
                or_else(
                    element_counts_error(mesh, m),
                    or_else(
                        extract_error(m.topology.positions, bin),
                        or_else(attributes_extract_error(m.attributes@, bin), topology_values_error(mesh, m, bin)),
                    ),
                ),
            ),
        ),
    )
}

pub fn validate_mesh_topology_values(mesh_index: usize, mesh: &Mesh, bin: &[u8]) -> (r: Result<(), TopolyxError>)
    requires
        topology_shapes_error(mesh_index, mesh.topology) is None,
        element_counts_error(mesh_index, *mesh) is None,
    ensures
        r == to_result(topology_values_error(mesh_index, *mesh, bin@)),
{
    let counts = &mesh.element_counts;
    let t = &mesh.topology;
    proof {
        lemma_extract_len(t.edges, bin@);
        lemma_extract_len(t.corner_vertices, bin@);
        lemma_extract_len(t.corner_edges, bin@);
        lemma_extract_len(t.face_offsets, bin@);
    }

    let edges_data = t.edges.extract(bin)?;
    let edges = edges_data.as_u32().unwrap();

    let corner_vertices_data = t.corner_vertices.extract(bin)?;
    let corner_vertices = corner_vertices_data.as_u32().unwrap();

    let corner_edges_data = t.corner_edges.extract(bin)?;
    let corner_edges = corner_edges_data.as_u32().unwrap();

    let face_offsets_data = t.face_offsets.extract(bin)?;
    let face_offsets = face_offsets_data.as_u32().unwrap();

    assert(edges@.len() == 2 * counts.edges);
    assert(corner_vertices@.len() == counts.corners);
    assert(corner_edges@.len() == counts.corners);

    validate_edges(mesh_index, edges, counts.vertices)?;
    validate_indices(mesh_index, "corner_vertices", corner_vertices, counts.vertices)?;
    validate_indices(mesh_index, "corner_edges", corner_edges, counts.edges)?;
    validate_empty_mesh(mesh_index, counts, face_offsets)?;
    validate_face_offsets_structure(mesh_index, face_offsets, counts.corners)?;
    proof {
        lemma_first_in_props(0, corner_edges@.len() as int, entry_out_of_range(corner_edges@, counts.edges));
        assert forall|c: int| 0 <= c < corner_edges@.len() implies 2 * (#[trigger] corner_edges@[c]) + 1 < edges@.len() by {
            assert(!entry_out_of_range(corner_edges@, counts.edges)(c));
        }
    }
    validate_corner_edge_consistency(mesh_index, face_offsets, corner_vertices, corner_edges, edges)
}

pub fn validate_mesh(mesh_index: usize, mesh: &Mesh, bin: &[u8]) -> (r: Result<(), TopolyxError>)
    ensures
        r == to_result(mesh_error(mesh_index, *mesh, bin@)),
{
    validate_topology_shape(mesh_index, &mesh.topology)?;
    validate_attribute_names(mesh_index, &mesh.attributes)?;
    validate_attribute_semantics(mesh_index, &mesh.attributes)?;
    validate_element_counts(mesh_index, mesh)?;

    mesh.topology.positions.extract(bin)?;
    let attributes = &mesh.attributes;
    let mut i: usize = 0;
    while i < attributes.len()
        invariant
            i <= attributes@.len(),
            attributes == &mesh.attributes,
            topology_shapes_error(mesh_index, mesh.topology) is None,
            attribute_names_error(mesh_index, mesh.attributes@) is None,
            attribute_semantics_error(mesh_index, mesh.attributes@) is None,
            element_counts_error(mesh_index, *mesh) is None,
            extract_error(mesh.topology.positions, bin@) is None,
            forall|j: int| 0 <= j < i ==> !#[trigger] attribute_extract_problem(attributes@, bin@)(j),
        decreases attributes@.len() - i,
    {
        match attributes[i].data.extract(bin) {
            Err(e) => {
                proof {
                    assert(is_first(attribute_extract_problem(attributes@, bin@), 0, i as int));
                    lemma_first_in_some(0, attributes@.len() as int, attribute_extract_problem(attributes@, bin@), i as int);
                }
                return Err(e);
            },
            Ok(_) => {},
        }
        i = i + 1;
    }
    proof {
        lemma_first_in_none(0, attributes@.len() as int, attribute_extract_problem(attributes@, bin@));
    }

    validate_mesh_topology_values(mesh_index, mesh, bin)
}

// ------------------------------------------------------------------------------------------
// BIN tail padding and the whole file
// ------------------------------------------------------------------------------------------

/// One past the last BIN byte descriptor `d` refers to.
pub open spec fn descriptor_end(d: DataDescriptor) -> int {
    d.byte_offset + d.byte_length
}

/// The larger of two integers.
pub open spec fn max_int(a: int, b: int) -> int {
    if a >= b {
        a
    } else {
        b
    }
}

/// Every data descriptor of mesh `m`: the five topology arrays, then each attribute's data.
pub open spec fn spec_mesh_descriptors(m: Mesh) -> Seq<DataDescriptor> {
    seq![
        m.topology.positions,
        m.topology.edges,
        m.topology.corner_vertices,
        m.topology.corner_edges,
        m.topology.face_offsets,
    ] + m.attributes@.map_values(|a: Attribute| a.data)
}

/// The furthest end among descriptors `0..k` of `ds`.
pub open spec fn descriptors_used_end(ds: Seq<DataDescriptor>, k: int) -> int
    decreases k,
{
    if k <= 0 {
        0
    } else {
        max_int(descriptors_used_end(ds, k - 1), descriptor_end(ds[k - 1]))
    }
}

/// The furthest end among every array of mesh `m`.
pub open spec fn mesh_used_end(m: Mesh) -> int {
    descriptors_used_end(spec_mesh_descriptors(m), spec_mesh_descriptors(m).len() as int)
}

/// The furthest end among every array of meshes `0..k`.
pub open spec fn meshes_used_end(meshes: Seq<Mesh>, k: int) -> int
    decreases k,
{
    if k <= 0 {
        0
    } else {
        max_int(meshes_used_end(meshes, k - 1), mesh_used_end(meshes[k - 1]))
    }
}

/// The byte at `i` of `s` is not zero.
pub open spec fn nonzero(s: Seq<u8>) -> spec_fn(int) -> bool {
    |i: int| s[i] != 0u8
}

/// Every BIN byte after the last one any array refers to must be `0x00`: the first that is
/// not.
pub open spec fn tail_padding_error(meshes: Seq<Mesh>, bin: Seq<u8>) -> Option<TopolyxError> {
    match first_in(meshes_used_end(meshes, meshes.len() as int), bin.len() as int, nonzero(bin)) {
        Some(i) => Some(TopolyxError::InvalidPadding { chunk: "BIN", expected: 0u8, found: bin[i] }),
        None => None,
    }
}

/// Mesh `i` of `meshes` fails a check.
pub open spec fn mesh_problem(meshes: Seq<Mesh>, bin: Seq<u8>) -> spec_fn(int) -> bool {
    |i: int| mesh_error(i as usize, meshes[i], bin) is Some
}

/// The first mesh that fails a check, and its error.
pub open spec fn meshes_error(meshes: Seq<Mesh>, bin: Seq<u8>) -> Option<TopolyxError> {
    match first_in(0, meshes.len() as int, mesh_problem(meshes, bin)) {
        Some(i) => mesh_error(i as usize, meshes[i], bin),
        None => None,
    }
}

/// The whole validity pass, in order: coordinate system, object names, mesh names, object
/// mesh indices, object transforms (`singular[i]` says whether object `i`'s transform is
/// singular), every mesh, the BIN tail padding.
pub open spec fn spec_validate(f: TopolyxFile, bin: Seq<u8>, singular: Seq<bool>) -> Result<(), TopolyxError> {
    to_result(
        or_else(
            coordinate_system_error(f.coordinate_system),
            or_else(
                object_names_error(f.objects@),
                or_else(
                    mesh_names_error(f.meshes@),
                    or_else(
                        object_index_error(f.objects@, f.meshes@.len() as int),
                        or_else(
                            transform_error(singular),
                            or_else(meshes_error(f.meshes@, bin), tail_padding_error(f.meshes@, bin)),
                        ),
                    ),
                ),
            ),
        ),
    )
}

/// A descriptor that decodes refers only to bytes inside the BIN chunk.
proof fn lemma_extract_in_bounds(d: DataDescriptor, bin: Seq<u8>)
    requires
        spec_extract(d, bin) is Ok,
    ensures
        descriptor_end(d) <= bin.len(),
{
}

proof fn lemma_descriptors_in_bounds(ds: Seq<DataDescriptor>, bin_len: int, k: int)
    requires
        0 <= k <= ds.len(),
        0 <= bin_len,
        forall|i: int| 0 <= i < ds.len() ==> descriptor_end(#[trigger] ds[i]) <= bin_len,
    ensures
        0 <= descriptors_used_end(ds, k) <= bin_len,
    decreases k,
{
    if k > 0 {
        lemma_descriptors_in_bounds(ds, bin_len, k - 1);
        assert(descriptor_end(ds[k - 1]) <= bin_len);
    }
}

/// A mesh that passes its checks refers only to bytes inside the BIN chunk.
proof fn lemma_mesh_in_bounds(mesh: usize, m: Mesh, bin: Seq<u8>)
    requires
        mesh_error(mesh, m, bin) is None,
    ensures
        forall|i: int|
            0 <= i < spec_mesh_descriptors(m).len() ==> descriptor_end(#[trigger] spec_mesh_descriptors(m)[i])
                <= bin.len(),
        0 <= mesh_used_end(m) <= bin.len(),
{
    let ds = spec_mesh_descriptors(m);
    let t = m.topology;
    lemma_first_in_props(0, m.attributes@.len() as int, attribute_extract_problem(m.attributes@, bin));
    assert forall|i: int| 0 <= i < ds.len() implies descriptor_end(#[trigger] ds[i]) <= bin.len() by {
        if i < 5 {
            lemma_extract_in_bounds(t.positions, bin);
            assert(spec_extract(t.edges, bin) is Ok);
            lemma_extract_in_bounds(t.edges, bin);
            assert(spec_extract(t.corner_vertices, bin) is Ok);
            lemma_extract_in_bounds(t.corner_vertices, bin);
            assert(spec_extract(t.corner_edges, bin) is Ok);
            lemma_extract_in_bounds(t.corner_edges, bin);
            assert(spec_extract(t.face_offsets, bin) is Ok);
            lemma_extract_in_bounds(t.face_offsets, bin);
        } else {
            assert(!attribute_extract_problem(m.attributes@, bin)(i - 5));
            assert(ds[i] == m.attributes@[i - 5].data);
            lemma_extract_in_bounds(m.attributes@[i - 5].data, bin);
        }
    }
    lemma_descriptors_in_bounds(ds, bin.len() as int, ds.len() as int);
}

/// Every data descriptor of every mesh of `meshes` ends within `bin_len` bytes.
pub open spec fn descriptors_within(meshes: Seq<Mesh>, bin_len: int) -> bool {
    forall|i: int, j: int|
        0 <= i < meshes.len() && 0 <= j < spec_mesh_descriptors(meshes[i]).len() ==> descriptor_end(
            #[trigger] spec_mesh_descriptors(meshes[i])[j],
        ) <= bin_len
}

proof fn lemma_meshes_in_bounds(meshes: Seq<Mesh>, bin_len: int, k: int)
    requires
        0 <= k <= meshes.len(),
        0 <= bin_len,
        descriptors_within(meshes, bin_len),
    ensures
        0 <= meshes_used_end(meshes, k) <= bin_len,
    decreases k,
{
    if k > 0 {
        lemma_meshes_in_bounds(meshes, bin_len, k - 1);
        let ds = spec_mesh_descriptors(meshes[k - 1]);
        assert forall|j: int| 0 <= j < ds.len() implies descriptor_end(#[trigger] ds[j]) <= bin_len by {
            assert(descriptor_end(spec_mesh_descriptors(meshes[k - 1])[j]) <= bin_len);
        }
        lemma_descriptors_in_bounds(ds, bin_len, ds.len() as int);
    }
}

fn descriptor_end_exec(d: &DataDescriptor, bin_len: usize) -> (r: usize)
    requires
        descriptor_end(*d) <= bin_len,
    ensures
        r == descriptor_end(*d),
{
    d.byte_offset as usize + d.byte_length as usize
}

/// Every data descriptor of `mesh`: the five topology arrays, then each attribute's data.
pub fn mesh_descriptors(mesh: &Mesh) -> (r: Vec<DataDescriptor>)
    ensures
        r@ == spec_mesh_descriptors(*mesh),
{
    let t = &mesh.topology;
    let mut out: Vec<DataDescriptor> = vec![t.positions, t.edges, t.corner_vertices, t.corner_edges, t.face_offsets];
    let ghost head = seq![t.positions, t.edges, t.corner_vertices, t.corner_edges, t.face_offsets];
    assert(out@ == head);
    let mut i: usize = 0;
    while i < mesh.attributes.len()
        invariant
            i <= mesh.attributes@.len(),
            head == seq![
                mesh.topology.positions,
                mesh.topology.edges,
                mesh.topology.corner_vertices,
                mesh.topology.corner_edges,
                mesh.topology.face_offsets,
            ],
            out@ == head + mesh.attributes@.take(i as int).map_values(|a: Attribute| a.data),
        decreases mesh.attributes@.len() - i,
    {
        out.push(mesh.attributes[i].data);
        assert(mesh.attributes@.take(i + 1).map_values(|a: Attribute| a.data) == mesh.attributes@.take(
            i as int,
        ).map_values(|a: Attribute| a.data).push(mesh.attributes@[i as int].data));
        i = i + 1;
    }
    assert(mesh.attributes@.take(mesh.attributes@.len() as int) == mesh.attributes@);
    out
}

/// Checks that every BIN byte after the last byte any array refers to is `0x00` (bytes in gaps
/// between arrays are not checked).
pub fn validate_bin_tail_padding(meshes: &Vec<Mesh>, bin: &[u8]) -> (r: Result<(), TopolyxError>)
    requires
        descriptors_within(meshes@, bin@.len() as int),
    ensures
        r == to_result(tail_padding_error(meshes@, bin@)),
{
    let mut used_end: usize = 0;
    let mut k: usize = 0;
    while k < meshes.len()
        invariant
            k <= meshes@.len(),
            descriptors_within(meshes@, bin@.len() as int),
            used_end == meshes_used_end(meshes@, k as int),
        decreases meshes@.len() - k,
    {
        let mesh = &meshes[k];
        let descriptors = mesh_descriptors(mesh);
        assert forall|i: int| 0 <= i < descriptors@.len() implies descriptor_end(#[trigger] descriptors@[i])
            <= bin@.len() by {
            assert(descriptor_end(spec_mesh_descriptors(meshes@[k as int])[i]) <= bin@.len());
        }
        let mut mesh_end: usize = 0;
        let mut j: usize = 0;
        while j < descriptors.len()
            invariant
                j <= descriptors@.len(),
                forall|i: int|
                    0 <= i < descriptors@.len() ==> descriptor_end(#[trigger] descriptors@[i]) <= bin@.len(),
                mesh_end == descriptors_used_end(descriptors@, j as int),
            decreases descriptors@.len() - j,
        {
            let end = descriptor_end_exec(&descriptors[j], bin.len());
            if end > mesh_end {
                mesh_end = end;
            }
            j = j + 1;
        }
        if mesh_end > used_end {
            used_end = mesh_end;
        }
        k = k + 1;
    }

    let mut i = used_end;
    proof {
        lemma_meshes_in_bounds(meshes@, bin@.len() as int, meshes@.len() as int);
    }
    while i < bin.len()
        invariant
            used_end <= i <= bin@.len(),
            used_end == meshes_used_end(meshes@, meshes@.len() as int),
            forall|j: int| used_end <= j < i ==> !#[trigger] nonzero(bin@)(j),
        decreases bin@.len() - i,
    {
        let byte = bin[i];
        if byte != 0 {
            proof {
                assert(is_first(nonzero(bin@), used_end as int, i as int));
                lemma_first_in_some(used_end as int, bin@.len() as int, nonzero(bin@), i as int);
            }
            return Err(TopolyxError::InvalidPadding { chunk: "BIN", expected: 0, found: byte });
        }
        i = i + 1;
    }
    proof {
        lemma_first_in_none(used_end as int, bin@.len() as int, nonzero(bin@));
    }
    Ok(())
}

impl TopolyxFile {
    /// Runs the full validity pass over this file.
    ///
    /// `bin` is the BIN chunk returned alongside this file. `transform_is_singular` holds one
    /// flag per object: `transform_is_singular[i]` says whether the 3x3 linear part of object
    /// `i`'s transform has a zero determinant (in `f32` arithmetic); validation reports the
    /// first object flagged.
    pub fn validate(&self, bin: &[u8], transform_is_singular: &[bool]) -> (r: Result<(), TopolyxError>)
        requires
            transform_is_singular@.len() == self.objects@.len(),
        ensures
            r == spec_validate(*self, bin@, transform_is_singular@),
    {
        validate_coordinate_system(&self.coordinate_system)?;
        validate_object_names(&self.objects)?;
        validate_mesh_names(&self.meshes)?;
        validate_object_mesh_indices(&self.objects, self.meshes.len())?;
        validate_transforms(transform_is_singular)?;

        let meshes = &self.meshes;
        let mut i: usize = 0;
        while i < meshes.len()
            invariant
                i <= meshes@.len(),
                meshes == &self.meshes,
                coordinate_system_error(self.coordinate_system) is None,
                object_names_error(self.objects@) is None,
                mesh_names_error(self.meshes@) is None,
                object_index_error(self.objects@, self.meshes@.len() as int) is None,
                transform_error(transform_is_singular@) is None,
                forall|j: int| 0 <= j < i ==> !#[trigger] mesh_problem(meshes@, bin@)(j),
            decreases meshes@.len() - i,
        {
            match validate_mesh(i, &meshes[i], bin) {
                Err(e) => {
                    proof {
                        assert(mesh_problem(meshes@, bin@)(i as int));
                        assert(is_first(mesh_problem(meshes@, bin@), 0, i as int));
                        lemma_first_in_some(0, meshes@.len() as int, mesh_problem(meshes@, bin@), i as int);
                    }
                    return Err(e);
                },
                Ok(()) => {},
            }
            i = i + 1;
        }
        proof {
            lemma_first_in_none(0, meshes@.len() as int, mesh_problem(meshes@, bin@));
            assert forall|i: int, j: int|
                0 <= i < meshes@.len() && 0 <= j < spec_mesh_descriptors(meshes@[i]).len() implies descriptor_end(
                #[trigger] spec_mesh_descriptors(meshes@[i])[j],
            ) <= bin@.len() by {
                assert(!mesh_problem(meshes@, bin@)(i));
                lemma_mesh_in_bounds(i as usize, meshes@[i], bin@);
            }
        }

        validate_bin_tail_padding(meshes, bin)
    }
}

// ------------------------------------------------------------------------------------------
// What a valid file guarantees
// ------------------------------------------------------------------------------------------

/// Law: a mesh that passes its checks can be traversed face by face (its decoded face ranges
/// lie inside both corner arrays, so `Mesh::faces` and `FaceCorners::iter` meet their
/// preconditions and `Mesh::triangulate_fan_indices` reports no bad face), and every
/// corner's vertex index is in range for the decoded positions (so `Mesh::corner_positions`
/// succeeds).
#[verifier::spinoff_prover]
pub proof fn lemma_valid_mesh_is_usable(mesh: usize, m: Mesh, bin: Seq<u8>)
    requires
        mesh_error(mesh, m, bin) is None,
    ensures
        spec_faces(m, bin) is Ok,
        faces_sliceable(m, bin),
        first_bad_face(
            spec_faces(m, bin)->Ok_0.0,
            spec_faces(m, bin)->Ok_0.1.len() as int,
            spec_faces(m, bin)->Ok_0.2.len() as int,
        ) is None,
        spec_f32_flat(m.topology.positions, bin, "topology.positions", 3) is Ok,
        spec_u32_flat(m.topology.corner_vertices, bin, "topology.corner_vertices", 1) is Ok,
        first_in(
            0,
            spec_u32_flat(m.topology.corner_vertices, bin, "topology.corner_vertices", 1)->Ok_0.len() as int,
            index_out_of_range(
                (spec_f32_flat(m.topology.positions, bin, "topology.positions", 3)->Ok_0.len() / 3) as int,
                spec_u32_flat(m.topology.corner_vertices, bin, "topology.corner_vertices", 1)->Ok_0,
            ),
        ) is None,
{
    let t = m.topology;
    let c = m.element_counts;
    lemma_extract_len(t.positions, bin);
    lemma_extract_len(t.edges, bin);
    lemma_extract_len(t.corner_vertices, bin);
    lemma_extract_len(t.corner_edges, bin);
    lemma_extract_len(t.face_offsets, bin);
    let p = f32_bits(spec_extract(t.positions, bin)->Ok_0);
    let e = u32_values(spec_extract(t.edges, bin)->Ok_0);
    let cv = u32_values(spec_extract(t.corner_vertices, bin)->Ok_0);
    let ce = u32_values(spec_extract(t.corner_edges, bin)->Ok_0);
    let fo = u32_values(spec_extract(t.face_offsets, bin)->Ok_0);
    assert(p.len() == 3 * c.vertices);
    assert(cv.len() == c.corners);
    assert(ce.len() == c.corners);
    assert(is_corner_partition(fo, c.corners));
    lemma_offsets_bounded(fo);
    assert forall|f: int| 0 <= f < face_count(fo) implies {
        &&& #[trigger] fo[f] <= fo[f + 1]
        &&& fo[f + 1] <= cv.len()
        &&& fo[f + 1] <= ce.len()
    } by {
        assert(fo[f + 1] <= fo.last());
    }
    assert(face_ranges_ok(fo, cv.len() as int, ce.len() as int));
    assert forall|f: int| 0 <= f < face_count(fo) implies !#[trigger] face_range_bad(
        fo,
        cv.len() as int,
        ce.len() as int,
    )(f) by {
        assert(fo[f] <= fo[f + 1]);
    }
    lemma_first_in_none(0, face_count(fo), face_range_bad(fo, cv.len() as int, ce.len() as int));
    lemma_first_in_props(0, cv.len() as int, entry_out_of_range(cv, c.vertices));
    assert forall|k: int| 0 <= k < cv.len() implies !#[trigger] index_out_of_range((p.len() / 3) as int, cv)(k) by {
        assert(!entry_out_of_range(cv, c.vertices)(k));
    }
    lemma_first_in_none(0, cv.len() as int, index_out_of_range((p.len() / 3) as int, cv));
}

/// Law: in a mesh that passes its checks, the fan index buffers index their domains: every
/// corner index of `triangulate_fan_corner_indices` is below `element_counts.corners` and
/// every face index of `triangulate_fan_face_indices` is below `element_counts.faces`, while
/// every attribute holds exactly one element per element of its domain. So a CORNER-domain
/// attribute can be read at any corner index, and a FACE-domain attribute at any face index.
#[verifier::spinoff_prover]
pub proof fn lemma_valid_mesh_index_buffers_fit_domains(mesh: usize, m: Mesh, bin: Seq<u8>)
    requires
        mesh_error(mesh, m, bin) is None,
    ensures
        spec_face_offsets(m, bin) is Ok,
        ({
            let fo = spec_face_offsets(m, bin)->Ok_0;
            &&& forall|k: int|
                0 <= k < mesh_fan_corners(fo, face_count(fo)).len() ==> #[trigger] mesh_fan_corners(
                    fo,
                    face_count(fo),
                )[k] < m.element_counts.corners
            &&& forall|t: int|
                0 <= t < mesh_fan_faces(fo, face_count(fo)).len() ==> #[trigger] mesh_fan_faces(fo, face_count(fo))[t]
                    < m.element_counts.faces
        }),
        forall|i: int|
            0 <= i < m.attributes@.len() ==> (#[trigger] m.attributes@[i]).data.element_count == spec_domain_count(
                m.attributes@[i].domain,
                m.element_counts,
            ),
{
    let c = m.element_counts;
    lemma_valid_mesh_is_usable(mesh, m, bin);
    let (fo, cv) = lemma_valid_mesh_corner_arrays(mesh, m, bin);
    lemma_fan_buffers_in_range(fo, cv, c.corners, c.faces);
    assert(element_counts_error(mesh, m) is None);
    lemma_first_in_props(0, m.attributes@.len() as int, attribute_count_problem(m.attributes@, c));
    assert forall|i: int| 0 <= i < m.attributes@.len() implies (#[trigger] m.attributes@[i]).data.element_count
        == spec_domain_count(m.attributes@[i].domain, c) by {
        assert(!attribute_count_problem(m.attributes@, c)(i));
    }
}

/// The decoded `face_offsets` and `corner_vertices` of a mesh that passes its checks: every
/// face range lies inside `corner_vertices`, which holds one entry per corner, and there are at
/// most `element_counts.faces` faces.
#[verifier::spinoff_prover]
#[verifier::rlimit(40)]
#[verifier::spinoff_prover]
proof fn lemma_valid_mesh_corner_arrays(mesh: usize, m: Mesh, bin: Seq<u8>) -> (r: (Seq<u32>, Seq<u32>))
    requires
        mesh_error(mesh, m, bin) is None,
    ensures
        spec_face_offsets(m, bin) == Ok::<Seq<u32>, TopolyxError>(r.0),
        spec_u32_flat(m.topology.corner_vertices, bin, "topology.corner_vertices", 1) == Ok::<Seq<u32>, TopolyxError>(r.1),
        faces_in(r.0, r.1.len() as int),
        r.1.len() == m.element_counts.corners,
        r.0.len() <= u32::MAX,
        face_count(r.0) <= m.element_counts.faces,
{
    lemma_valid_mesh_is_usable(mesh, m, bin);
    let t = m.topology;
    let c = m.element_counts;
    lemma_extract_len(t.corner_vertices, bin);
    lemma_extract_len(t.face_offsets, bin);
    assert(element_counts_error(mesh, m) is None);
    assert(topology_shapes_error(mesh, t) is None);
    let cv = spec_u32_flat(t.corner_vertices, bin, "topology.corner_vertices", 1)->Ok_0;
    let fo = spec_face_offsets(m, bin)->Ok_0;
    let ce = spec_u32_flat(t.corner_edges, bin, "topology.corner_edges", 1)->Ok_0;
    assert(face_ranges_ok(fo, cv.len() as int, ce.len() as int));
    assert forall|g: int| 0 <= g < face_count(fo) implies #[trigger] fo[g] <= fo[g + 1] && fo[g + 1] <= cv.len() by {
    }
    (fo, cv)
}

/// The fan index buffers over face ranges inside a corner array of `corners` entries, with at
/// most `faces` faces, name only corners below `corners` and faces below `faces`.
proof fn lemma_fan_buffers_in_range(fo: Seq<u32>, cv: Seq<u32>, corners: u32, faces: u32)
    requires
        faces_in(fo, cv.len() as int),
        cv.len() == corners,
        fo.len() <= u32::MAX,
        face_count(fo) <= faces,
    ensures
        forall|k: int|
            0 <= k < mesh_fan_corners(fo, face_count(fo)).len() ==> #[trigger] mesh_fan_corners(fo, face_count(fo))[k]
                < corners,
        forall|t: int|
            0 <= t < mesh_fan_faces(fo, face_count(fo)).len() ==> #[trigger] mesh_fan_faces(fo, face_count(fo))[t]
                < faces,
{
    lemma_corner_fan_resolves_to_vertex_fan(fo, cv);
    lemma_face_indices_parallel_corner_indices(fo);
}

/// Law: in a mesh that passes its checks, every face has at least 3 corners, and the faces
/// cover the corners exactly once and in order: the faces' slices of `corner_vertices`, and of
/// `corner_edges`, concatenated in face order, give back the whole array.
#[verifier::spinoff_prover]
pub proof fn lemma_valid_mesh_faces_cover_corners(mesh: usize, m: Mesh, bin: Seq<u8>)
    requires
        mesh_error(mesh, m, bin) is None,
    ensures
        spec_faces(m, bin) is Ok,
        ({
            let (fo, cv, ce) = spec_faces(m, bin)->Ok_0;
            &&& forall|f: int| 0 <= f < face_count(fo) ==> #[trigger] fo[f] + 3 <= fo[f + 1]
            &&& faces_concat(fo, cv, face_count(fo)) == cv
            &&& faces_concat(fo, ce, face_count(fo)) == ce
        }),
{
    lemma_valid_mesh_is_usable(mesh, m, bin);
    let t = m.topology;
    let c = m.element_counts;
    lemma_extract_len(t.corner_vertices, bin);
    lemma_extract_len(t.corner_edges, bin);
    assert(element_counts_error(mesh, m) is None);
    assert(topology_shapes_error(mesh, t) is None);
    let (fo, cv, ce) = spec_faces(m, bin)->Ok_0;
    assert(cv.len() == c.corners);
    assert(ce.len() == c.corners);
    assert(is_corner_partition(fo, c.corners));
    lemma_faces_cover_corners(fo, cv);
    lemma_faces_cover_corners(fo, ce);
}

/// Law: in a file that validates, every `MESH` object names an existing mesh: its `index` is
/// below the number of meshes.
#[verifier::spinoff_prover]
pub proof fn lemma_valid_file_mesh_objects_in_range(f: TopolyxFile, bin: Seq<u8>, singular: Seq<bool>)
    requires
        spec_validate(f, bin, singular) is Ok,
    ensures
        forall|i: int|
            0 <= i < f.objects@.len() && (#[trigger] f.objects@[i]).object_type@ == "MESH"@ ==> f.objects@[i].index
                < f.meshes@.len(),
{
    assert(object_index_error(f.objects@, f.meshes@.len() as int) is None);
    let bad = object_index_problem(f.objects@, f.meshes@.len() as int);
    lemma_first_in_props(0, f.objects@.len() as int, bad);
    assert forall|i: int|
        0 <= i < f.objects@.len() && (#[trigger] f.objects@[i]).object_type@ == "MESH"@ implies f.objects@[i].index
            < f.meshes@.len() by {
        assert(!bad(i));
    }
}

/// Law: in a file that validates, every attribute holds one element per element of its
/// domain: `POINT` per vertex, `EDGE` per edge, `FACE` per face, `CORNER` per face corner.
#[verifier::spinoff_prover]
pub proof fn lemma_valid_file_attribute_counts(f: TopolyxFile, bin: Seq<u8>, singular: Seq<bool>)
    requires
        spec_validate(f, bin, singular) is Ok,
    ensures
        forall|i: int, j: int|
            0 <= i < f.meshes@.len() && 0 <= j < f.meshes@[i].attributes@.len() ==> {
                let c = f.meshes@[i].element_counts;
                let a = #[trigger] f.meshes@[i].attributes@[j];
                &&& a.domain == Domain::Point ==> a.data.element_count == c.vertices
                &&& a.domain == Domain::Edge ==> a.data.element_count == c.edges
                &&& a.domain == Domain::Face ==> a.data.element_count == c.faces
                &&& a.domain == Domain::Corner ==> a.data.element_count == c.corners
            },
{
    lemma_valid_file_meshes_pass(f, bin, singular);
    assert forall|i: int, j: int|
        0 <= i < f.meshes@.len() && 0 <= j < f.meshes@[i].attributes@.len() implies {
            let c = f.meshes@[i].element_counts;
            let a = #[trigger] f.meshes@[i].attributes@[j];
            &&& a.domain == Domain::Point ==> a.data.element_count == c.vertices
            &&& a.domain == Domain::Edge ==> a.data.element_count == c.edges
            &&& a.domain == Domain::Face ==> a.data.element_count == c.faces
            &&& a.domain == Domain::Corner ==> a.data.element_count == c.corners
        } by {
        assert(mesh_error(i as usize, f.meshes@[i], bin) is None);
        lemma_valid_mesh_index_buffers_fit_domains(i as usize, f.meshes@[i], bin);
        assert(f.meshes@[i].attributes@[j].data.element_count == spec_domain_count(
            f.meshes@[i].attributes@[j].domain,
            f.meshes@[i].element_counts,
        ));
    }
}

/// Each corner's edge, in a mesh's decoded arrays (`fo` face offsets, `cv` corner vertices,
/// `ce` corner edges, `e` flat edge endpoints), has as its two endpoints the corner's vertex
/// and the vertex of the next corner of its face (the face's first corner after its last), in
/// either order.
pub open spec fn corner_edges_join_corners(fo: Seq<u32>, cv: Seq<u32>, ce: Seq<u32>, e: Seq<u32>) -> bool {
    forall|f: int, c: int|
        #![trigger fo[f], cv[c]]
        0 <= f < fo.len() - 1 && fo[f] <= c < fo[f + 1] ==> {
            let n = if c + 1 == fo[f + 1] {
                fo[f] as int
            } else {
                c + 1
            };
            ||| (e[2 * ce[c]] == cv[c] && e[2 * ce[c] + 1] == cv[n])
            ||| (e[2 * ce[c]] == cv[n] && e[2 * ce[c] + 1] == cv[c])
        }
}

#[verifier::spinoff_prover]
proof fn lemma_no_corner_edge_error_joins(mesh: usize, fo: Seq<u32>, cv: Seq<u32>, ce: Seq<u32>, e: Seq<u32>)
    requires
        corner_edge_error(mesh, fo, cv, ce, e) is None,
    ensures
        corner_edges_join_corners(fo, cv, ce, e),
{
    let bad_face = face_problem(fo, cv, ce, e);
    lemma_first_in_props(0, fo.len() - 1, bad_face);
    if let Some(g) = first_in(0, fo.len() - 1, bad_face) {
        assert(bad_face(g));
        assert(face_first_bad_corner(fo, cv, ce, e, g) is Some);
    }
    assert forall|f: int, c: int|
        #![trigger fo[f], cv[c]]
        0 <= f < fo.len() - 1 && fo[f] <= c < fo[f + 1] implies {
            let n = if c + 1 == fo[f + 1] {
                fo[f] as int
            } else {
                c + 1
            };
            ||| (e[2 * ce[c]] == cv[c] && e[2 * ce[c] + 1] == cv[n])
            ||| (e[2 * ce[c]] == cv[n] && e[2 * ce[c] + 1] == cv[c])
        } by {
        assert(!bad_face(f));
        let bad_corner = corner_problem(fo, cv, ce, e, f);
        lemma_first_in_props(fo[f] as int, fo[f + 1] as int, bad_corner);
        assert(!bad_corner(c));
    }
}

/// Law: in a mesh that passes its checks, every corner's edge joins that corner's vertex to the
/// next corner's vertex of the same face (wrapping from the last corner to the first).
#[verifier::spinoff_prover]
pub proof fn lemma_valid_mesh_corner_edges_join_corners(mesh: usize, m: Mesh, bin: Seq<u8>)
    requires
        mesh_error(mesh, m, bin) is None,
    ensures
        spec_extract(m.topology.edges, bin) is Ok,
        spec_extract(m.topology.corner_vertices, bin) is Ok,
        spec_extract(m.topology.corner_edges, bin) is Ok,
        spec_extract(m.topology.face_offsets, bin) is Ok,
        corner_edges_join_corners(
            u32_values(spec_extract(m.topology.face_offsets, bin)->Ok_0),
            u32_values(spec_extract(m.topology.corner_vertices, bin)->Ok_0),
            u32_values(spec_extract(m.topology.corner_edges, bin)->Ok_0),
            u32_values(spec_extract(m.topology.edges, bin)->Ok_0),
        ),
{
    let t = m.topology;
    assert(topology_values_error(mesh, m, bin) is None);
    let e = u32_values(spec_extract(t.edges, bin)->Ok_0);
    let cv = u32_values(spec_extract(t.corner_vertices, bin)->Ok_0);
    let ce = u32_values(spec_extract(t.corner_edges, bin)->Ok_0);
    let fo = u32_values(spec_extract(t.face_offsets, bin)->Ok_0);
    assert(decoded_topology_error(mesh, m.element_counts, e, cv, ce, fo) is None);
    assert(corner_edge_error(mesh, fo, cv, ce, e) is None);
    lemma_no_corner_edge_error_joins(mesh, fo, cv, ce, e);
}

/// Law: in a file that validates, every corner's edge joins that corner's vertex to the next
/// corner's vertex of the same face, in every mesh.
#[verifier::spinoff_prover]
pub proof fn lemma_valid_file_corner_edges_join_corners(f: TopolyxFile, bin: Seq<u8>, singular: Seq<bool>)
    requires
        spec_validate(f, bin, singular) is Ok,
    ensures
        forall|i: int|
            0 <= i < f.meshes@.len() ==> corner_edges_join_corners(
                u32_values(spec_extract((#[trigger] f.meshes@[i]).topology.face_offsets, bin)->Ok_0),
                u32_values(spec_extract(f.meshes@[i].topology.corner_vertices, bin)->Ok_0),
                u32_values(spec_extract(f.meshes@[i].topology.corner_edges, bin)->Ok_0),
                u32_values(spec_extract(f.meshes@[i].topology.edges, bin)->Ok_0),
            ),
{
    lemma_valid_file_meshes_pass(f, bin, singular);
    assert forall|i: int| 0 <= i < f.meshes@.len() implies corner_edges_join_corners(
        u32_values(spec_extract((#[trigger] f.meshes@[i]).topology.face_offsets, bin)->Ok_0),
        u32_values(spec_extract(f.meshes@[i].topology.corner_vertices, bin)->Ok_0),
        u32_values(spec_extract(f.meshes@[i].topology.corner_edges, bin)->Ok_0),
        u32_values(spec_extract(f.meshes@[i].topology.edges, bin)->Ok_0),
    ) by {
        assert(mesh_error(i as usize, f.meshes@[i], bin) is None);
        lemma_valid_mesh_corner_edges_join_corners(i as usize, f.meshes@[i], bin);
    }
}

/// Law: in a file that validates, the coordinate system is `+Z` up, `+Y` forward,
/// right-handed, counter-clockwise, with `meters_per_unit` a finite `f32` above zero (bit
/// pattern of a positive subnormal or normal number), and no object's transform is flagged
/// singular.
#[verifier::spinoff_prover]
pub proof fn lemma_valid_file_coordinate_system_and_transforms(f: TopolyxFile, bin: Seq<u8>, singular: Seq<bool>)
    requires
        spec_validate(f, bin, singular) is Ok,
    ensures
        f.coordinate_system.up_axis@ == "+Z"@,
        f.coordinate_system.forward_axis@ == "+Y"@,
        f.coordinate_system.handedness@ == "RIGHT"@,
        f.coordinate_system.winding@ == "CCW"@,
        0 < f.coordinate_system.meters_per_unit < 0x7F80_0000,
        forall|i: int| 0 <= i < singular.len() ==> !#[trigger] singular[i],
{
    assert(coordinate_system_error(f.coordinate_system) is None);
    assert(transform_error(singular) is None);
    lemma_first_in_props(0, singular.len() as int, flag_set(singular));
    assert forall|i: int| 0 <= i < singular.len() implies !#[trigger] singular[i] by {
        assert(!flag_set(singular)(i));
    }
}

/// Names of a list of items are non-empty and pairwise different.
proof fn lemma_no_name_problem(names: Seq<Seq<char>>)
    requires
        first_in(0, names.len() as int, name_problem(names)) is None,
    ensures
        forall|i: int| 0 <= i < names.len() ==> (#[trigger] names[i]).len() > 0,
        forall|i: int, j: int| 0 <= i < j < names.len() ==> #[trigger] names[i] != #[trigger] names[j],
{
    lemma_first_in_props(0, names.len() as int, name_problem(names));
    assert forall|i: int| 0 <= i < names.len() implies (#[trigger] names[i]).len() > 0 by {
        assert(!name_problem(names)(i));
    }
    assert forall|i: int, j: int| 0 <= i < j < names.len() implies #[trigger] names[i] != #[trigger] names[j] by {
        assert(!name_problem(names)(j));
    }
}

/// Law: in a file that validates, object names are non-empty and pairwise different, and so
/// are mesh names, and so are the attribute names within each mesh.
#[verifier::spinoff_prover]
pub proof fn lemma_valid_file_names_unique(f: TopolyxFile, bin: Seq<u8>, singular: Seq<bool>)
    requires
        spec_validate(f, bin, singular) is Ok,
    ensures
        forall|i: int| 0 <= i < f.objects@.len() ==> (#[trigger] f.objects@[i]).name@.len() > 0,
        forall|i: int, j: int|
            0 <= i < j < f.objects@.len() ==> (#[trigger] f.objects@[i]).name@ != (#[trigger] f.objects@[j]).name@,
        forall|i: int| 0 <= i < f.meshes@.len() ==> (#[trigger] f.meshes@[i]).name@.len() > 0,
        forall|i: int, j: int|
            0 <= i < j < f.meshes@.len() ==> (#[trigger] f.meshes@[i]).name@ != (#[trigger] f.meshes@[j]).name@,
        forall|m: int, i: int|
            0 <= m < f.meshes@.len() && 0 <= i < f.meshes@[m].attributes@.len() ==> (
            #[trigger] f.meshes@[m].attributes@[i]).name@.len() > 0,
        forall|m: int, i: int, j: int|
            0 <= m < f.meshes@.len() && 0 <= i < j < f.meshes@[m].attributes@.len() ==> (
            #[trigger] f.meshes@[m].attributes@[i]).name@ != (#[trigger] f.meshes@[m].attributes@[j]).name@,
{
    assert(object_names_error(f.objects@) is None);
    assert(mesh_names_error(f.meshes@) is None);
    let on = object_names(f.objects@);
    let mn = mesh_names(f.meshes@);
    lemma_no_name_problem(on);
    lemma_no_name_problem(mn);
    assert forall|i: int| 0 <= i < f.objects@.len() implies (#[trigger] f.objects@[i]).name@.len() > 0 by {
        assert(on[i] == f.objects@[i].name@);
    }
    assert forall|i: int, j: int| 0 <= i < j < f.objects@.len() implies (#[trigger] f.objects@[i]).name@ != (
    #[trigger] f.objects@[j]).name@ by {
        assert(on[i] == f.objects@[i].name@ && on[j] == f.objects@[j].name@);
    }
    assert forall|i: int| 0 <= i < f.meshes@.len() implies (#[trigger] f.meshes@[i]).name@.len() > 0 by {
        assert(mn[i] == f.meshes@[i].name@);
    }
    assert forall|i: int, j: int| 0 <= i < j < f.meshes@.len() implies (#[trigger] f.meshes@[i]).name@ != (
    #[trigger] f.meshes@[j]).name@ by {
        assert(mn[i] == f.meshes@[i].name@ && mn[j] == f.meshes@[j].name@);
    }
    lemma_valid_file_meshes_pass(f, bin, singular);
    assert forall|m: int, i: int|
        0 <= m < f.meshes@.len() && 0 <= i < f.meshes@[m].attributes@.len() implies (
        #[trigger] f.meshes@[m].attributes@[i]).name@.len() > 0 by {
        lemma_valid_mesh_attribute_names(m as usize, f.meshes@[m], bin);
    }
    assert forall|m: int, i: int, j: int|
        0 <= m < f.meshes@.len() && 0 <= i < j < f.meshes@[m].attributes@.len() implies (
        #[trigger] f.meshes@[m].attributes@[i]).name@ != (#[trigger] f.meshes@[m].attributes@[j]).name@ by {
        lemma_valid_mesh_attribute_names(m as usize, f.meshes@[m], bin);
    }
}

#[verifier::spinoff_prover]
proof fn lemma_valid_mesh_attribute_names(mesh: usize, m: Mesh, bin: Seq<u8>)
    requires
        mesh_error(mesh, m, bin) is None,
    ensures
        forall|i: int| 0 <= i < m.attributes@.len() ==> (#[trigger] m.attributes@[i]).name@.len() > 0,
        forall|i: int, j: int|
            0 <= i < j < m.attributes@.len() ==> (#[trigger] m.attributes@[i]).name@ != (#[trigger] m.attributes@[j]).name@,
{
    assert(attribute_names_error(mesh, m.attributes@) is None);
    let an = attribute_names(m.attributes@);
    lemma_no_name_problem(an);
    assert forall|i: int| 0 <= i < m.attributes@.len() implies (#[trigger] m.attributes@[i]).name@.len() > 0 by {
        assert(an[i] == m.attributes@[i].name@);
    }
    assert forall|i: int, j: int| 0 <= i < j < m.attributes@.len() implies (#[trigger] m.attributes@[i]).name@ != (
    #[trigger] m.attributes@[j]).name@ by {
        assert(an[i] == m.attributes@[i].name@ && an[j] == m.attributes@[j].name@);
    }
}

/// Law: in a mesh that passes its checks, the decoded topology is well formed: every edge
/// joins two different vertices below `vertices` and no two edges join the same pair (in
/// either order); every corner's vertex is below `vertices` and its edge below `edges`;
/// `face_offsets` starts at 0, ends at `corners`, and gives every face at least 3 corners.
#[verifier::spinoff_prover]
pub proof fn lemma_valid_mesh_topology_well_formed(mesh: usize, m: Mesh, bin: Seq<u8>)
    requires
        mesh_error(mesh, m, bin) is None,
    ensures
        spec_extract(m.topology.edges, bin) is Ok,
        spec_extract(m.topology.corner_vertices, bin) is Ok,
        spec_extract(m.topology.corner_edges, bin) is Ok,
        spec_extract(m.topology.face_offsets, bin) is Ok,
        ({
            let c = m.element_counts;
            let e = u32_values(spec_extract(m.topology.edges, bin)->Ok_0);
            let cv = u32_values(spec_extract(m.topology.corner_vertices, bin)->Ok_0);
            let ce = u32_values(spec_extract(m.topology.corner_edges, bin)->Ok_0);
            let fo = u32_values(spec_extract(m.topology.face_offsets, bin)->Ok_0);
            &&& e.len() == 2 * c.edges
            &&& forall|k: int|
                0 <= k < c.edges ==> #[trigger] e[2 * k] < c.vertices && e[2 * k + 1] < c.vertices && e[2 * k]
                    != e[2 * k + 1]
            &&& forall|j: int, k: int|
                0 <= j < k < c.edges ==> !(#[trigger] e[2 * j] == #[trigger] e[2 * k] && e[2 * j + 1] == e[2 * k + 1])
                    && !(e[2 * j] == e[2 * k + 1] && e[2 * j + 1] == e[2 * k])
            &&& cv.len() == c.corners
            &&& ce.len() == c.corners
            &&& forall|k: int| 0 <= k < c.corners ==> #[trigger] cv[k] < c.vertices
            &&& forall|k: int| 0 <= k < c.corners ==> #[trigger] ce[k] < c.edges
            &&& fo.len() > 0
            &&& fo[0] == 0
            &&& fo[fo.len() - 1] == c.corners
            &&& forall|k: int| 0 <= k < fo.len() - 1 ==> #[trigger] fo[k] + 3 <= fo[k + 1]
        }),
{
    let t = m.topology;
    let c = m.element_counts;
    assert(topology_shapes_error(mesh, t) is None);
    assert(element_counts_error(mesh, m) is None);
    assert(topology_values_error(mesh, m, bin) is None);
    lemma_extract_len(t.edges, bin);
    lemma_extract_len(t.corner_vertices, bin);
    lemma_extract_len(t.corner_edges, bin);
    lemma_extract_len(t.face_offsets, bin);
    let e = u32_values(spec_extract(t.edges, bin)->Ok_0);
    let cv = u32_values(spec_extract(t.corner_vertices, bin)->Ok_0);
    let ce = u32_values(spec_extract(t.corner_edges, bin)->Ok_0);
    let fo = u32_values(spec_extract(t.face_offsets, bin)->Ok_0);
    assert(decoded_topology_error(mesh, c, e, cv, ce, fo) is None);
    assert(e.len() == 2 * c.edges);
    assert(edges_error(mesh, e, c.vertices) is None);
    lemma_first_in_props(0, (e.len() / 2) as int, edge_problem(e, c.vertices));
    assert forall|k: int| 0 <= k < c.edges implies #[trigger] e[2 * k] < c.vertices && e[2 * k + 1] < c.vertices && e[2
        * k] != e[2 * k + 1] by {
        assert(!edge_problem(e, c.vertices)(k));
    }
    assert forall|j: int, k: int| 0 <= j < k < c.edges implies !(#[trigger] e[2 * j] == #[trigger] e[2 * k] && e[2 * j
        + 1] == e[2 * k + 1]) && !(e[2 * j] == e[2 * k + 1] && e[2 * j + 1] == e[2 * k]) by {
        assert(!edge_problem(e, c.vertices)(k));
        if same_edge(e, j, k) {
            assert(exists|i: int| 0 <= i < k && same_edge(e, i, k));
        }
    }
    assert(indices_error(mesh, "corner_vertices", cv, c.vertices) is None);
    assert(indices_error(mesh, "corner_edges", ce, c.edges) is None);
    lemma_first_in_props(0, cv.len() as int, entry_out_of_range(cv, c.vertices));
    lemma_first_in_props(0, ce.len() as int, entry_out_of_range(ce, c.edges));
    assert forall|k: int| 0 <= k < c.corners implies #[trigger] cv[k] < c.vertices by {
        assert(!entry_out_of_range(cv, c.vertices)(k));
    }
    assert forall|k: int| 0 <= k < c.corners implies #[trigger] ce[k] < c.edges by {
        assert(!entry_out_of_range(ce, c.edges)(k));
    }
    assert(face_offsets_error(mesh, fo, c.corners) is None);
    assert(is_corner_partition(fo, c.corners));
    assert(cv.len() == c.corners && ce.len() == c.corners);
}

/// Every array of every mesh of `meshes` ends at or before byte `x`.
pub open spec fn all_arrays_end_by(meshes: Seq<Mesh>, x: int) -> bool {
    forall|i: int|
        0 <= i < meshes.len() ==> {
            let t = (#[trigger] meshes[i]).topology;
            &&& t.positions.byte_offset + t.positions.byte_length <= x
            &&& t.edges.byte_offset + t.edges.byte_length <= x
            &&& t.corner_vertices.byte_offset + t.corner_vertices.byte_length <= x
            &&& t.corner_edges.byte_offset + t.corner_edges.byte_length <= x
            &&& t.face_offsets.byte_offset + t.face_offsets.byte_length <= x
            &&& forall|a: int|
                0 <= a < meshes[i].attributes@.len() ==> (#[trigger] meshes[i].attributes@[a]).data.byte_offset
                    + meshes[i].attributes@[a].data.byte_length <= x
        }
}

proof fn lemma_descriptors_end_by(ds: Seq<DataDescriptor>, k: int, x: int)
    requires
        0 <= k <= ds.len(),
        0 <= x,
        forall|i: int| 0 <= i < ds.len() ==> descriptor_end(#[trigger] ds[i]) <= x,
    ensures
        descriptors_used_end(ds, k) <= x,
    decreases k,
{
    if k > 0 {
        lemma_descriptors_end_by(ds, k - 1, x);
        assert(descriptor_end(ds[k - 1]) <= x);
    }
}

proof fn lemma_meshes_end_by(meshes: Seq<Mesh>, k: int, x: int)
    requires
        0 <= k <= meshes.len(),
        0 <= x,
        all_arrays_end_by(meshes, x),
    ensures
        meshes_used_end(meshes, k) <= x,
    decreases k,
{
    if k > 0 {
        lemma_meshes_end_by(meshes, k - 1, x);
        let m = meshes[k - 1];
        let ds = spec_mesh_descriptors(m);
        assert forall|i: int| 0 <= i < ds.len() implies descriptor_end(#[trigger] ds[i]) <= x by {
            assert(all_arrays_end_by(meshes, x) ==> {
                let t = meshes[k - 1].topology;
                t.positions.byte_offset + t.positions.byte_length <= x
            });
            if i >= 5 {
                assert(ds[i] == m.attributes@[i - 5].data);
                assert(m.attributes@[i - 5].data.byte_offset + m.attributes@[i - 5].data.byte_length <= x);
            }
        }
        lemma_descriptors_end_by(ds, ds.len() as int, x);
    }
}

/// Law: in a file that validates, every array of every mesh lies inside the BIN chunk, and
/// every BIN byte at or after the end of all arrays is `0x00`.
#[verifier::spinoff_prover]
pub proof fn lemma_valid_file_bin_tail_is_zero(f: TopolyxFile, bin: Seq<u8>, singular: Seq<bool>)
    requires
        spec_validate(f, bin, singular) is Ok,
    ensures
        all_arrays_end_by(f.meshes@, bin.len() as int),
        forall|x: int| 0 <= x < bin.len() && all_arrays_end_by(f.meshes@, x) ==> #[trigger] bin[x] == 0u8,
{
    let meshes = f.meshes@;
    lemma_valid_file_meshes_pass(f, bin, singular);
    assert forall|i: int| 0 <= i < meshes.len() implies {
        let t = (#[trigger] meshes[i]).topology;
        &&& t.positions.byte_offset + t.positions.byte_length <= bin.len()
        &&& t.edges.byte_offset + t.edges.byte_length <= bin.len()
        &&& t.corner_vertices.byte_offset + t.corner_vertices.byte_length <= bin.len()
        &&& t.corner_edges.byte_offset + t.corner_edges.byte_length <= bin.len()
        &&& t.face_offsets.byte_offset + t.face_offsets.byte_length <= bin.len()
        &&& forall|a: int|
            0 <= a < meshes[i].attributes@.len() ==> (#[trigger] meshes[i].attributes@[a]).data.byte_offset
                + meshes[i].attributes@[a].data.byte_length <= bin.len()
    } by {
        assert(mesh_error(i as usize, meshes[i], bin) is None);
        lemma_mesh_in_bounds(i as usize, meshes[i], bin);
        let ds = spec_mesh_descriptors(meshes[i]);
        assert(descriptor_end(ds[0]) <= bin.len());
        assert(descriptor_end(ds[1]) <= bin.len());
        assert(descriptor_end(ds[2]) <= bin.len());
        assert(descriptor_end(ds[3]) <= bin.len());
        assert(descriptor_end(ds[4]) <= bin.len());
        assert forall|a: int| 0 <= a < meshes[i].attributes@.len() implies (
        #[trigger] meshes[i].attributes@[a]).data.byte_offset + meshes[i].attributes@[a].data.byte_length
            <= bin.len() by {
            assert(ds[a + 5] == meshes[i].attributes@[a].data);
            assert(descriptor_end(ds[a + 5]) <= bin.len());
        }
    }
    assert(tail_padding_error(meshes, bin) is None);
    let u = meshes_used_end(meshes, meshes.len() as int);
    lemma_first_in_props(u, bin.len() as int, nonzero(bin));
    assert forall|x: int| 0 <= x < bin.len() && all_arrays_end_by(meshes, x) implies #[trigger] bin[x] == 0u8 by {
        lemma_meshes_end_by(meshes, meshes.len() as int, x);
        assert(!nonzero(bin)(x));
    }
}

/// Law: when the whole validity pass succeeds, every mesh of the file passes its checks, and
/// so (by `lemma_valid_mesh_is_usable`) can be traversed, triangulated and reindexed per
/// corner without error.
#[verifier::spinoff_prover]
pub proof fn lemma_valid_file_meshes_pass(f: TopolyxFile, bin: Seq<u8>, singular: Seq<bool>)
    requires
        spec_validate(f, bin, singular) is Ok,
    ensures
        forall|i: int| 0 <= i < f.meshes@.len() ==> #[trigger] mesh_error(i as usize, f.meshes@[i], bin) is None,
{
    lemma_first_in_props(0, f.meshes@.len() as int, mesh_problem(f.meshes@, bin));
    assert forall|i: int| 0 <= i < f.meshes@.len() implies #[trigger] mesh_error(i as usize, f.meshes@[i], bin) is None by {
        assert(!mesh_problem(f.meshes@, bin)(i));
    }
}

} // verus!
