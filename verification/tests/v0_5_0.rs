use topolyx::data::ComponentData;
use topolyx::error::TopolyxError;
use topolyx::file::{
    Attribute, ComponentType, CoordinateSystem, DataDescriptor, Domain, ElementCounts, Header, Mesh, Object,
    Semantic, Topology, TopolyxFile,
};
use topolyx::grouped::AttributeValues;
use topolyx::reader::parse_container;

// ---------------------------------------------------------------------------------------------
// Fixtures
// ---------------------------------------------------------------------------------------------

#[allow(dead_code)]
const DEFAULT_CUBE_JSON: &str = r#"{
    "header": { "format": "Topolyx", "version": "1.0" },
    "coordinate_system": {
        "up_axis": "+Z", "forward_axis": "+Y",
        "handedness": "RIGHT", "winding": "CCW",
        "meters_per_unit": 1.0
    },
    "objects": [
        { "name": "object1", "type": "MESH", "index": 0,
          "transform": [1,0,0,0, 0,1,0,0, 0,0,1,0, 0,0,0,1] }
    ],
    "meshes": [
        { "name": "mesh1",
          "element_counts": {"vertices":8,"edges":12,"faces":6,"corners":24},
          "topology": {
            "positions": {"byte_offset":0,"byte_length":96,"component_type":"F32","component_count":3,"element_count":8},
            "edges": {"byte_offset":96,"byte_length":96,"component_type":"U32","component_count":2,"element_count":12},
            "corner_vertices": {"byte_offset":192,"byte_length":96,"component_type":"U32","component_count":1,"element_count":24},
            "corner_edges": {"byte_offset":288,"byte_length":96,"component_type":"U32","component_count":1,"element_count":24},
            "face_offsets": {"byte_offset":384,"byte_length":28,"component_type":"U32","component_count":1,"element_count":7}
          },
          "attributes": [
            {"name":"sharp_face","domain":"FACE","semantic":"NONE","data":{"byte_offset":412,"byte_length":6,"component_type":"BOOL","component_count":1,"element_count":6}},
            {"name":"UVMap","domain":"CORNER","semantic":"NONE","data":{"byte_offset":420,"byte_length":192,"component_type":"F32","component_count":2,"element_count":24}},
            {"name":"custom_attribute","domain":"EDGE","semantic":"ROTATION","data":{"byte_offset":612,"byte_length":192,"component_type":"F32","component_count":4,"element_count":12}}
          ]
        }
    ]
}"#;

#[allow(dead_code)]
fn descriptor(
    byte_offset: u32,
    byte_length: u32,
    component_type: ComponentType,
    component_count: u32,
    element_count: u32,
) -> DataDescriptor {
    DataDescriptor { byte_offset, byte_length, component_type, component_count, element_count }
}

/// The IEEE-754 bit patterns of a column-major 4x4 transform.
#[allow(dead_code)]
fn transform_bits(m: [f32; 16]) -> [u32; 16] {
    m.map(f32::to_bits)
}

#[allow(dead_code)]
fn identity_object() -> Object {
    Object {
        name: "object1".to_string(),
        object_type: "MESH".to_string(),
        index: 0,
        transform: transform_bits([1.0, 0.0, 0.0, 0.0, 0.0, 1.0, 0.0, 0.0, 0.0, 0.0, 1.0, 0.0, 0.0, 0.0, 0.0, 1.0]),
    }
}

#[allow(dead_code)]
fn cube_mesh() -> Mesh {
    Mesh {
        name: "mesh1".to_string(),
        element_counts: ElementCounts { vertices: 8, edges: 12, faces: 6, corners: 24 },
        topology: Topology {
            positions: descriptor(0, 96, ComponentType::F32, 3, 8),
            edges: descriptor(96, 96, ComponentType::U32, 2, 12),
            corner_vertices: descriptor(192, 96, ComponentType::U32, 1, 24),
            corner_edges: descriptor(288, 96, ComponentType::U32, 1, 24),
            face_offsets: descriptor(384, 28, ComponentType::U32, 1, 7),
        },
        attributes: vec![
            Attribute {
                name: "sharp_face".to_string(),
                domain: Domain::Face,
                semantic: Semantic::Unassigned,
                data: descriptor(412, 6, ComponentType::Bool, 1, 6),
            },
            Attribute {
                name: "UVMap".to_string(),
                domain: Domain::Corner,
                semantic: Semantic::Unassigned,
                data: descriptor(420, 192, ComponentType::F32, 2, 24),
            },
            Attribute {
                name: "custom_attribute".to_string(),
                domain: Domain::Edge,
                semantic: Semantic::Rotation,
                data: descriptor(612, 192, ComponentType::F32, 4, 12),
            },
        ],
    }
}

/// The structure `DEFAULT_CUBE_JSON` describes.
#[allow(dead_code)]
fn cube_file() -> TopolyxFile {
    TopolyxFile {
        header: Header { format: "Topolyx".to_string(), version: "1.0".to_string() },
        coordinate_system: CoordinateSystem {
            up_axis: "+Z".to_string(),
            forward_axis: "+Y".to_string(),
            handedness: "RIGHT".to_string(),
            winding: "CCW".to_string(),
            meters_per_unit: 1.0f32.to_bits(),
        },
        objects: vec![identity_object()],
        meshes: vec![cube_mesh()],
    }
}

/// A mesh whose every element count is zero, with `face_offsets` one `U32` at byte 0.
#[allow(dead_code)]
fn empty_mesh_file() -> TopolyxFile {
    let mut file = cube_file();
    file.objects.clear();
    file.meshes = vec![Mesh {
        name: "empty_mesh".to_string(),
        element_counts: ElementCounts { vertices: 0, edges: 0, faces: 0, corners: 0 },
        topology: Topology {
            positions: descriptor(0, 0, ComponentType::F32, 3, 0),
            edges: descriptor(0, 0, ComponentType::U32, 2, 0),
            corner_vertices: descriptor(0, 0, ComponentType::U32, 1, 0),
            corner_edges: descriptor(0, 0, ComponentType::U32, 1, 0),
            face_offsets: descriptor(0, 4, ComponentType::U32, 1, 1),
        },
        attributes: vec![],
    }];
    file
}

/// BIN bytes matching the cube's layout, holding a topologically valid cube (804 bytes).
#[allow(dead_code)]
fn valid_cube_bin() -> Vec<u8> {
    let mut bin = vec![0u8; 804];
    let positions: [[f32; 3]; 8] = [
        [-1.0, -1.0, -1.0],
        [1.0, -1.0, -1.0],
        [1.0, 1.0, -1.0],
        [-1.0, 1.0, -1.0],
        [-1.0, -1.0, 1.0],
        [1.0, -1.0, 1.0],
        [1.0, 1.0, 1.0],
        [-1.0, 1.0, 1.0],
    ];
    write_u32_array(&mut bin, 0, positions.iter().flatten().map(|v| v.to_bits()));
    let edges: [[u32; 2]; 12] = [
        [0, 1], [1, 2], [2, 3], [3, 0], [4, 5], [5, 6], [6, 7], [7, 4], [0, 4], [1, 5], [2, 6], [3, 7],
    ];
    write_u32_array(&mut bin, 96, edges.iter().flatten().copied());
    let corner_vertices: [[u32; 4]; 6] =
        [[0, 1, 2, 3], [4, 5, 6, 7], [0, 1, 5, 4], [2, 3, 7, 6], [0, 3, 7, 4], [1, 2, 6, 5]];
    write_u32_array(&mut bin, 192, corner_vertices.iter().flatten().copied());
    let corner_edges: [[u32; 4]; 6] =
        [[0, 1, 2, 3], [4, 5, 6, 7], [0, 9, 4, 8], [2, 11, 6, 10], [3, 11, 7, 8], [1, 10, 5, 9]];
    write_u32_array(&mut bin, 288, corner_edges.iter().flatten().copied());
    let face_offsets: [u32; 7] = [0, 4, 8, 12, 16, 20, 24];
    write_u32_array(&mut bin, 384, face_offsets.iter().copied());
    bin
}

#[allow(dead_code)]
fn write_u32_array(bin: &mut [u8], offset: usize, values: impl Iterator<Item = u32>) {
    let mut cursor = offset;
    for v in values {
        bin[cursor..cursor + 4].copy_from_slice(&v.to_le_bytes());
        cursor += 4;
    }
}

/// Frames `json` and `bin` as a container, padding the chunks with `0x20` and `0x00`.
#[allow(dead_code)]
fn build_container(json: &str, bin: &[u8]) -> Vec<u8> {
    let mut json_bytes = json.as_bytes().to_vec();
    while json_bytes.len() % 4 != 0 {
        json_bytes.push(b' ');
    }
    let mut bin_bytes = bin.to_vec();
    while bin_bytes.len() % 4 != 0 {
        bin_bytes.push(0);
    }
    let total_length = 12 + 8 + json_bytes.len() + 8 + bin_bytes.len();
    let mut out = Vec::with_capacity(total_length);
    out.extend_from_slice(b"TLYX");
    out.extend_from_slice(&1u32.to_le_bytes());
    out.extend_from_slice(&(total_length as u32).to_le_bytes());
    out.extend_from_slice(&(json_bytes.len() as u32).to_le_bytes());
    out.extend_from_slice(b"JSON");
    out.extend_from_slice(&json_bytes);
    out.extend_from_slice(&(bin_bytes.len() as u32).to_le_bytes());
    out.extend_from_slice(b"BIN\0");
    out.extend_from_slice(&bin_bytes);
    out
}

/// Whether each object's transform has a singular 3x3 linear part, in `f32` arithmetic.
#[allow(dead_code)]
fn singular_flags(file: &TopolyxFile) -> Vec<bool> {
    file.objects
        .iter()
        .map(|o| {
            let t = o.transform.map(f32::from_bits);
            let (a, d, g) = (t[0], t[1], t[2]);
            let (b, e, h) = (t[4], t[5], t[6]);
            let (c, f, i) = (t[8], t[9], t[10]);
            a * (e * i - f * h) - b * (d * i - f * g) + c * (d * h - e * g) == 0.0
        })
        .collect()
}

/// The full validity pass over `file` and `bin`.
#[allow(dead_code)]
fn read_and_validate(file: &TopolyxFile, bin: &[u8]) -> Result<(), TopolyxError> {
    file.validate(bin, &singular_flags(file))
}

#[allow(dead_code)]
fn bits3(v: [f32; 3]) -> [u32; 3] {
    v.map(f32::to_bits)
}

/// The cube's structure together with the BIN chunk read back out of its container.
fn read_cube() -> (TopolyxFile, Vec<u8>) {
    let data = build_container(DEFAULT_CUBE_JSON, &valid_cube_bin());
    let (_, _, bin) = parse_container(&data).expect("container should parse");
    (cube_file(), bin.to_vec())
}

// ---------------------------------------------------------------------------------------------
// Mesh::triangulate_fan_corner_indices
// ---------------------------------------------------------------------------------------------

fn mesh_with_face_offsets(face_offsets: &[u32]) -> (Mesh, Vec<u8>) {
    let bin: Vec<u8> = face_offsets.iter().flat_map(|v| v.to_le_bytes()).collect();
    let empty = |component_type: ComponentType, component_count: u32| DataDescriptor {
        byte_offset: 0,
        byte_length: 0,
        component_type,
        component_count,
        element_count: 0,
    };
    let mesh = Mesh {
        name: "m".to_string(),
        element_counts: ElementCounts {
            vertices: 0,
            edges: 0,
            faces: (face_offsets.len() - 1) as u32,
            corners: *face_offsets.last().unwrap(),
        },
        topology: Topology {
            positions: empty(ComponentType::F32, 3),
            edges: empty(ComponentType::U32, 2),
            corner_vertices: empty(ComponentType::U32, 1),
            corner_edges: empty(ComponentType::U32, 1),
            face_offsets: DataDescriptor {
                byte_offset: 0,
                byte_length: bin.len() as u32,
                component_type: ComponentType::U32,
                component_count: 1,
                element_count: face_offsets.len() as u32,
            },
        },
        attributes: vec![],
    };
    (mesh, bin)
}

#[test]
fn triangulate_fan_corner_indices_uses_corner_indices_not_vertex_indices() {
    let (file, bin) = read_cube();
    let mesh = &file.meshes[0];

    let indices = mesh.triangulate_fan_corner_indices(&bin).unwrap();

    assert_eq!(indices.len(), 36);
    // Face 2 occupies corners [8, 12); corner_vertices[8..12] == [0, 1, 5, 4], so the
    // vertex-index fan would be [0, 1, 5, 0, 5, 4] here; the corner-index fan uses the corner
    // positions themselves.
    assert_eq!(&indices[12..18], &[8, 9, 10, 8, 10, 11]);
}

#[test]
fn triangulate_fan_corner_and_vertex_indices_describe_the_same_geometry() {
    let (file, bin) = read_cube();
    let mesh = &file.meshes[0];

    let vertex_indices = mesh.triangulate_fan_indices(&bin).unwrap();
    let corner_indices = mesh.triangulate_fan_corner_indices(&bin).unwrap();
    let positions = mesh.topology.positions(&bin).unwrap();
    let corner_positions = mesh.corner_positions(&bin).unwrap();

    // Same triangle count, and each pair of indices resolves to the same position.
    assert_eq!(vertex_indices.len(), corner_indices.len());
    for (&v, &c) in vertex_indices.iter().zip(&corner_indices) {
        assert_eq!(positions[v as usize], corner_positions[c as usize]);
    }
}

#[test]
fn triangulate_fan_corner_indices_safely_index_a_corner_domain_attribute() {
    let (file, bin) = read_cube();
    let mesh = &file.meshes[0];

    let corner_indices = mesh.triangulate_fan_corner_indices(&bin).unwrap();
    let uv = match mesh.attribute("UVMap").unwrap().values(&bin).unwrap() {
        AttributeValues::Unassigned(ComponentData::F32(v)) => v,
        other => panic!("expected AttributeValues::Unassigned(F32(_)), got {other:?}"),
    };
    let uvs: Vec<[u32; 2]> = uv.chunks_exact(2).map(|c| [c[0], c[1]]).collect();

    assert_eq!(uvs.len(), 24); // == corners, matches the corner-index domain
    for &c in &corner_indices {
        let _ = uvs[c as usize]; // in-bounds for every corner index; would panic otherwise
    }
}

#[test]
fn triangulate_fan_corner_indices_skips_degenerate_faces() {
    // Face 0 spans corners [0, 2): only 2 corners, degenerate, contributes no triangles.
    // Face 1 spans corners [2, 5): a valid triangle.
    let (mesh, bin) = mesh_with_face_offsets(&[0, 2, 5]);

    let indices = mesh.triangulate_fan_corner_indices(&bin).unwrap();

    assert_eq!(indices, vec![2, 3, 4]);
}

// ---------------------------------------------------------------------------------------------
// Mesh::triangulate_fan_face_indices
// ---------------------------------------------------------------------------------------------

#[test]
fn triangulate_fan_face_indices_maps_each_triangle_to_its_source_face() {
    let (file, bin) = read_cube();
    let mesh = &file.meshes[0];

    let face_indices = mesh.triangulate_fan_face_indices(&bin).unwrap();

    // 6 quad faces, 2 triangles each -> each face index repeated twice, in face order.
    assert_eq!(face_indices, vec![0, 0, 1, 1, 2, 2, 3, 3, 4, 4, 5, 5]);
}

#[test]
fn triangulate_fan_face_indices_lines_up_with_the_corner_index_buffer() {
    let (file, bin) = read_cube();
    let mesh = &file.meshes[0];

    let corner_indices = mesh.triangulate_fan_corner_indices(&bin).unwrap();
    let face_indices = mesh.triangulate_fan_face_indices(&bin).unwrap();

    // face_indices[i] corresponds to corner_indices[3*i..3*i+3].
    assert_eq!(face_indices.len() * 3, corner_indices.len());
}

#[test]
fn triangulate_fan_face_indices_skips_degenerate_faces() {
    // Face 0: corners [0, 2): degenerate, skipped, contributes no entries.
    // Face 1: corners [2, 5): one triangle.
    // Face 2: corners [5, 9): a quad, two triangles.
    let (mesh, bin) = mesh_with_face_offsets(&[0, 2, 5, 9]);

    let face_indices = mesh.triangulate_fan_face_indices(&bin).unwrap();

    assert_eq!(face_indices, vec![1, 2, 2]);
}

// ---------------------------------------------------------------------------------------------
// Further cases
// ---------------------------------------------------------------------------------------------

#[test]
fn corner_fan_of_a_pentagon_after_a_triangle() {
    let (mesh, bin) = mesh_with_face_offsets(&[0, 3, 8]);

    assert_eq!(mesh.triangulate_fan_corner_indices(&bin).unwrap(), vec![0, 1, 2, 3, 4, 5, 3, 5, 6, 3, 6, 7]);
    assert_eq!(mesh.triangulate_fan_face_indices(&bin).unwrap(), vec![0, 1, 1, 1]);
}

#[test]
fn decreasing_face_offsets_give_no_triangles() {
    let (mesh, bin) = mesh_with_face_offsets(&[0, 6, 2]);

    assert_eq!(mesh.triangulate_fan_corner_indices(&bin).unwrap(), vec![0, 1, 2, 0, 2, 3, 0, 3, 4, 0, 4, 5]);
    assert_eq!(mesh.triangulate_fan_face_indices(&bin).unwrap(), vec![0, 0, 0, 0]);
}

#[test]
fn fan_index_buffers_report_face_offsets_decoding_errors() {
    let (mut mesh, bin) = mesh_with_face_offsets(&[0, 3]);
    mesh.topology.face_offsets.component_count = 2;

    let expected = TopolyxError::UnexpectedComponentShape {
        field: "topology.face_offsets",
        expected_type: ComponentType::U32,
        expected_count: 1,
        found_type: ComponentType::U32,
        found_count: 2,
    };
    assert_eq!(mesh.triangulate_fan_corner_indices(&bin), Err(expected.clone()));
    assert_eq!(mesh.triangulate_fan_face_indices(&bin), Err(expected));
}

#[test]
fn corner_fan_resolves_to_the_vertex_fan_through_corner_vertices() {
    let (file, bin) = read_cube();
    let mesh = &file.meshes[0];

    let vertex_indices = mesh.triangulate_fan_indices(&bin).unwrap();
    let corner_indices = mesh.triangulate_fan_corner_indices(&bin).unwrap();
    let corner_vertices = mesh.topology.corner_vertices(&bin).unwrap();

    let resolved: Vec<u32> = corner_indices.iter().map(|&c| corner_vertices[c as usize]).collect();
    assert_eq!(resolved, vertex_indices);
}

#[test]
fn a_file_that_validates_can_be_traversed_triangulated_and_reindexed() {
    let (file, bin) = read_cube();
    assert_eq!(read_and_validate(&file, &bin), Ok(()));

    let mesh = &file.meshes[0];
    let faces = mesh.faces(&bin).unwrap();
    assert_eq!(faces.iter().len(), 6);
    assert_eq!(mesh.triangulate_fan_indices(&bin).unwrap().len(), 36);
    assert_eq!(mesh.corner_positions(&bin).unwrap().len(), 24);
    let corners = mesh.element_counts.corners;
    assert!(mesh.triangulate_fan_corner_indices(&bin).unwrap().iter().all(|&c| c < corners));
    let faces = mesh.element_counts.faces;
    assert!(mesh.triangulate_fan_face_indices(&bin).unwrap().iter().all(|&f| f < faces));
    let uv = mesh.attribute("UVMap").unwrap();
    assert_eq!((uv.domain, uv.data.element_count), (Domain::Corner, corners));
    let sharp_face = mesh.attribute("sharp_face").unwrap();
    assert_eq!((sharp_face.domain, sharp_face.data.element_count), (Domain::Face, faces));
}

#[test]
fn triangulate_fan_indices_reports_a_face_range_past_the_corner_arrays() {
    // Without validate(): face_offsets [0, 2, 5] over empty corner arrays.
    let (mesh, bin) = mesh_with_face_offsets(&[0, 2, 5]);

    let err = mesh.triangulate_fan_indices(&bin).unwrap_err();

    assert_eq!(err, TopolyxError::InvalidFaceRange { face: 0, start: 0, end: 2 });
}

#[test]
fn triangulate_fan_indices_reports_a_reversed_face_range() {
    let (file, bin) = read_cube();
    let mut bin = bin;
    // face_offsets[2] (byte 392) = 2: face 1 becomes [4, 2).
    bin[392..396].copy_from_slice(&2u32.to_le_bytes());

    let err = file.meshes[0].triangulate_fan_indices(&bin).unwrap_err();

    assert_eq!(err, TopolyxError::InvalidFaceRange { face: 1, start: 4, end: 2 });
}

#[test]
fn triangulate_fan_indices_of_empty_faces_is_empty() {
    let (mesh, bin) = mesh_with_face_offsets(&[0, 0, 0]);

    assert_eq!(mesh.triangulate_fan_indices(&bin), Ok(vec![]));
}
