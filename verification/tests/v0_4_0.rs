use topolyx::data::ComponentData;
use topolyx::error::TopolyxError;
use topolyx::file::{
    Attribute, ComponentType, CoordinateSystem, DataDescriptor, Domain, ElementCounts, Header, Mesh, Object,
    Semantic, Topology, TopolyxFile,
};
use topolyx::grouped::{group, AttributeValues};
use topolyx::reader::parse_container;

// ---------------------------------------------------------------------------------------------
// Fixtures
// ---------------------------------------------------------------------------------------------

#[allow(dead_code)]
const DEFAULT_CUBE_JSON: &str = r#"{
    "header": { "format": "Topolyx", "version": "1.0" },
    "coordinate_system": {
        "up_axis": "+Z", "forward_axis": "+Y",
        "handedness": "RIGHT", "winding": "CCW",
        "meters_per_unit": 1.0
    },
    "objects": [
        { "name": "object1", "type": "MESH", "index": 0,
          "transform": [1,0,0,0, 0,1,0,0, 0,0,1,0, 0,0,0,1] }
    ],
    "meshes": [
        { "name": "mesh1",
          "element_counts": {"vertices":8,"edges":12,"faces":6,"corners":24},
          "topology": {
            "positions": {"byte_offset":0,"byte_length":96,"component_type":"F32","component_count":3,"element_count":8},
            "edges": {"byte_offset":96,"byte_length":96,"component_type":"U32","component_count":2,"element_count":12},
            "corner_vertices": {"byte_offset":192,"byte_length":96,"component_type":"U32","component_count":1,"element_count":24},
            "corner_edges": {"byte_offset":288,"byte_length":96,"component_type":"U32","component_count":1,"element_count":24},
            "face_offsets": {"byte_offset":384,"byte_length":28,"component_type":"U32","component_count":1,"element_count":7}
          },
          "attributes": [
            {"name":"sharp_face","domain":"FACE","semantic":"NONE","data":{"byte_offset":412,"byte_length":6,"component_type":"BOOL","component_count":1,"element_count":6}},
            {"name":"UVMap","domain":"CORNER","semantic":"NONE","data":{"byte_offset":420,"byte_length":192,"component_type":"F32","component_count":2,"element_count":24}},
            {"name":"custom_attribute","domain":"EDGE","semantic":"ROTATION","data":{"byte_offset":612,"byte_length":192,"component_type":"F32","component_count":4,"element_count":12}}
          ]
        }
    ]
}"#;

#[allow(dead_code)]
fn descriptor(
    byte_offset: u32,
    byte_length: u32,
    component_type: ComponentType,
    component_count: u32,
    element_count: u32,
) -> DataDescriptor {
    DataDescriptor { byte_offset, byte_length, component_type, component_count, element_count }
}

/// The IEEE-754 bit patterns of a column-major 4x4 transform.
#[allow(dead_code)]
fn transform_bits(m: [f32; 16]) -> [u32; 16] {
    m.map(f32::to_bits)
}

#[allow(dead_code)]
fn identity_object() -> Object {
    Object {
        name: "object1".to_string(),
        object_type: "MESH".to_string(),
        index: 0,
        transform: transform_bits([1.0, 0.0, 0.0, 0.0, 0.0, 1.0, 0.0, 0.0, 0.0, 0.0, 1.0, 0.0, 0.0, 0.0, 0.0, 1.0]),
    }
}

#[allow(dead_code)]
fn cube_mesh() -> Mesh {
    Mesh {
        name: "mesh1".to_string(),
        element_counts: ElementCounts { vertices: 8, edges: 12, faces: 6, corners: 24 },
        topology: Topology {
            positions: descriptor(0, 96, ComponentType::F32, 3, 8),
            edges: descriptor(96, 96, ComponentType::U32, 2, 12),
            corner_vertices: descriptor(192, 96, ComponentType::U32, 1, 24),
            corner_edges: descriptor(288, 96, ComponentType::U32, 1, 24),
            face_offsets: descriptor(384, 28, ComponentType::U32, 1, 7),
        },
        attributes: vec![
            Attribute {
                name: "sharp_face".to_string(),
                domain: Domain::Face,
                semantic: Semantic::Unassigned,
                data: descriptor(412, 6, ComponentType::Bool, 1, 6),
            },
            Attribute {
                name: "UVMap".to_string(),
                domain: Domain::Corner,
                semantic: Semantic::Unassigned,
                data: descriptor(420, 192, ComponentType::F32, 2, 24),
            },
            Attribute {
                name: "custom_attribute".to_string(),
                domain: Domain::Edge,
                semantic: Semantic::Rotation,
                data: descriptor(612, 192, ComponentType::F32, 4, 12),
            },
        ],
    }
}

/// The structure `DEFAULT_CUBE_JSON` describes.
#[allow(dead_code)]
fn cube_file() -> TopolyxFile {
    TopolyxFile {
        header: Header { format: "Topolyx".to_string(), version: "1.0".to_string() },
        coordinate_system: CoordinateSystem {
            up_axis: "+Z".to_string(),
            forward_axis: "+Y".to_string(),
            handedness: "RIGHT".to_string(),
            winding: "CCW".to_string(),
            meters_per_unit: 1.0f32.to_bits(),
        },
        objects: vec![identity_object()],
        meshes: vec![cube_mesh()],
    }
}

/// A mesh whose every element count is zero, with `face_offsets` one `U32` at byte 0.
#[allow(dead_code)]
fn empty_mesh_file() -> TopolyxFile {
    let mut file = cube_file();
    file.objects.clear();
    file.meshes = vec![Mesh {
        name: "empty_mesh".to_string(),
        element_counts: ElementCounts { vertices: 0, edges: 0, faces: 0, corners: 0 },
        topology: Topology {
            positions: descriptor(0, 0, ComponentType::F32, 3, 0),
            edges: descriptor(0, 0, ComponentType::U32, 2, 0),
            corner_vertices: descriptor(0, 0, ComponentType::U32, 1, 0),
            corner_edges: descriptor(0, 0, ComponentType::U32, 1, 0),
            face_offsets: descriptor(0, 4, ComponentType::U32, 1, 1),
        },
        attributes: vec![],
    }];
    file
}

/// BIN bytes matching the cube's layout, holding a topologically valid cube (804 bytes).
#[allow(dead_code)]
fn valid_cube_bin() -> Vec<u8> {
    let mut bin = vec![0u8; 804];
    let positions: [[f32; 3]; 8] = [
        [-1.0, -1.0, -1.0],
        [1.0, -1.0, -1.0],
        [1.0, 1.0, -1.0],
        [-1.0, 1.0, -1.0],
        [-1.0, -1.0, 1.0],
        [1.0, -1.0, 1.0],
        [1.0, 1.0, 1.0],
        [-1.0, 1.0, 1.0],
    ];
    write_u32_array(&mut bin, 0, positions.iter().flatten().map(|v| v.to_bits()));
    let edges: [[u32; 2]; 12] = [
        [0, 1], [1, 2], [2, 3], [3, 0], [4, 5], [5, 6], [6, 7], [7, 4], [0, 4], [1, 5], [2, 6], [3, 7],
    ];
    write_u32_array(&mut bin, 96, edges.iter().flatten().copied());
    let corner_vertices: [[u32; 4]; 6] =
        [[0, 1, 2, 3], [4, 5, 6, 7], [0, 1, 5, 4], [2, 3, 7, 6], [0, 3, 7, 4], [1, 2, 6, 5]];
    write_u32_array(&mut bin, 192, corner_vertices.iter().flatten().copied());
    let corner_edges: [[u32; 4]; 6] =
        [[0, 1, 2, 3], [4, 5, 6, 7], [0, 9, 4, 8], [2, 11, 6, 10], [3, 11, 7, 8], [1, 10, 5, 9]];
    write_u32_array(&mut bin, 288, corner_edges.iter().flatten().copied());
    let face_offsets: [u32; 7] = [0, 4, 8, 12, 16, 20, 24];
    write_u32_array(&mut bin, 384, face_offsets.iter().copied());
    bin
}

#[allow(dead_code)]
fn write_u32_array(bin: &mut [u8], offset: usize, values: impl Iterator<Item = u32>) {
    let mut cursor = offset;
    for v in values {
        bin[cursor..cursor + 4].copy_from_slice(&v.to_le_bytes());
        cursor += 4;
    }
}

/// Frames `json` and `bin` as a container, padding the chunks with `0x20` and `0x00`.
#[allow(dead_code)]
fn build_container(json: &str, bin: &[u8]) -> Vec<u8> {
    let mut json_bytes = json.as_bytes().to_vec();
    while json_bytes.len() % 4 != 0 {
        json_bytes.push(b' ');
    }
    let mut bin_bytes = bin.to_vec();
    while bin_bytes.len() % 4 != 0 {
        bin_bytes.push(0);
    }
    let total_length = 12 + 8 + json_bytes.len() + 8 + bin_bytes.len();
    let mut out = Vec::with_capacity(total_length);
    out.extend_from_slice(b"TLYX");
    out.extend_from_slice(&1u32.to_le_bytes());
    out.extend_from_slice(&(total_length as u32).to_le_bytes());
    out.extend_from_slice(&(json_bytes.len() as u32).to_le_bytes());
    out.extend_from_slice(b"JSON");
    out.extend_from_slice(&json_bytes);
    out.extend_from_slice(&(bin_bytes.len() as u32).to_le_bytes());
    out.extend_from_slice(b"BIN\0");
    out.extend_from_slice(&bin_bytes);
    out
}

/// Whether each object's transform has a singular 3x3 linear part, in `f32` arithmetic.
#[allow(dead_code)]
fn singular_flags(file: &TopolyxFile) -> Vec<bool> {
    file.objects
        .iter()
        .map(|o| {
            let t = o.transform.map(f32::from_bits);
            let (a, d, g) = (t[0], t[1], t[2]);
            let (b, e, h) = (t[4], t[5], t[6]);
            let (c, f, i) = (t[8], t[9], t[10]);
            a * (e * i - f * h) - b * (d * i - f * g) + c * (d * h - e * g) == 0.0
        })
        .collect()
}

/// The full validity pass over `file` and `bin`.
#[allow(dead_code)]
fn read_and_validate(file: &TopolyxFile, bin: &[u8]) -> Result<(), TopolyxError> {
    file.validate(bin, &singular_flags(file))
}

#[allow(dead_code)]
fn bits3(v: [f32; 3]) -> [u32; 3] {
    v.map(f32::to_bits)
}

/// The cube's structure together with the BIN chunk read back out of its container, without
/// running `validate()`.
fn parse_cube() -> (TopolyxFile, Vec<u8>) {
    let data = build_container(DEFAULT_CUBE_JSON, &valid_cube_bin());
    let (_, _, bin) = parse_container(&data).expect("container should parse");
    (cube_file(), bin.to_vec())
}

// ---------------------------------------------------------------------------------------------
// Semantic-aware grouping
// ---------------------------------------------------------------------------------------------

#[test]
fn topology_positions_groups_into_vec3() {
    let (file, bin) = parse_cube();

    let positions = file.meshes[0].topology.positions(&bin).unwrap();

    assert_eq!(
        positions,
        vec![
            bits3([-1.0, -1.0, -1.0]),
            bits3([1.0, -1.0, -1.0]),
            bits3([1.0, 1.0, -1.0]),
            bits3([-1.0, 1.0, -1.0]),
            bits3([-1.0, -1.0, 1.0]),
            bits3([1.0, -1.0, 1.0]),
            bits3([1.0, 1.0, 1.0]),
            bits3([-1.0, 1.0, 1.0]),
        ]
    );
}

#[test]
fn topology_edges_groups_into_pairs() {
    let (file, bin) = parse_cube();

    let edges = file.meshes[0].topology.edges(&bin).unwrap();

    assert_eq!(
        edges,
        vec![[0, 1], [1, 2], [2, 3], [3, 0], [4, 5], [5, 6], [6, 7], [7, 4], [0, 4], [1, 5], [2, 6], [3, 7]]
    );
}

#[test]
fn topology_scalar_fields_stay_flat() {
    let (file, bin) = parse_cube();
    let topology = &file.meshes[0].topology;

    let corner_vertices = topology.corner_vertices(&bin).unwrap();
    let corner_edges = topology.corner_edges(&bin).unwrap();
    let face_offsets = topology.face_offsets(&bin).unwrap();

    assert_eq!(corner_vertices, vec![0, 1, 2, 3, 4, 5, 6, 7, 0, 1, 5, 4, 2, 3, 7, 6, 0, 3, 7, 4, 1, 2, 6, 5]);
    assert_eq!(corner_edges, vec![0, 1, 2, 3, 4, 5, 6, 7, 0, 9, 4, 8, 2, 11, 6, 10, 3, 11, 7, 8, 1, 10, 5, 9]);
    assert_eq!(face_offsets, vec![0, 4, 8, 12, 16, 20, 24]);
}

#[test]
fn attribute_values_dispatches_rotation_semantic() {
    let (file, bin) = parse_cube();
    let attribute = file.meshes[0].attribute("custom_attribute").unwrap();

    let values = attribute.values(&bin).unwrap();

    match values {
        AttributeValues::Rotation(v) => assert_eq!(v.len(), 12),
        other => panic!("expected AttributeValues::Rotation, got {other:?}"),
    }
}

#[test]
fn attribute_values_leaves_none_semantic_ungrouped() {
    let (file, bin) = parse_cube();
    let attribute = file.meshes[0].attribute("UVMap").unwrap();

    let values = attribute.values(&bin).unwrap();

    match values {
        AttributeValues::Unassigned(ComponentData::F32(v)) => assert_eq!(v.len(), 48), // 2 * 24
        other => panic!("expected AttributeValues::Unassigned(F32(_)), got {other:?}"),
    }
}

#[test]
fn shape_mismatch_is_reported_without_calling_validate() {
    let (mut file, bin) = parse_cube();
    file.meshes[0].topology.positions.component_count = 4;

    let err = file.meshes[0].topology.positions(&bin).unwrap_err();

    assert!(matches!(
        err,
        TopolyxError::UnexpectedComponentShape {
            field: "topology.positions",
            expected_type: ComponentType::F32,
            expected_count: 3,
            found_type: ComponentType::F32,
            found_count: 4,
        }
    ));
}

#[test]
fn mesh_attribute_lookup_helpers() {
    let (file, bin) = parse_cube();
    let mesh = &file.meshes[0];
    let _ = &bin;

    assert_eq!(mesh.attribute("UVMap").unwrap().name, "UVMap");
    assert!(mesh.attribute("does_not_exist").is_none());

    let rotations = mesh.attributes_by_semantic(Semantic::Rotation);
    assert_eq!(rotations.len(), 1);
    assert_eq!(rotations[0].name, "custom_attribute");
}

// ---------------------------------------------------------------------------------------------
// Face traversal + triangulation
// ---------------------------------------------------------------------------------------------

#[test]
fn faces_traverses_corner_vertices_and_edges_per_face() {
    let (file, bin) = parse_cube();
    let faces = file.meshes[0].faces(&bin).unwrap();

    assert_eq!(faces.len(), 6);

    let face2 = faces.face(2).unwrap();
    assert_eq!(face2.vertices, &[0, 1, 5, 4]);
    assert_eq!(face2.edges, &[0, 9, 4, 8]);

    let all: Vec<Vec<u32>> = faces.iter().iter().map(|f| f.vertices.to_vec()).collect();
    assert_eq!(
        all,
        vec![
            vec![0, 1, 2, 3],
            vec![4, 5, 6, 7],
            vec![0, 1, 5, 4],
            vec![2, 3, 7, 6],
            vec![0, 3, 7, 4],
            vec![1, 2, 6, 5],
        ]
    );
}

#[test]
fn triangulate_fan_splits_quad_into_two_triangles() {
    let (file, bin) = parse_cube();
    let faces = file.meshes[0].faces(&bin).unwrap();

    let triangles = faces.face(0).unwrap().triangulate_fan();

    assert_eq!(triangles, vec![[0, 1, 2], [0, 2, 3]]);
}

// ---------------------------------------------------------------------------------------------
// Further cases
// ---------------------------------------------------------------------------------------------

#[test]
fn group_cuts_a_slice_into_fixed_size_elements() {
    assert_eq!(group::<u32, 2>(&[1, 2, 3, 4, 5, 6]), Some(vec![[1, 2], [3, 4], [5, 6]]));
    assert_eq!(group::<u32, 3>(&[]), Some(vec![]));
    assert_eq!(group::<u32, 4>(&[1, 2, 3]), None);
    assert_eq!(group::<u32, 0>(&[1, 2]), None);
}

#[test]
fn grouped_accessors_reject_other_component_types() {
    let data = ComponentData::U8(vec![1, 2, 3, 4]);
    assert_eq!(data.grouped_u8::<2>(), Some(vec![[1, 2], [3, 4]]));
    assert_eq!(data.grouped_u32::<2>(), None);
    assert_eq!(data.grouped_u8::<3>(), None);

    let data = ComponentData::I32(vec![-1, 2]);
    assert_eq!(data.grouped_i32::<1>(), Some(vec![[-1], [2]]));
    assert_eq!(ComponentData::Bool(vec![true, false]).grouped_bool::<2>(), Some(vec![[true, false]]));
    assert_eq!(ComponentData::I8(vec![-128]).grouped_i8::<1>(), Some(vec![[-128]]));
    assert_eq!(ComponentData::F32(vec![7, 8]).grouped_f32::<2>(), Some(vec![[7, 8]]));
}

#[test]
fn shape_is_checked_before_the_buffer_is_read() {
    let (mut file, _) = parse_cube();
    file.meshes[0].topology.corner_vertices.component_type = ComponentType::I32;

    // An empty BIN would fail extraction; the shape error must come first.
    let err = file.meshes[0].topology.corner_vertices(&[]).unwrap_err();

    assert_eq!(
        err,
        TopolyxError::UnexpectedComponentShape {
            field: "topology.corner_vertices",
            expected_type: ComponentType::U32,
            expected_count: 1,
            found_type: ComponentType::I32,
            found_count: 1,
        }
    );
}

#[test]
fn topology_accessors_report_extraction_errors() {
    let (file, bin) = parse_cube();

    let err = file.meshes[0].topology.edges(&bin[..100]).unwrap_err();

    assert_eq!(err, TopolyxError::DataOutOfBounds);
}

#[test]
fn color_attribute_values_group_by_component_type() {
    let bin: Vec<u8> = vec![1, 2, 3, 4, 5, 6, 7, 8];
    let attribute = Attribute {
        name: "col".to_string(),
        domain: Domain::Point,
        semantic: Semantic::Color,
        data: descriptor(0, 8, ComponentType::U8, 4, 2),
    };
    assert_eq!(attribute.values(&bin), Ok(AttributeValues::ColorU8(vec![[1, 2, 3, 4], [5, 6, 7, 8]])));

    let floats: Vec<u8> = [0.5f32, 0.25, 0.0, 1.0].iter().flat_map(|v| v.to_le_bytes()).collect();
    let attribute = Attribute {
        name: "col".to_string(),
        domain: Domain::Point,
        semantic: Semantic::Color,
        data: descriptor(0, 16, ComponentType::F32, 4, 1),
    };
    assert_eq!(
        attribute.values(&floats),
        Ok(AttributeValues::ColorF32(vec![[0.5f32.to_bits(), 0.25f32.to_bits(), 0, 1.0f32.to_bits()]]))
    );
}

#[test]
fn semantic_attribute_with_wrong_shape_is_an_error() {
    let (file, bin) = parse_cube();
    let mut attribute = file.meshes[0].attribute("UVMap").unwrap().clone();
    attribute.semantic = Semantic::Normal;

    let err = attribute.values(&bin).unwrap_err();

    assert_eq!(
        err,
        TopolyxError::UnexpectedComponentShape {
            field: "attribute.data",
            expected_type: ComponentType::F32,
            expected_count: 3,
            found_type: ComponentType::F32,
            found_count: 2,
        }
    );
}

#[test]
fn attribute_lookup_returns_the_first_match() {
    let mut mesh = cube_mesh();
    let mut second = mesh.attributes[1].clone();
    second.domain = Domain::Point;
    mesh.attributes.push(second);

    assert_eq!(mesh.attribute("UVMap").unwrap().domain, Domain::Corner);
    assert!(mesh.attributes_by_semantic(Semantic::Normal).is_empty());
    assert_eq!(mesh.attributes_by_semantic(Semantic::Unassigned).len(), 3);
}

#[test]
fn faces_cover_the_corners_in_order() {
    let (file, bin) = parse_cube();
    let mesh = &file.meshes[0];
    let faces = mesh.faces(&bin).unwrap();

    let vertices: Vec<u32> = faces.iter().iter().flat_map(|f| f.vertices.to_vec()).collect();
    let edges: Vec<u32> = faces.iter().iter().flat_map(|f| f.edges.to_vec()).collect();

    assert_eq!(vertices, mesh.topology.corner_vertices(&bin).unwrap());
    assert_eq!(edges, mesh.topology.corner_edges(&bin).unwrap());
}

#[test]
fn unassigned_attribute_data_groups_by_its_component_count() {
    let (file, bin) = parse_cube();
    let attribute = file.meshes[0].attribute("UVMap").unwrap();

    let data = match attribute.values(&bin).unwrap() {
        AttributeValues::Unassigned(data) => data,
        other => panic!("expected AttributeValues::Unassigned, got {other:?}"),
    };
    let uvs = data.grouped_f32::<2>().expect("component_count 2 divides the data");

    assert_eq!(uvs.len(), attribute.data.element_count as usize);
}
