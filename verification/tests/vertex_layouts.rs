use wgsl_bindgen::shader::{
    shader_stages, EntryPoint, GlobalVariable, Scalar, ScalarKind, ShaderModule, ShaderStage,
    ShaderType, StructMember, TypeInner, VectorSize,
};
use wgsl_bindgen::vertex::{resolve_vertex_layouts, vertex_format, VertexFormat};
use wgsl_bindgen::CreateModuleError;

fn scalar(kind: ScalarKind, width: u32) -> ShaderType {
    ShaderType { name: None, inner: TypeInner::Scalar { scalar: Scalar { kind, width } } }
}

fn vector(size: VectorSize, kind: ScalarKind, width: u32) -> ShaderType {
    ShaderType { name: None, inner: TypeInner::Vector { size, scalar: Scalar { kind, width } } }
}

fn member(name: &str, ty: usize, location: u32) -> StructMember {
    StructMember { name: name.to_string(), ty, location: Some(location) }
}

fn vertex_entry(name: &str, inputs: Vec<usize>) -> EntryPoint {
    EntryPoint {
        name: name.to_string(),
        stage: ShaderStage::Vertex,
        workgroup_size: [0, 0, 0],
        inputs,
    }
}

/// Types 0..=3: scalar, vec2, vec3, vec4 of the given kind; type 4: a struct
/// named `VertexInput0` with fields `a`..`d` at locations 0..=3 of those
/// types; one vertex entry taking it.
fn single_input_module(kind: ScalarKind, width: u32) -> ShaderModule {
    ShaderModule {
        types: vec![
            scalar(kind, width),
            vector(VectorSize::Bi, kind, width),
            vector(VectorSize::Tri, kind, width),
            vector(VectorSize::Quad, kind, width),
            ShaderType {
                name: Some("VertexInput0".to_string()),
                inner: TypeInner::Struct {
                    members: vec![
                        member("a", 0, 0),
                        member("b", 1, 1),
                        member("c", 2, 2),
                        member("d", 3, 3),
                    ],
                },
            },
        ],
        global_variables: vec![],
        entry_points: vec![vertex_entry("main", vec![4])],
    }
}

#[test]
fn write_vertex_module_empty() {
    let module = ShaderModule {
        types: vec![],
        global_variables: vec![],
        entry_points: vec![vertex_entry("main", vec![])],
    };
    assert!(resolve_vertex_layouts(&module).unwrap().is_empty());
}

#[test]
fn write_vertex_module_single_input_float32() {
    let module = single_input_module(ScalarKind::Float, 4);
    assert!(module.wf_check());
    let layouts = resolve_vertex_layouts(&module).unwrap();
    assert_eq!(1, layouts.len());
    let l = &layouts[0];
    assert_eq!("VertexInput0", l.name);
    let formats: Vec<VertexFormat> = l.attributes.iter().map(|a| a.format).collect();
    assert_eq!(
        vec![
            VertexFormat::Float32,
            VertexFormat::Float32x2,
            VertexFormat::Float32x3,
            VertexFormat::Float32x4
        ],
        formats
    );
    let offsets: Vec<u64> = l.attributes.iter().map(|a| a.offset).collect();
    assert_eq!(vec![0, 8, 16, 32], offsets);
    let locations: Vec<u32> = l.attributes.iter().map(|a| a.location).collect();
    assert_eq!(vec![0, 1, 2, 3], locations);
    assert_eq!(48, l.stride);
}

#[test]
fn write_vertex_module_single_input_float64() {
    let module = single_input_module(ScalarKind::Float, 8);
    let layouts = resolve_vertex_layouts(&module).unwrap();
    let l = &layouts[0];
    let formats: Vec<VertexFormat> = l.attributes.iter().map(|a| a.format).collect();
    assert_eq!(
        vec![
            VertexFormat::Float64,
            VertexFormat::Float64x2,
            VertexFormat::Float64x3,
            VertexFormat::Float64x4
        ],
        formats
    );
    let offsets: Vec<u64> = l.attributes.iter().map(|a| a.offset).collect();
    assert_eq!(vec![0, 16, 32, 64], offsets);
    assert_eq!(96, l.stride);
}

#[test]
fn write_vertex_module_single_input_sint32() {
    let module = single_input_module(ScalarKind::Sint, 4);
    let layouts = resolve_vertex_layouts(&module).unwrap();
    let formats: Vec<VertexFormat> = layouts[0].attributes.iter().map(|a| a.format).collect();
    assert_eq!(
        vec![
            VertexFormat::Sint32,
            VertexFormat::Sint32x2,
            VertexFormat::Sint32x3,
            VertexFormat::Sint32x4
        ],
        formats
    );
}

#[test]
fn write_vertex_module_single_input_uint32() {
    let module = single_input_module(ScalarKind::Uint, 4);
    let layouts = resolve_vertex_layouts(&module).unwrap();
    let formats: Vec<VertexFormat> = layouts[0].attributes.iter().map(|a| a.format).collect();
    assert_eq!(
        vec![
            VertexFormat::Uint32,
            VertexFormat::Uint32x2,
            VertexFormat::Uint32x3,
            VertexFormat::Uint32x4
        ],
        formats
    );
}

#[test]
fn offsets_increase_strictly_under_natural_alignment() {
    let module = single_input_module(ScalarKind::Float, 4);
    let layouts = resolve_vertex_layouts(&module).unwrap();
    let attrs = &layouts[0].attributes;
    for w in attrs.windows(2) {
        assert!(w[0].offset < w[1].offset);
    }
}

#[test]
fn attributes_are_ordered_by_location_not_declaration() {
    let module = ShaderModule {
        types: vec![
            scalar(ScalarKind::Float, 4),
            ShaderType {
                name: Some("Input".to_string()),
                inner: TypeInner::Struct {
                    members: vec![member("second", 0, 1), member("first", 0, 0)],
                },
            },
        ],
        global_variables: vec![],
        entry_points: vec![vertex_entry("main", vec![1])],
    };
    let layouts = resolve_vertex_layouts(&module).unwrap();
    let l = &layouts[0];
    assert_eq!("first", l.attributes[0].name);
    assert_eq!(0, l.attributes[0].location);
    assert_eq!(0, l.attributes[0].offset);
    assert_eq!("second", l.attributes[1].name);
    assert_eq!(1, l.attributes[1].location);
    assert_eq!(4, l.attributes[1].offset);
    assert_eq!(8, l.stride);
}

#[test]
fn one_layout_per_struct_across_entry_points() {
    let module = ShaderModule {
        types: vec![
            vector(VectorSize::Quad, ScalarKind::Float, 4),
            ShaderType {
                name: Some("VertexInput".to_string()),
                inner: TypeInner::Struct { members: vec![member("position", 0, 0)] },
            },
        ],
        global_variables: vec![],
        entry_points: vec![
            vertex_entry("vs_main_1", vec![1]),
            vertex_entry("vs_main_2", vec![1]),
        ],
    };
    let layouts = resolve_vertex_layouts(&module).unwrap();
    assert_eq!(1, layouts.len());
    assert_eq!("VertexInput", layouts[0].name);
}

#[test]
fn fields_without_location_are_not_attributes() {
    // A builtin-bound member carries no location and takes no slot.
    let module = ShaderModule {
        types: vec![
            scalar(ScalarKind::Float, 4),
            ShaderType {
                name: Some("Input".to_string()),
                inner: TypeInner::Struct {
                    members: vec![
                        StructMember { name: "index".to_string(), ty: 0, location: None },
                        member("a", 0, 0),
                    ],
                },
            },
        ],
        global_variables: vec![],
        entry_points: vec![vertex_entry("main", vec![1])],
    };
    let layouts = resolve_vertex_layouts(&module).unwrap();
    assert_eq!(1, layouts[0].attributes.len());
    assert_eq!("a", layouts[0].attributes[0].name);
}

#[test]
fn struct_with_no_located_fields_is_omitted() {
    let module = ShaderModule {
        types: vec![
            scalar(ScalarKind::Float, 4),
            ShaderType {
                name: Some("Empty".to_string()),
                inner: TypeInner::Struct {
                    members: vec![StructMember {
                        name: "index".to_string(),
                        ty: 0,
                        location: None,
                    }],
                },
            },
        ],
        global_variables: vec![],
        entry_points: vec![vertex_entry("main", vec![1])],
    };
    assert!(resolve_vertex_layouts(&module).unwrap().is_empty());
}

#[test]
fn non_struct_inputs_are_skipped() {
    let module = ShaderModule {
        types: vec![vector(VectorSize::Quad, ScalarKind::Float, 4)],
        global_variables: vec![],
        entry_points: vec![vertex_entry("main", vec![0])],
    };
    assert!(resolve_vertex_layouts(&module).unwrap().is_empty());
}

#[test]
fn fragment_struct_inputs_yield_no_vertex_layout() {
    let module = ShaderModule {
        types: vec![
            vector(VectorSize::Quad, ScalarKind::Float, 4),
            ShaderType {
                name: Some("Input".to_string()),
                inner: TypeInner::Struct { members: vec![member("position", 0, 0)] },
            },
        ],
        global_variables: vec![],
        entry_points: vec![EntryPoint {
            name: "main".to_string(),
            stage: ShaderStage::Fragment,
            workgroup_size: [0, 0, 0],
            inputs: vec![1],
        }],
    };
    assert!(resolve_vertex_layouts(&module).unwrap().is_empty());
}

#[test]
fn uncovered_field_type_is_refused() {
    // A 16-bit float has no vertex format.
    let module = ShaderModule {
        types: vec![
            scalar(ScalarKind::Float, 2),
            ShaderType {
                name: Some("Input".to_string()),
                inner: TypeInner::Struct { members: vec![member("a", 0, 0)] },
            },
        ],
        global_variables: vec![],
        entry_points: vec![vertex_entry("main", vec![1])],
    };
    assert_eq!(
        Err(CreateModuleError::UnsupportedVertexFormat),
        resolve_vertex_layouts(&module).map(|v| v.len())
    );
}

#[test]
fn vertex_format_covers_exactly_the_matrix() {
    let kinds = [(ScalarKind::Float, 4u32), (ScalarKind::Float, 8), (ScalarKind::Sint, 4), (
        ScalarKind::Uint,
        4,
    )];
    let mut tags = Vec::new();
    for (kind, width) in kinds {
        let s = Scalar { kind, width };
        tags.push(vertex_format(&TypeInner::Scalar { scalar: s }).unwrap());
        for size in [VectorSize::Bi, VectorSize::Tri, VectorSize::Quad] {
            tags.push(vertex_format(&TypeInner::Vector { size, scalar: s }).unwrap());
        }
    }
    // All sixteen tags exist and are pairwise distinct.
    assert_eq!(16, tags.len());
    for i in 0..tags.len() {
        for j in 0..i {
            assert_ne!(tags[i], tags[j]);
        }
    }
    // Nothing outside the matrix is accepted.
    let bad = [
        TypeInner::Scalar { scalar: Scalar { kind: ScalarKind::Bool, width: 1 } },
        TypeInner::Scalar { scalar: Scalar { kind: ScalarKind::Sint, width: 8 } },
        TypeInner::Scalar { scalar: Scalar { kind: ScalarKind::Uint, width: 2 } },
        TypeInner::Vector {
            size: VectorSize::Quad,
            scalar: Scalar { kind: ScalarKind::Float, width: 2 },
        },
        TypeInner::Matrix {
            columns: VectorSize::Quad,
            rows: VectorSize::Quad,
            scalar: Scalar { kind: ScalarKind::Float, width: 4 },
        },
        TypeInner::Array,
    ];
    for inner in bad {
        assert_eq!(Err(CreateModuleError::UnsupportedVertexFormat), vertex_format(&inner));
    }
}

#[test]
fn shader_stages_reflect_entry_points() {
    let module = ShaderModule {
        types: vec![],
        global_variables: vec![],
        entry_points: vec![
            vertex_entry("vs", vec![]),
            EntryPoint {
                name: "fs".to_string(),
                stage: ShaderStage::Fragment,
                workgroup_size: [0, 0, 0],
                inputs: vec![],
            },
        ],
    };
    let stages = shader_stages(&module);
    assert!(stages.vertex);
    assert!(stages.fragment);
    assert!(!stages.compute);
}
