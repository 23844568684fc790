use wgsl_bindgen::bind_group::get_bind_group_data;
use wgsl_bindgen::binding_type::{BindingType, BufferBindingType};
use wgsl_bindgen::shader::{
    AddressSpace, EntryPoint, GlobalVariable, ResourceBinding, Scalar, ScalarKind, ShaderModule,
    ShaderStage, ShaderType, StorageAccess, StructMember, TypeInner, VectorSize,
};
use wgsl_bindgen::CreateModuleError;

fn vec4_f32_type() -> ShaderType {
    ShaderType {
        name: None,
        inner: TypeInner::Vector {
            size: VectorSize::Quad,
            scalar: Scalar { kind: ScalarKind::Float, width: 4 },
        },
    }
}

fn struct_type(name: &str, member_ty: usize) -> ShaderType {
    ShaderType {
        name: Some(name.to_string()),
        inner: TypeInner::Struct {
            members: vec![StructMember { name: "f".to_string(), ty: member_ty, location: None }],
        },
    }
}

fn uniform(name: &str, group: u32, binding: u32, ty: usize) -> GlobalVariable {
    GlobalVariable {
        name: Some(name.to_string()),
        space: AddressSpace::Uniform,
        binding: Some(ResourceBinding { group, binding }),
        ty,
    }
}

fn fragment_entry(name: &str) -> EntryPoint {
    EntryPoint {
        name: name.to_string(),
        stage: ShaderStage::Fragment,
        workgroup_size: [0, 0, 0],
        inputs: vec![],
    }
}

/// A module with one struct type `A` and uniforms of it at the given
/// `(group, binding)` pairs, plus one fragment entry point.
fn uniforms_module(slots: &[(u32, u32)]) -> ShaderModule {
    let names = ["a", "b", "c", "d", "e", "f"];
    ShaderModule {
        types: vec![vec4_f32_type(), struct_type("A", 0)],
        global_variables: slots
            .iter()
            .enumerate()
            .map(|(i, (g, b))| uniform(names[i], *g, *b, 1))
            .collect(),
        entry_points: vec![fragment_entry("main")],
    }
}

#[test]
fn bind_group_data_consecutive_bind_groups() {
    let module = uniforms_module(&[(0, 0), (1, 0), (2, 0)]);
    assert!(module.wf_check());
    assert_eq!(3, get_bind_group_data(&module).unwrap().len());
}

#[test]
fn bind_group_data_first_group_not_zero() {
    let module = uniforms_module(&[(1, 0)]);
    assert!(matches!(
        get_bind_group_data(&module),
        Err(CreateModuleError::NonConsecutiveBindGroups)
    ));
}

#[test]
fn bind_group_data_non_consecutive_bind_groups() {
    let module = uniforms_module(&[(0, 0), (1, 0), (3, 0)]);
    assert!(matches!(
        get_bind_group_data(&module),
        Err(CreateModuleError::NonConsecutiveBindGroups)
    ));
}

#[test]
fn group_keys_are_the_contiguous_range() {
    let module = uniforms_module(&[(1, 0), (0, 0), (2, 0)]);
    let map = get_bind_group_data(&module).unwrap();
    assert_eq!(3, map.len());
    for (i, (key, _)) in map.groups.iter().enumerate() {
        assert_eq!(*key, i as u32);
    }
}

#[test]
fn duplicate_binding_in_one_group_is_refused() {
    let module = uniforms_module(&[(0, 2), (0, 2)]);
    assert!(matches!(
        get_bind_group_data(&module),
        Err(CreateModuleError::DuplicateBinding { binding: 2 })
    ));
}

#[test]
fn duplicate_binding_reports_the_shared_index() {
    let module = uniforms_module(&[(0, 0), (0, 7), (0, 7)]);
    assert!(matches!(
        get_bind_group_data(&module),
        Err(CreateModuleError::DuplicateBinding { binding: 7 })
    ));
}

#[test]
fn bindings_keep_declaration_order_not_index_order() {
    // Binding 5 is declared before binding 1 in the same group: the bucket
    // keeps that order.
    let module = uniforms_module(&[(0, 5), (0, 1)]);
    let map = get_bind_group_data(&module).unwrap();
    assert_eq!(1, map.len());
    let bindings = &map.groups[0].1.bindings;
    assert_eq!(2, bindings.len());
    assert_eq!(5, bindings[0].binding_index);
    assert_eq!(1, bindings[1].binding_index);
    assert_eq!(Some("a".to_string()), bindings[0].name);
    assert_eq!(Some("b".to_string()), bindings[1].name);
}

#[test]
fn compute_module_with_storage_and_uniform_buffers() {
    // Group 0: a storage buffer read-only at index 0 and one read-write at
    // index 2; group 1: a uniform at index 0.
    let module = ShaderModule {
        types: vec![vec4_f32_type(), struct_type("Vertices", 0)],
        global_variables: vec![
            GlobalVariable {
                name: Some("src".to_string()),
                space: AddressSpace::Storage {
                    access: StorageAccess { load: true, store: false },
                },
                binding: Some(ResourceBinding { group: 0, binding: 0 }),
                ty: 1,
            },
            GlobalVariable {
                name: Some("dst".to_string()),
                space: AddressSpace::Storage {
                    access: StorageAccess { load: true, store: true },
                },
                binding: Some(ResourceBinding { group: 0, binding: 2 }),
                ty: 1,
            },
            GlobalVariable {
                name: Some("transforms".to_string()),
                space: AddressSpace::Uniform,
                binding: Some(ResourceBinding { group: 1, binding: 0 }),
                ty: 1,
            },
        ],
        entry_points: vec![EntryPoint {
            name: "main".to_string(),
            stage: ShaderStage::Compute,
            workgroup_size: [64, 1, 1],
            inputs: vec![],
        }],
    };
    let map = get_bind_group_data(&module).unwrap();
    assert_eq!(2, map.len());
    let group0 = &map.groups[0].1.bindings;
    assert_eq!(2, group0.len());
    assert_eq!(
        BindingType::Buffer { ty: BufferBindingType::Storage { read_only: true } },
        group0[0].binding_type
    );
    assert_eq!(
        BindingType::Buffer { ty: BufferBindingType::Storage { read_only: false } },
        group0[1].binding_type
    );
    let group1 = &map.groups[1].1.bindings;
    assert_eq!(1, group1.len());
    assert_eq!(BindingType::Buffer { ty: BufferBindingType::Uniform }, group1[0].binding_type);
}

#[test]
fn unbound_globals_are_not_resources() {
    let mut module = uniforms_module(&[(0, 0)]);
    module.global_variables.push(GlobalVariable {
        name: Some("scratch".to_string()),
        space: AddressSpace::Private,
        binding: None,
        ty: 1,
    });
    let map = get_bind_group_data(&module).unwrap();
    assert_eq!(1, map.len());
    assert_eq!(1, map.groups[0].1.bindings.len());
}

#[test]
fn empty_module_has_no_groups() {
    let module = ShaderModule {
        types: vec![],
        global_variables: vec![],
        entry_points: vec![fragment_entry("fs_main")],
    };
    assert_eq!(0, get_bind_group_data(&module).unwrap().len());
}

#[test]
fn vector_typed_resource_is_refused() {
    // A vector bound directly as a resource has no buffer classification.
    let module = ShaderModule {
        types: vec![vec4_f32_type()],
        global_variables: vec![uniform("a", 0, 0, 0)],
        entry_points: vec![fragment_entry("main")],
    };
    assert!(matches!(
        get_bind_group_data(&module),
        Err(CreateModuleError::UnsupportedBindingType { kind: wgsl_bindgen::shader::TypeKind::Vector })
    ));
}

#[test]
fn classification_error_wins_over_later_duplicates() {
    // The walk aborts at the first offending declaration.
    let module = ShaderModule {
        types: vec![vec4_f32_type(), struct_type("A", 0)],
        global_variables: vec![
            uniform("bad", 0, 0, 0),
            uniform("x", 0, 1, 1),
            uniform("y", 0, 1, 1),
        ],
        entry_points: vec![fragment_entry("main")],
    };
    assert!(matches!(
        get_bind_group_data(&module),
        Err(CreateModuleError::UnsupportedBindingType { .. })
    ));
}

#[test]
fn wf_check_rejects_dangling_type_handles() {
    let module = ShaderModule {
        types: vec![vec4_f32_type()],
        global_variables: vec![uniform("a", 0, 0, 5)],
        entry_points: vec![],
    };
    assert!(!module.wf_check());
}
