use wgsl_bindgen::binding_type::{
    classify_binding_type, BindingType, BufferBindingType, SamplerBindingType,
    StorageTextureAccess, TextureSampleType, TextureViewDimension,
};
use wgsl_bindgen::WgslTypeSerializeStrategy;
use wgsl_bindgen::shader::{
    AddressSpace, ImageClass, ImageDimension, Scalar, ScalarKind, StorageAccess, StorageFormat,
    TypeInner, TypeKind,
};
use wgsl_bindgen::CreateModuleError;

fn sampled_2d(kind: ScalarKind, multi: bool) -> TypeInner {
    TypeInner::Image {
        dim: ImageDimension::D2,
        class: ImageClass::Sampled { kind, multi },
    }
}

fn storage_2d(format: Option<StorageFormat>, load: bool, store: bool) -> TypeInner {
    TypeInner::Image {
        dim: ImageDimension::D2,
        class: ImageClass::Storage { format, access: StorageAccess { load, store } },
    }
}

#[test]
fn float_texture_is_texture_not_filterable() {
    let r = classify_binding_type(&sampled_2d(ScalarKind::Float, false), AddressSpace::Handle);
    assert_eq!(
        Ok(BindingType::Texture {
            sample_type: TextureSampleType::Float { filterable: false },
            view_dimension: TextureViewDimension::D2,
            multisampled: false,
        }),
        r
    );
}

#[test]
fn integer_textures_map_to_sint_and_uint() {
    assert_eq!(
        Ok(BindingType::Texture {
            sample_type: TextureSampleType::Sint,
            view_dimension: TextureViewDimension::D2,
            multisampled: false,
        }),
        classify_binding_type(&sampled_2d(ScalarKind::Sint, false), AddressSpace::Handle)
    );
    assert_eq!(
        Ok(BindingType::Texture {
            sample_type: TextureSampleType::Uint,
            view_dimension: TextureViewDimension::D2,
            multisampled: false,
        }),
        classify_binding_type(&sampled_2d(ScalarKind::Uint, false), AddressSpace::Handle)
    );
}

#[test]
fn multisampling_is_carried_through() {
    let r = classify_binding_type(&sampled_2d(ScalarKind::Float, true), AddressSpace::Handle);
    assert_eq!(
        Ok(BindingType::Texture {
            sample_type: TextureSampleType::Float { filterable: false },
            view_dimension: TextureViewDimension::D2,
            multisampled: true,
        }),
        r
    );
}

#[test]
fn depth_textures_map_to_depth_regardless_of_multisampling() {
    for multi in [false, true] {
        let inner = TypeInner::Image {
            dim: ImageDimension::D2,
            class: ImageClass::Depth { multi },
        };
        assert_eq!(
            Ok(BindingType::Texture {
                sample_type: TextureSampleType::Depth,
                view_dimension: TextureViewDimension::D2,
                multisampled: multi,
            }),
            classify_binding_type(&inner, AddressSpace::Handle)
        );
    }
}

#[test]
fn image_dimensions_map_one_to_one() {
    let pairs = [
        (ImageDimension::D1, TextureViewDimension::D1),
        (ImageDimension::D2, TextureViewDimension::D2),
        (ImageDimension::D3, TextureViewDimension::D3),
        (ImageDimension::Cube, TextureViewDimension::Cube),
    ];
    for (dim, view) in pairs {
        let inner = TypeInner::Image {
            dim,
            class: ImageClass::Sampled { kind: ScalarKind::Float, multi: false },
        };
        assert_eq!(
            Ok(BindingType::Texture {
                sample_type: TextureSampleType::Float { filterable: false },
                view_dimension: view,
                multisampled: false,
            }),
            classify_binding_type(&inner, AddressSpace::Handle)
        );
    }
}

#[test]
fn storage_texture_access_modes() {
    assert_eq!(
        Ok(BindingType::StorageTexture {
            access: StorageTextureAccess::ReadOnly,
            format: StorageFormat::R32Float,
            view_dimension: TextureViewDimension::D2,
        }),
        classify_binding_type(
            &storage_2d(Some(StorageFormat::R32Float), true, false),
            AddressSpace::Handle
        )
    );
    assert_eq!(
        Ok(BindingType::StorageTexture {
            access: StorageTextureAccess::WriteOnly,
            format: StorageFormat::Rg32Sint,
            view_dimension: TextureViewDimension::D2,
        }),
        classify_binding_type(
            &storage_2d(Some(StorageFormat::Rg32Sint), false, true),
            AddressSpace::Handle
        )
    );
    assert_eq!(
        Ok(BindingType::StorageTexture {
            access: StorageTextureAccess::ReadWrite,
            format: StorageFormat::Rgba8Uint,
            view_dimension: TextureViewDimension::D2,
        }),
        classify_binding_type(
            &storage_2d(Some(StorageFormat::Rgba8Uint), true, true),
            AddressSpace::Handle
        )
    );
}

#[test]
fn storage_texture_without_access_is_invalid_state() {
    assert_eq!(
        Err(CreateModuleError::InvalidState),
        classify_binding_type(
            &storage_2d(Some(StorageFormat::R32Float), false, false),
            AddressSpace::Handle
        )
    );
}

#[test]
fn storage_texture_with_unknown_format_is_refused() {
    assert_eq!(
        Err(CreateModuleError::UnsupportedFormat),
        classify_binding_type(&storage_2d(None, true, false), AddressSpace::Handle)
    );
}

#[test]
fn samplers_filter_or_compare() {
    assert_eq!(
        Ok(BindingType::Sampler { ty: SamplerBindingType::Filtering }),
        classify_binding_type(&TypeInner::Sampler { comparison: false }, AddressSpace::Handle)
    );
    assert_eq!(
        Ok(BindingType::Sampler { ty: SamplerBindingType::Comparison }),
        classify_binding_type(&TypeInner::Sampler { comparison: true }, AddressSpace::Handle)
    );
}

#[test]
fn scalar_uniform_is_a_uniform_buffer() {
    let inner = TypeInner::Scalar { scalar: Scalar { kind: ScalarKind::Float, width: 4 } };
    assert_eq!(
        Ok(BindingType::Buffer { ty: BufferBindingType::Uniform }),
        classify_binding_type(&inner, AddressSpace::Uniform)
    );
}

#[test]
fn array_in_storage_space_reads_access() {
    assert_eq!(
        Ok(BindingType::Buffer { ty: BufferBindingType::Storage { read_only: true } }),
        classify_binding_type(
            &TypeInner::Array,
            AddressSpace::Storage { access: StorageAccess { load: true, store: false } }
        )
    );
    assert_eq!(
        Ok(BindingType::Buffer { ty: BufferBindingType::Storage { read_only: false } }),
        classify_binding_type(
            &TypeInner::Array,
            AddressSpace::Storage { access: StorageAccess { load: true, store: true } }
        )
    );
}

#[test]
fn buffer_outside_uniform_or_storage_space_is_invalid_state() {
    let inner = TypeInner::Scalar { scalar: Scalar { kind: ScalarKind::Float, width: 4 } };
    assert_eq!(
        Err(CreateModuleError::InvalidState),
        classify_binding_type(&inner, AddressSpace::Private)
    );
}

#[test]
fn unsupported_types_carry_their_kind() {
    assert_eq!(
        Err(CreateModuleError::UnsupportedBindingType { kind: TypeKind::Matrix }),
        classify_binding_type(
            &TypeInner::Matrix {
                columns: wgsl_bindgen::shader::VectorSize::Quad,
                rows: wgsl_bindgen::shader::VectorSize::Quad,
                scalar: Scalar { kind: ScalarKind::Float, width: 4 },
            },
            AddressSpace::Uniform
        )
    );
    assert_eq!(
        Err(CreateModuleError::UnsupportedBindingType { kind: TypeKind::Atomic }),
        classify_binding_type(
            &TypeInner::Atomic { scalar: Scalar { kind: ScalarKind::Uint, width: 4 } },
            AddressSpace::Storage { access: StorageAccess { load: true, store: true } }
        )
    );
    assert_eq!(
        Err(CreateModuleError::UnsupportedBindingType { kind: TypeKind::Other }),
        classify_binding_type(&TypeInner::Other, AddressSpace::Handle)
    );
}

#[test]
fn bool_sampled_texture_is_refused() {
    assert!(matches!(
        classify_binding_type(&sampled_2d(ScalarKind::Bool, false), AddressSpace::Handle),
        Err(CreateModuleError::UnsupportedBindingType { .. })
    ));
}

#[test]
fn serialize_strategy_default_and_variants() {
    let d = WgslTypeSerializeStrategy::default();
    assert_eq!(WgslTypeSerializeStrategy::Encase, d);
    assert!(d.is_encase());
    assert!(!d.is_bytemuck());
    assert!(WgslTypeSerializeStrategy::Bytemuck.is_bytemuck());
}
