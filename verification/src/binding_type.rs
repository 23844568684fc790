//! The binding-type taxonomy of the graphics API's descriptor model, and the
//! classifier that maps one shader type, in its usage context, onto it.
//!
//! Classification is a pure, total mapping: every shader type either lands on
//! exactly one [`BindingType`] or is refused with the matching
//! [`CreateModuleError`]. The spec functions state the mapping; each
//! executable function returns exactly its spec function's value.

use vstd::prelude::*;

use crate::shader::{AddressSpace, ImageClass, ImageDimension, ScalarKind, StorageAccess,
    StorageFormat, TypeInner};
use crate::CreateModuleError;

verus! {

/// Whether a buffer resource is a uniform or a storage buffer.
#[derive(Debug, Copy, Clone, PartialEq, Eq, Structural)]
pub enum BufferBindingType {
    Uniform,
    Storage { read_only: bool },
}

/// How a sampled texture's texels are to be read.
#[derive(Debug, Copy, Clone, PartialEq, Eq, Structural)]
pub enum TextureSampleType {
    Float { filterable: bool },
    Depth,
    Sint,
    Uint,
}

/// The dimensionality a texture is viewed with.
#[derive(Debug, Copy, Clone, PartialEq, Eq, Structural)]
pub enum TextureViewDimension {
    D1,
    D2,
    D3,
    Cube,
}

/// The access a storage texture is bound with.
#[derive(Debug, Copy, Clone, PartialEq, Eq, Structural)]
pub enum StorageTextureAccess {
    ReadOnly,
    WriteOnly,
    ReadWrite,
}

/// Whether a sampler filters or compares.
#[derive(Debug, Copy, Clone, PartialEq, Eq, Structural)]
pub enum SamplerBindingType {
    Filtering,
    Comparison,
}

/// The classified type of one bound resource, as the descriptor model wants
/// it.
#[derive(Debug, Copy, Clone, PartialEq, Eq, Structural)]
pub enum BindingType {
    Buffer { ty: BufferBindingType },
    Texture {
        sample_type: TextureSampleType,
        view_dimension: TextureViewDimension,
        multisampled: bool,
    },
    StorageTexture {
        access: StorageTextureAccess,
        format: StorageFormat,
        view_dimension: TextureViewDimension,
    },
    Sampler { ty: SamplerBindingType },
}

/// The buffer binding type an address space dictates: `uniform` maps to a
/// uniform buffer, `storage` to a storage buffer that is read-only exactly
/// when the declared access excludes writing. A buffer-shaped type in any
/// other address space is an internally impossible combination.
pub open spec fn spec_buffer_binding_type(space: AddressSpace) -> Result<
    BufferBindingType,
    CreateModuleError,
> {
    match space {
        AddressSpace::Uniform => Ok(BufferBindingType::Uniform),
        AddressSpace::Storage { access } => Ok(
            BufferBindingType::Storage { read_only: !access.store },
        ),
        _ => Err(CreateModuleError::InvalidState),
    }
}

pub fn buffer_binding_type(space: AddressSpace) -> (r: Result<
    BufferBindingType,
    CreateModuleError,
>)
    ensures
        r == spec_buffer_binding_type(space),
{
    match space {
        AddressSpace::Uniform => Ok(BufferBindingType::Uniform),
        AddressSpace::Storage { access } => Ok(
            BufferBindingType::Storage { read_only: !access.store },
        ),
        _ => Err(CreateModuleError::InvalidState),
    }
}

/// The storage-texture access a load/store flag pair dictates; a pair that
/// neither loads nor stores must not occur in a well-formed module and is an
/// invariant violation.
pub open spec fn spec_storage_access(access: StorageAccess) -> Result<
    StorageTextureAccess,
    CreateModuleError,
> {
    if access.load && access.store {
        Ok(StorageTextureAccess::ReadWrite)
    } else if access.load {
        Ok(StorageTextureAccess::ReadOnly)
    } else if access.store {
        Ok(StorageTextureAccess::WriteOnly)
    } else {
        Err(CreateModuleError::InvalidState)
    }
}

pub fn storage_access(access: StorageAccess) -> (r: Result<
    StorageTextureAccess,
    CreateModuleError,
>)
    ensures
        r == spec_storage_access(access),
{
    if access.load && access.store {
        Ok(StorageTextureAccess::ReadWrite)
    } else if access.load {
        Ok(StorageTextureAccess::ReadOnly)
    } else if access.store {
        Ok(StorageTextureAccess::WriteOnly)
    } else {
        Err(CreateModuleError::InvalidState)
    }
}

/// Image dimensions map one to one onto view dimensions.
pub open spec fn spec_view_dimension(dim: ImageDimension) -> TextureViewDimension {
    match dim {
        ImageDimension::D1 => TextureViewDimension::D1,
        ImageDimension::D2 => TextureViewDimension::D2,
        ImageDimension::D3 => TextureViewDimension::D3,
        ImageDimension::Cube => TextureViewDimension::Cube,
    }
}

pub fn view_dimension(dim: ImageDimension) -> (r: TextureViewDimension)
    ensures
        r == spec_view_dimension(dim),
{
    match dim {
        ImageDimension::D1 => TextureViewDimension::D1,
        ImageDimension::D2 => TextureViewDimension::D2,
        ImageDimension::D3 => TextureViewDimension::D3,
        ImageDimension::Cube => TextureViewDimension::Cube,
    }
}

/// The sample type a sampled image's scalar kind dictates. A float-sampled
/// texture is reported as not filterable: a deliberate conservative default,
/// since filterability is not inferred from sampler usage. A kind with no
/// sample type (a boolean) has no place in the binding model.
pub open spec fn spec_sample_type(kind: ScalarKind) -> Result<
    TextureSampleType,
    CreateModuleError,
> {
    match kind {
        ScalarKind::Sint => Ok(TextureSampleType::Sint),
        ScalarKind::Uint => Ok(TextureSampleType::Uint),
        ScalarKind::Float => Ok(TextureSampleType::Float { filterable: false }),
        ScalarKind::Bool => Err(
            CreateModuleError::UnsupportedBindingType { kind: crate::shader::TypeKind::Image },
        ),
    }
}

pub fn sample_type(kind: ScalarKind) -> (r: Result<TextureSampleType, CreateModuleError>)
    ensures
        r == spec_sample_type(kind),
{
    match kind {
        ScalarKind::Sint => Ok(TextureSampleType::Sint),
        ScalarKind::Uint => Ok(TextureSampleType::Uint),
        ScalarKind::Float => Ok(TextureSampleType::Float { filterable: false }),
        ScalarKind::Bool => Err(
            CreateModuleError::UnsupportedBindingType { kind: crate::shader::TypeKind::Image },
        ),
    }
}

/// The classifier: one shader type, with the address space it is bound in,
/// maps onto exactly one binding type or is refused.
///
/// Scalars, structures and arrays behind a resource binding are buffers,
/// uniform or storage as the address space dictates. Images are textures,
/// except storage-class images, which are storage textures with the declared
/// format carried verbatim; a declared format outside the target taxonomy is
/// refused. Samplers compare or filter as declared. Every other type is
/// refused, carrying its kind for diagnosis.
pub open spec fn spec_classify(inner: TypeInner, space: AddressSpace) -> Result<
    BindingType,
    CreateModuleError,
> {
    match inner {
        TypeInner::Scalar { .. } | TypeInner::Struct { .. } | TypeInner::Array => {
            match spec_buffer_binding_type(space) {
                Ok(ty) => Ok(BindingType::Buffer { ty }),
                Err(e) => Err(e),
            }
        },
        TypeInner::Image { dim, class } => {
            let view_dimension = spec_view_dimension(dim);
            match class {
                ImageClass::Sampled { kind, multi } => {
                    match spec_sample_type(kind) {
                        Ok(sample_type) => Ok(
                            BindingType::Texture { sample_type, view_dimension, multisampled: multi },
                        ),
                        Err(e) => Err(e),
                    }
                },
                ImageClass::Depth { multi } => Ok(
                    BindingType::Texture {
                        sample_type: TextureSampleType::Depth,
                        view_dimension,
                        multisampled: multi,
                    },
                ),
                ImageClass::Storage { format, access } => {
                    match format {
                        None => Err(CreateModuleError::UnsupportedFormat),
                        Some(format) => {
                            match spec_storage_access(access) {
                                Ok(access) => Ok(
                                    BindingType::StorageTexture { access, format, view_dimension },
                                ),
                                Err(e) => Err(e),
                            }
                        },
                    }
                },
            }
        },
        TypeInner::Sampler { comparison } => {
            if comparison {
                Ok(BindingType::Sampler { ty: SamplerBindingType::Comparison })
            } else {
                Ok(BindingType::Sampler { ty: SamplerBindingType::Filtering })
            }
        },
        _ => Err(CreateModuleError::UnsupportedBindingType { kind: inner.spec_kind() }),
    }
}

pub fn classify_binding_type(inner: &TypeInner, space: AddressSpace) -> (r: Result<
    BindingType,
    CreateModuleError,
>)
    ensures
        r == spec_classify(*inner, space),
{
    match inner {
        TypeInner::Scalar { .. } | TypeInner::Struct { .. } | TypeInner::Array => {
            match buffer_binding_type(space) {
                Ok(ty) => Ok(BindingType::Buffer { ty }),
                Err(e) => Err(e),
            }
        },
        TypeInner::Image { dim, class } => {
            let view_dimension = view_dimension(*dim);
            match class {
                ImageClass::Sampled { kind, multi } => {
                    match sample_type(*kind) {
                        Ok(st) => Ok(
                            BindingType::Texture {
                                sample_type: st,
                                view_dimension,
                                multisampled: *multi,
                            },
                        ),
                        Err(e) => Err(e),
                    }
                },
                ImageClass::Depth { multi } => Ok(
                    BindingType::Texture {
                        sample_type: TextureSampleType::Depth,
                        view_dimension,
                        multisampled: *multi,
                    },
                ),
                ImageClass::Storage { format, access } => {
                    match format {
                        None => Err(CreateModuleError::UnsupportedFormat),
                        Some(f) => {
                            match storage_access(*access) {
                                Ok(a) => Ok(
                                    BindingType::StorageTexture {
                                        access: a,
                                        format: *f,
                                        view_dimension,
                                    },
                                ),
                                Err(e) => Err(e),
                            }
                        },
                    }
                },
            }
        },
        TypeInner::Sampler { comparison } => {
            if *comparison {
                Ok(BindingType::Sampler { ty: SamplerBindingType::Comparison })
            } else {
                Ok(BindingType::Sampler { ty: SamplerBindingType::Filtering })
            }
        },
        _ => Err(CreateModuleError::UnsupportedBindingType { kind: inner.kind() }),
    }
}

} // verus!
