//! Reflection of a parsed shader module into a validated description of its
//! resource bind groups and of the memory layout of its vertex inputs.
//!
//! The input is a [`shader::ShaderModule`]: the types, global resource
//! declarations and entry points of one shader, as a front end hands them
//! over. From it the crate derives, with full validation,
//! - a [`bind_group::BindGroupMap`]: the bound globals bucketed by group
//!   index, each classified into the binding-type taxonomy of the graphics
//!   API's descriptor model, and
//! - a vertex layout per vertex-input structure: one attribute (format,
//!   byte offset, location) per field, plus the structure's stride.
//!
//! Code emission, shader parsing and anything that touches a device are out
//! of scope: the derived descriptions are plain data for such a consumer.

use vstd::prelude::*;

pub mod bind_group;
pub mod binding_type;
pub mod shader;
pub mod vertex;

verus! {

/// How generated Rust types for WGSL values are meant to be serialised.
#[derive(Debug, Copy, Clone, PartialEq, Eq, Structural)]
pub enum WgslTypeSerializeStrategy {
    Encase,
    Bytemuck,
}

impl Default for WgslTypeSerializeStrategy {
    fn default() -> (r: Self)
        ensures
            r == WgslTypeSerializeStrategy::Encase,
    {
        WgslTypeSerializeStrategy::Encase
    }
}

impl WgslTypeSerializeStrategy {
    pub fn is_encase(&self) -> (r: bool)
        ensures
            r == (*self == WgslTypeSerializeStrategy::Encase),
    {
        matches!(self, WgslTypeSerializeStrategy::Encase)
    }

    pub fn is_bytemuck(&self) -> (r: bool)
        ensures
            r == (*self == WgslTypeSerializeStrategy::Bytemuck),
    {
        matches!(self, WgslTypeSerializeStrategy::Bytemuck)
    }
}

/// Why the resolution of a shader module was refused.
///
/// Every failure is final for the module at hand: the inputs are
/// deterministic shader descriptions, so a failure marks the shader (or its
/// combination with this binding model) as invalid, never a transient
/// condition.
#[derive(Debug, Copy, Clone, PartialEq, Eq, Structural)]
pub enum CreateModuleError {
    /// Bind group indices do not form the contiguous range `0..n`.
    NonConsecutiveBindGroups,
    /// Two resources in one bind group declare the same binding index.
    DuplicateBinding { binding: u32 },
    /// A bound resource's type has no place in the binding-type taxonomy;
    /// the kind of the offending type is carried for diagnosis.
    UnsupportedBindingType { kind: shader::TypeKind },
    /// A storage texture's declared pixel format has no equivalent in the
    /// target format taxonomy.
    UnsupportedFormat,
    /// A vertex-input field's scalar kind, width and component count have no
    /// equivalent vertex format.
    UnsupportedVertexFormat,
    /// An internally impossible combination, such as a storage access that
    /// neither reads nor writes: a defect of the upstream front end,
    /// surfaced instead of silently defaulted.
    InvalidState,
}

} // verus!
