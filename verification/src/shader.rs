//! The data model of a parsed shader module, as the resolver reads it.
//!
//! A front end owns the real module; what the resolver needs of it — types,
//! global resource declarations, entry points — is carried here as plain
//! values. Types live in one arena, [`ShaderModule::types`], and are referred
//! to by index, so a "reference to a type" is a handle into that arena.

use vstd::prelude::*;

verus! {

/// Upper bound on the member count of one structure type, generous enough
/// for any real shader; it keeps every byte offset computed for a structure
/// comfortably inside `u64`.
pub const MAX_STRUCT_MEMBERS: usize = 0x1000_0000;

/// The kind of scalar leaf value a shader type is built from.
#[derive(Debug, Copy, Clone, PartialEq, Eq, Structural)]
pub enum ScalarKind {
    Sint,
    Uint,
    Float,
    Bool,
}

/// A scalar type: its kind together with its width in bytes.
#[derive(Debug, Copy, Clone, PartialEq, Eq, Structural)]
pub struct Scalar {
    pub kind: ScalarKind,
    pub width: u32,
}

/// The component count of a vector type.
#[derive(Debug, Copy, Clone, PartialEq, Eq, Structural)]
pub enum VectorSize {
    Bi,
    Tri,
    Quad,
}

impl VectorSize {
    /// The component count as a number.
    pub open spec fn spec_count(self) -> u32 {
        match self {
            VectorSize::Bi => 2,
            VectorSize::Tri => 3,
            VectorSize::Quad => 4,
        }
    }

    pub fn count(self) -> (n: u32)
        ensures
            n == self.spec_count(),
    {
        match self {
            VectorSize::Bi => 2,
            VectorSize::Tri => 3,
            VectorSize::Quad => 4,
        }
    }
}

/// The dimensionality of an image type.
#[derive(Debug, Copy, Clone, PartialEq, Eq, Structural)]
pub enum ImageDimension {
    D1,
    D2,
    D3,
    Cube,
}

/// Which of loading and storing a storage resource's declared access allows.
#[derive(Debug, Copy, Clone, PartialEq, Eq, Structural)]
pub struct StorageAccess {
    pub load: bool,
    pub store: bool,
}

/// The pixel format a storage texture is declared with, in the target
/// taxonomy. A declared format outside this taxonomy is recorded as absent
/// (see [`ImageClass::Storage`]) and rejected during classification.
#[derive(Debug, Copy, Clone, PartialEq, Eq, Structural)]
pub enum StorageFormat {
    R8Unorm,
    R8Snorm,
    R8Uint,
    R8Sint,
    R16Uint,
    R16Sint,
    R16Float,
    Rg8Unorm,
    Rg8Snorm,
    Rg8Uint,
    Rg8Sint,
    R32Uint,
    R32Sint,
    R32Float,
    Rg16Uint,
    Rg16Sint,
    Rg16Float,
    Rgba8Unorm,
    Rgba8Snorm,
    Rgba8Uint,
    Rgba8Sint,
    Bgra8Unorm,
    Rgb10a2Uint,
    Rgb10a2Unorm,
    Rg11b10Ufloat,
    R64Uint,
    Rg32Uint,
    Rg32Sint,
    Rg32Float,
    Rgba16Uint,
    Rgba16Sint,
    Rgba16Float,
    Rgba32Uint,
    Rgba32Sint,
    Rgba32Float,
    R16Unorm,
    R16Snorm,
    Rg16Unorm,
    Rg16Snorm,
    Rgba16Unorm,
    Rgba16Snorm,
}

/// What an image type is for: sampling, depth comparison, or storage access.
#[derive(Debug, Clone, Copy, PartialEq, Eq, Structural)]
pub enum ImageClass {
    /// An image sampled by shaders; `multi` marks multisampling.
    Sampled { kind: ScalarKind, multi: bool },
    /// A depth image.
    Depth { multi: bool },
    /// A storage image. The declared pixel format is `None` when it exists
    /// in the shader language but not in the target format taxonomy.
    Storage { format: Option<StorageFormat>, access: StorageAccess },
}

/// The address space a global variable lives in.
#[derive(Debug, Copy, Clone, PartialEq, Eq, Structural)]
pub enum AddressSpace {
    Function,
    Private,
    WorkGroup,
    Uniform,
    Storage { access: StorageAccess },
    Handle,
    PushConstant,
}

/// One member of a structure type: its name, a handle to its type, and the
/// vertex-input location it is bound to, if any.
#[derive(Debug, Clone)]
pub struct StructMember {
    pub name: String,
    pub ty: usize,
    pub location: Option<u32>,
}

/// The shape of a shader type.
#[derive(Debug, Clone)]
pub enum TypeInner {
    Scalar { scalar: Scalar },
    Vector { size: VectorSize, scalar: Scalar },
    Matrix { columns: VectorSize, rows: VectorSize, scalar: Scalar },
    Atomic { scalar: Scalar },
    Pointer,
    Array,
    Struct { members: Vec<StructMember> },
    Image { dim: ImageDimension, class: ImageClass },
    Sampler { comparison: bool },
    /// A type the front end permits but this model has no reading for.
    Other,
}

/// The kind of a shader type, without its contents: enough structural
/// description to diagnose a type the binding model refuses.
#[derive(Debug, Copy, Clone, PartialEq, Eq, Structural)]
pub enum TypeKind {
    Scalar,
    Vector,
    Matrix,
    Atomic,
    Pointer,
    Array,
    Struct,
    Image,
    Sampler,
    Other,
}

impl TypeInner {
    /// The kind tag of this type.
    pub open spec fn spec_kind(self) -> TypeKind {
        match self {
            TypeInner::Scalar { .. } => TypeKind::Scalar,
            TypeInner::Vector { .. } => TypeKind::Vector,
            TypeInner::Matrix { .. } => TypeKind::Matrix,
            TypeInner::Atomic { .. } => TypeKind::Atomic,
            TypeInner::Pointer => TypeKind::Pointer,
            TypeInner::Array => TypeKind::Array,
            TypeInner::Struct { .. } => TypeKind::Struct,
            TypeInner::Image { .. } => TypeKind::Image,
            TypeInner::Sampler { .. } => TypeKind::Sampler,
            TypeInner::Other => TypeKind::Other,
        }
    }

    pub fn kind(&self) -> (k: TypeKind)
        ensures
            k == self.spec_kind(),
    {
        match self {
            TypeInner::Scalar { .. } => TypeKind::Scalar,
            TypeInner::Vector { .. } => TypeKind::Vector,
            TypeInner::Matrix { .. } => TypeKind::Matrix,
            TypeInner::Atomic { .. } => TypeKind::Atomic,
            TypeInner::Pointer => TypeKind::Pointer,
            TypeInner::Array => TypeKind::Array,
            TypeInner::Struct { .. } => TypeKind::Struct,
            TypeInner::Image { .. } => TypeKind::Image,
            TypeInner::Sampler { .. } => TypeKind::Sampler,
            TypeInner::Other => TypeKind::Other,
        }
    }
}

/// One declared shader type: its name, if it has one, and its shape.
#[derive(Debug, Clone)]
pub struct ShaderType {
    pub name: Option<String>,
    pub inner: TypeInner,
}

impl ShaderType {
    /// Handles held by this type stay inside an arena of `n` types, and a
    /// structure keeps its member count under the fixed bound.
    pub open spec fn wf(self, n: int) -> bool {
        match self.inner {
            TypeInner::Struct { members } => {
                &&& members@.len() <= MAX_STRUCT_MEMBERS
                &&& forall|i: int|
                    0 <= i < members@.len() ==> (#[trigger] members@[i]).ty < n
            },
            _ => true,
        }
    }
}

/// The group and binding indices a resource is declared with.
#[derive(Debug, Copy, Clone, PartialEq, Eq, Structural)]
pub struct ResourceBinding {
    pub group: u32,
    pub binding: u32,
}

/// One global variable declaration. Only those with a `binding` are bound
/// resources; the rest are not visible to the binding model.
#[derive(Debug, Clone)]
pub struct GlobalVariable {
    pub name: Option<String>,
    pub space: AddressSpace,
    pub binding: Option<ResourceBinding>,
    pub ty: usize,
}

/// The pipeline stage an entry point belongs to.
#[derive(Debug, Copy, Clone, PartialEq, Eq, Structural)]
pub enum ShaderStage {
    Vertex,
    Fragment,
    Compute,
}

/// One entry point: its name, stage, workgroup size (meaningful for compute
/// only) and the type handles of its input parameters, in declaration order.
#[derive(Debug, Clone)]
pub struct EntryPoint {
    pub name: String,
    pub stage: ShaderStage,
    pub workgroup_size: [u32; 3],
    pub inputs: Vec<usize>,
}

/// A parsed shader module, read-only input of the resolver: an arena of
/// types, the global variable declarations, and the entry points, each in
/// declaration order.
#[derive(Debug, Clone)]
pub struct ShaderModule {
    pub types: Vec<ShaderType>,
    pub global_variables: Vec<GlobalVariable>,
    pub entry_points: Vec<EntryPoint>,
}

impl ShaderModule {
    /// Every type handle in the module points into its type arena, and every
    /// structure type keeps its member count under the fixed bound.
    pub open spec fn wf(self) -> bool {
        let n = self.types@.len() as int;
        &&& forall|i: int|
            0 <= i < self.types@.len() ==> (#[trigger] self.types@[i]).wf(n)
        &&& forall|i: int|
            0 <= i < self.global_variables@.len() ==> (#[trigger] self.global_variables@[i]).ty < n
        &&& forall|i: int, j: int|
            0 <= i < self.entry_points@.len() && 0 <= j < self.entry_points@[i].inputs@.len()
                ==> (#[trigger] self.entry_points@[i].inputs@[j]) < n
    }

    /// Decide [`ShaderModule::wf`] at run time, for a caller that receives
    /// the module from a converter it does not trust.
    #[verifier::loop_isolation(false)]
    pub fn wf_check(&self) -> (r: bool)
        ensures
            r == self.wf(),
    {
        let n = self.types.len();
        let mut i: usize = 0;
        while i < n
            invariant
                i <= n,
                forall|p: int| 0 <= p < i ==> (#[trigger] self.types@[p]).wf(n as int),
            decreases n - i,
        {
            match &self.types[i].inner {
                TypeInner::Struct { members } => {
                    if members.len() > MAX_STRUCT_MEMBERS {
                        proof {
                            assert(!self.types@[i as int].wf(n as int));
                        }
                        return false;
                    }
                    let mlen = members.len();
                    let mut j: usize = 0;
                    while j < mlen
                        invariant
                            j <= mlen,
                            forall|q: int| 0 <= q < j ==> (#[trigger] members@[q]).ty < n,
                        decreases mlen - j,
                    {
                        if members[j].ty >= n {
                            proof {
                                assert(!self.types@[i as int].wf(n as int));
                            }
                            return false;
                        }
                        j += 1;
                    }
                    proof {
                        assert(self.types@[i as int].wf(n as int));
                    }
                },
                _ => {
                    proof {
                        assert(self.types@[i as int].wf(n as int));
                    }
                },
            }
            i += 1;
        }
        let gn = self.global_variables.len();
        let mut i2: usize = 0;
        while i2 < gn
            invariant
                i2 <= gn,
                forall|p: int|
                    0 <= p < i2 ==> (#[trigger] self.global_variables@[p]).ty < n,
            decreases gn - i2,
        {
            if self.global_variables[i2].ty >= n {
                return false;
            }
            i2 += 1;
        }
        let en = self.entry_points.len();
        let mut i3: usize = 0;
        while i3 < en
            invariant
                i3 <= en,
                forall|p: int, q: int|
                    0 <= p < i3 && 0 <= q < self.entry_points@[p].inputs@.len() ==> (
                    #[trigger] self.entry_points@[p].inputs@[q]) < n,
            decreases en - i3,
        {
            let ep = &self.entry_points[i3];
            let jn = ep.inputs.len();
            let mut j2: usize = 0;
            while j2 < jn
                invariant
                    j2 <= jn,
                    forall|q: int| 0 <= q < j2 ==> (#[trigger] ep.inputs@[q]) < n,
                decreases jn - j2,
            {
                if ep.inputs[j2] >= n {
                    return false;
                }
                j2 += 1;
            }
            i3 += 1;
        }
        true
    }
}

/// Which pipeline stages a module's entry points cover.
#[derive(Debug, Copy, Clone, PartialEq, Eq, Structural)]
pub struct ShaderStages {
    pub vertex: bool,
    pub fragment: bool,
    pub compute: bool,
}

/// Some entry point of the module runs at this stage.
pub open spec fn has_stage(m: ShaderModule, s: ShaderStage) -> bool {
    exists|i: int| 0 <= i < m.entry_points@.len() && (#[trigger] m.entry_points@[i]).stage == s
}

/// The stages the module's entry points cover, one flag per stage.
#[verifier::loop_isolation(false)]
pub fn shader_stages(module: &ShaderModule) -> (r: ShaderStages)
    ensures
        r.vertex == has_stage(*module, ShaderStage::Vertex),
        r.fragment == has_stage(*module, ShaderStage::Fragment),
        r.compute == has_stage(*module, ShaderStage::Compute),
{
    let mut r = ShaderStages { vertex: false, fragment: false, compute: false };
    let n = module.entry_points.len();
    let mut i: usize = 0;
    while i < n
        invariant
            i <= n,
            r.vertex == exists|p: int|
                0 <= p < i && (#[trigger] module.entry_points@[p]).stage == ShaderStage::Vertex,
            r.fragment == exists|p: int|
                0 <= p < i && (#[trigger] module.entry_points@[p]).stage == ShaderStage::Fragment,
            r.compute == exists|p: int|
                0 <= p < i && (#[trigger] module.entry_points@[p]).stage == ShaderStage::Compute,
        decreases n - i,
    {
        match module.entry_points[i].stage {
            ShaderStage::Vertex => {
                r.vertex = true;
            },
            ShaderStage::Fragment => {
                r.fragment = true;
            },
            ShaderStage::Compute => {
                r.compute = true;
            },
        }
        i += 1;
    }
    r
}

} // verus!
