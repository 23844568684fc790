//! The vertex layout resolver: per-field attribute formats, byte offsets and
//! strides for the input structures of vertex entry points.
//!
//! A vertex-input field carries a scalar or vector type over 32-bit floats,
//! 64-bit floats, signed or unsigned 32-bit integers; each such type maps to
//! exactly one [`VertexFormat`]. Offsets are the natural in-memory offsets of
//! the fields within their structure: each field is placed at the next
//! multiple of its format's alignment, and the stride is the structure's end
//! rounded up to the largest alignment. A scalar aligns to its width; a
//! two-component vector to twice the width; three- and four-component
//! vectors to four times the width.

use vstd::prelude::*;

use crate::shader::{Scalar, ScalarKind, ShaderModule, ShaderStage, StructMember, TypeInner};
use crate::CreateModuleError;

verus! {

/// The vertex attribute formats of the target taxonomy: four scalar kinds by
/// one to four components.
#[derive(Debug, Copy, Clone, PartialEq, Eq, Structural)]
pub enum VertexFormat {
    Float32,
    Float32x2,
    Float32x3,
    Float32x4,
    Float64,
    Float64x2,
    Float64x3,
    Float64x4,
    Sint32,
    Sint32x2,
    Sint32x3,
    Sint32x4,
    Uint32,
    Uint32x2,
    Uint32x3,
    Uint32x4,
}

impl VertexFormat {
    /// The size of one attribute of this format, in bytes.
    pub open spec fn spec_size(self) -> u64 {
        match self {
            VertexFormat::Float32 => 4,
            VertexFormat::Float32x2 => 8,
            VertexFormat::Float32x3 => 12,
            VertexFormat::Float32x4 => 16,
            VertexFormat::Float64 => 8,
            VertexFormat::Float64x2 => 16,
            VertexFormat::Float64x3 => 24,
            VertexFormat::Float64x4 => 32,
            VertexFormat::Sint32 => 4,
            VertexFormat::Sint32x2 => 8,
            VertexFormat::Sint32x3 => 12,
            VertexFormat::Sint32x4 => 16,
            VertexFormat::Uint32 => 4,
            VertexFormat::Uint32x2 => 8,
            VertexFormat::Uint32x3 => 12,
            VertexFormat::Uint32x4 => 16,
        }
    }

    pub fn size(self) -> (n: u64)
        ensures
            n == self.spec_size(),
    {
        match self {
            VertexFormat::Float32 => 4,
            VertexFormat::Float32x2 => 8,
            VertexFormat::Float32x3 => 12,
            VertexFormat::Float32x4 => 16,
            VertexFormat::Float64 => 8,
            VertexFormat::Float64x2 => 16,
            VertexFormat::Float64x3 => 24,
            VertexFormat::Float64x4 => 32,
            VertexFormat::Sint32 => 4,
            VertexFormat::Sint32x2 => 8,
            VertexFormat::Sint32x3 => 12,
            VertexFormat::Sint32x4 => 16,
            VertexFormat::Uint32 => 4,
            VertexFormat::Uint32x2 => 8,
            VertexFormat::Uint32x3 => 12,
            VertexFormat::Uint32x4 => 16,
        }
    }

    /// The natural alignment of this format: the width for a scalar, twice
    /// the width for two components, four times the width for three or four.
    pub open spec fn spec_align(self) -> u64 {
        match self {
            VertexFormat::Float32 => 4,
            VertexFormat::Float32x2 => 8,
            VertexFormat::Float32x3 => 16,
            VertexFormat::Float32x4 => 16,
            VertexFormat::Float64 => 8,
            VertexFormat::Float64x2 => 16,
            VertexFormat::Float64x3 => 32,
            VertexFormat::Float64x4 => 32,
            VertexFormat::Sint32 => 4,
            VertexFormat::Sint32x2 => 8,
            VertexFormat::Sint32x3 => 16,
            VertexFormat::Sint32x4 => 16,
            VertexFormat::Uint32 => 4,
            VertexFormat::Uint32x2 => 8,
            VertexFormat::Uint32x3 => 16,
            VertexFormat::Uint32x4 => 16,
        }
    }

    pub fn align(self) -> (n: u64)
        ensures
            n == self.spec_align(),
    {
        match self {
            VertexFormat::Float32 => 4,
            VertexFormat::Float32x2 => 8,
            VertexFormat::Float32x3 => 16,
            VertexFormat::Float32x4 => 16,
            VertexFormat::Float64 => 8,
            VertexFormat::Float64x2 => 16,
            VertexFormat::Float64x3 => 32,
            VertexFormat::Float64x4 => 32,
            VertexFormat::Sint32 => 4,
            VertexFormat::Sint32x2 => 8,
            VertexFormat::Sint32x3 => 16,
            VertexFormat::Sint32x4 => 16,
            VertexFormat::Uint32 => 4,
            VertexFormat::Uint32x2 => 8,
            VertexFormat::Uint32x3 => 16,
            VertexFormat::Uint32x4 => 16,
        }
    }
}

/// Whether a scalar is one of the four covered kinds: 32-bit float, 64-bit
/// float, signed or unsigned 32-bit integer.
pub open spec fn covered_scalar(s: Scalar) -> bool {
    match s.kind {
        ScalarKind::Float => s.width == 4 || s.width == 8,
        ScalarKind::Sint => s.width == 4,
        ScalarKind::Uint => s.width == 4,
        ScalarKind::Bool => false,
    }
}

/// One of four formats by component count.
pub open spec fn spec_pick(
    n: u32,
    f1: VertexFormat,
    f2: VertexFormat,
    f3: VertexFormat,
    f4: VertexFormat,
) -> VertexFormat {
    if n == 1 {
        f1
    } else if n == 2 {
        f2
    } else if n == 3 {
        f3
    } else {
        f4
    }
}

/// The format of `n` components of the scalar `s`: total over the covered
/// kinds crossed with one to four components, refused everywhere else.
pub open spec fn spec_format_of(s: Scalar, n: u32) -> Result<VertexFormat, CreateModuleError> {
    if 1 <= n <= 4 && covered_scalar(s) {
        match s.kind {
            ScalarKind::Float => if s.width == 4 {
                Ok(
                    spec_pick(
                        n,
                        VertexFormat::Float32,
                        VertexFormat::Float32x2,
                        VertexFormat::Float32x3,
                        VertexFormat::Float32x4,
                    ),
                )
            } else {
                Ok(
                    spec_pick(
                        n,
                        VertexFormat::Float64,
                        VertexFormat::Float64x2,
                        VertexFormat::Float64x3,
                        VertexFormat::Float64x4,
                    ),
                )
            },
            ScalarKind::Sint => Ok(
                spec_pick(
                    n,
                    VertexFormat::Sint32,
                    VertexFormat::Sint32x2,
                    VertexFormat::Sint32x3,
                    VertexFormat::Sint32x4,
                ),
            ),
            _ => Ok(
                spec_pick(
                    n,
                    VertexFormat::Uint32,
                    VertexFormat::Uint32x2,
                    VertexFormat::Uint32x3,
                    VertexFormat::Uint32x4,
                ),
            ),
        }
    } else {
        Err(CreateModuleError::UnsupportedVertexFormat)
    }
}

/// The vertex format of one field type: a scalar counts as one component, a
/// vector as its component count; any other shape has no vertex format.
pub open spec fn spec_vertex_format(inner: TypeInner) -> Result<VertexFormat, CreateModuleError> {
    match inner {
        TypeInner::Scalar { scalar } => spec_format_of(scalar, 1),
        TypeInner::Vector { size, scalar } => spec_format_of(scalar, size.spec_count()),
        _ => Err(CreateModuleError::UnsupportedVertexFormat),
    }
}

fn format_of(s: Scalar, n: u32) -> (r: Result<VertexFormat, CreateModuleError>)
    requires
        1 <= n <= 4,
    ensures
        r == spec_format_of(s, n),
{
    match s.kind {
        ScalarKind::Float => {
            if s.width == 4 {
                if n == 1 {
                    Ok(VertexFormat::Float32)
                } else if n == 2 {
                    Ok(VertexFormat::Float32x2)
                } else if n == 3 {
                    Ok(VertexFormat::Float32x3)
                } else {
                    Ok(VertexFormat::Float32x4)
                }
            } else if s.width == 8 {
                if n == 1 {
                    Ok(VertexFormat::Float64)
                } else if n == 2 {
                    Ok(VertexFormat::Float64x2)
                } else if n == 3 {
                    Ok(VertexFormat::Float64x3)
                } else {
                    Ok(VertexFormat::Float64x4)
                }
            } else {
                Err(CreateModuleError::UnsupportedVertexFormat)
            }
        },
        ScalarKind::Sint => {
            if s.width == 4 {
                if n == 1 {
                    Ok(VertexFormat::Sint32)
                } else if n == 2 {
                    Ok(VertexFormat::Sint32x2)
                } else if n == 3 {
                    Ok(VertexFormat::Sint32x3)
                } else {
                    Ok(VertexFormat::Sint32x4)
                }
            } else {
                Err(CreateModuleError::UnsupportedVertexFormat)
            }
        },
        ScalarKind::Uint => {
            if s.width == 4 {
                if n == 1 {
                    Ok(VertexFormat::Uint32)
                } else if n == 2 {
                    Ok(VertexFormat::Uint32x2)
                } else if n == 3 {
                    Ok(VertexFormat::Uint32x3)
                } else {
                    Ok(VertexFormat::Uint32x4)
                }
            } else {
                Err(CreateModuleError::UnsupportedVertexFormat)
            }
        },
        ScalarKind::Bool => Err(CreateModuleError::UnsupportedVertexFormat),
    }
}

/// The vertex format of one field type, exactly [`spec_vertex_format`].
pub fn vertex_format(inner: &TypeInner) -> (r: Result<VertexFormat, CreateModuleError>)
    ensures
        r == spec_vertex_format(*inner),
{
    match inner {
        TypeInner::Scalar { scalar } => format_of(*scalar, 1),
        TypeInner::Vector { size, scalar } => format_of(*scalar, size.count()),
        _ => Err(CreateModuleError::UnsupportedVertexFormat),
    }
}

/// Law: the vertex format mapping is total over the covered matrix and
/// refuses everything outside it. Every covered scalar kind crossed with one
/// to four components yields a format; distinct pairs yield distinct
/// formats, so each pair has exactly one tag; and no scalar outside the
/// covered kinds, no component count outside 1..=4, and no non-scalar,
/// non-vector type is accepted.
pub proof fn lemma_vertex_format_total()
    ensures
        forall|s: Scalar, n: u32|
            1 <= n <= 4 && covered_scalar(s) ==> (#[trigger] spec_format_of(s, n)) is Ok,
        forall|s: Scalar, n: u32|
            !(1 <= n <= 4 && covered_scalar(s)) ==> (#[trigger] spec_format_of(s, n)) == Err::<
                VertexFormat,
                CreateModuleError,
            >(CreateModuleError::UnsupportedVertexFormat),
        forall|s1: Scalar, n1: u32, s2: Scalar, n2: u32|
            1 <= n1 <= 4 && covered_scalar(s1) && 1 <= n2 <= 4 && covered_scalar(s2) && (
            #[trigger] spec_format_of(s1, n1)) == (#[trigger] spec_format_of(s2, n2)) ==> s1.kind
                == s2.kind && s1.width == s2.width && n1 == n2,
        forall|inner: TypeInner|
            !(inner matches TypeInner::Scalar { .. } || inner matches TypeInner::Vector { .. })
                ==> (#[trigger] spec_vertex_format(inner)) == Err::<
                VertexFormat,
                CreateModuleError,
            >(CreateModuleError::UnsupportedVertexFormat),
{
}

/// The smallest multiple of `a` at or above `o`, for positive `a`.
pub open spec fn spec_round_up(o: int, a: int) -> int {
    if a <= 0 {
        o
    } else if o % a == 0 {
        o
    } else {
        o + a - o % a
    }
}

fn round_up(o: u64, a: u64) -> (r: u64)
    requires
        1 <= a <= 32,
        o + a <= u64::MAX,
    ensures
        r as int == spec_round_up(o as int, a as int),
        o <= r < o + a,
{
    let rem = o % a;
    if rem == 0 {
        o
    } else {
        o + (a - rem)
    }
}

/// One field that takes part in a vertex layout: its location, its name, and
/// the handle of its type.
#[derive(Debug)]
pub struct LocatedField {
    pub location: u32,
    pub name: String,
    pub ty: usize,
}

/// What one structure member contributes to the located fields: nothing
/// without a location.
pub open spec fn located_fn() -> spec_fn(StructMember) -> Option<LocatedField> {
    |mem: StructMember|
        match mem.location {
            Some(l) => Some(LocatedField { location: l, name: mem.name, ty: mem.ty }),
            None => None,
        }
}

/// The members that carry a location, in declaration order.
pub open spec fn located_fields(members: Seq<StructMember>) -> Seq<LocatedField> {
    members.filter_map(located_fn())
}

/// `x` placed after every field whose location does not exceed its own: the
/// insertion step of a stable sort by location.
pub open spec fn spec_insert_by_loc(s: Seq<LocatedField>, x: LocatedField) -> Seq<LocatedField>
    decreases s.len(),
{
    if s.len() == 0 {
        seq![x]
    } else if s.last().location <= x.location {
        s.push(x)
    } else {
        spec_insert_by_loc(s.drop_last(), x).push(s.last())
    }
}

/// The fields in ascending location order, fields with equal locations
/// keeping their relative order.
pub open spec fn spec_sort_by_loc(s: Seq<LocatedField>) -> Seq<LocatedField>
    decreases s.len(),
{
    if s.len() == 0 {
        Seq::empty()
    } else {
        spec_insert_by_loc(spec_sort_by_loc(s.drop_last()), s.last())
    }
}

/// The fields of a structure that its vertex layout covers, ordered by
/// declared location: the binding contract with the vertex-fetch stage, not
/// declaration order.
pub open spec fn spec_vertex_fields(members: Seq<StructMember>) -> Seq<LocatedField> {
    spec_sort_by_loc(located_fields(members))
}

/// The formats of the fields, or the error of the first field whose type has
/// no vertex format.
pub open spec fn spec_field_formats(m: ShaderModule, fields: Seq<LocatedField>) -> Result<
    Seq<VertexFormat>,
    CreateModuleError,
>
    decreases fields.len(),
{
    if fields.len() == 0 {
        Ok(Seq::empty())
    } else {
        match spec_field_formats(m, fields.drop_last()) {
            Err(e) => Err(e),
            Ok(fs) => match spec_vertex_format(m.types@[fields.last().ty as int].inner) {
                Err(e) => Err(e),
                Ok(f) => Ok(fs.push(f)),
            },
        }
    }
}

/// Where the structure ends after laying the formats out in order: each is
/// placed at the next multiple of its alignment.
pub open spec fn spec_end_offset(formats: Seq<VertexFormat>) -> int
    decreases formats.len(),
{
    if formats.len() == 0 {
        0
    } else {
        spec_round_up(spec_end_offset(formats.drop_last()), formats.last().spec_align() as int)
            + formats.last().spec_size() as int
    }
}

/// The byte offset of the attribute at position `i`.
pub open spec fn spec_offset_at(formats: Seq<VertexFormat>, i: int) -> int {
    spec_round_up(spec_end_offset(formats.take(i)), formats[i].spec_align() as int)
}

/// The largest alignment among the formats, 1 when there are none.
pub open spec fn spec_max_align(formats: Seq<VertexFormat>) -> int
    decreases formats.len(),
{
    if formats.len() == 0 {
        1
    } else {
        let rest = spec_max_align(formats.drop_last());
        let a = formats.last().spec_align() as int;
        if a > rest {
            a
        } else {
            rest
        }
    }
}

/// The stride of the structure: its end rounded up to its alignment.
pub open spec fn spec_stride(formats: Seq<VertexFormat>) -> int {
    spec_round_up(spec_end_offset(formats), spec_max_align(formats))
}

/// One resolved vertex attribute: the field's name and location, its format,
/// and its byte offset within the structure.
#[derive(Debug)]
pub struct VertexAttribute {
    pub name: String,
    pub location: u32,
    pub format: VertexFormat,
    pub offset: u64,
}

/// The resolved layout of one vertex-input structure: its attributes in
/// location order and its stride.
#[derive(Debug)]
pub struct VertexLayout {
    pub name: String,
    pub attributes: Vec<VertexAttribute>,
    pub stride: u64,
}

/// The attributes of the given fields under the given formats.
pub open spec fn spec_attributes(fields: Seq<LocatedField>, formats: Seq<VertexFormat>) -> Seq<
    VertexAttribute,
> {
    Seq::new(
        fields.len(),
        |i: int|
            VertexAttribute {
                name: fields[i].name,
                location: fields[i].location,
                format: formats[i],
                offset: spec_offset_at(formats, i) as u64,
            },
    )
}

/// The layout list already carries a structure of this name.
pub open spec fn has_layout_name(
    ls: Seq<(String, Seq<VertexAttribute>, u64)>,
    n: Seq<char>,
) -> bool {
    exists|p: int| 0 <= p < ls.len() && (#[trigger] ls[p]).0@ == n
}

/// What one entry-point input adds to the layouts: nothing unless it is a
/// named structure, not seen before, with at least one located field; else
/// its attributes and stride, or the error of its first refused field.
pub open spec fn spec_add_input(
    m: ShaderModule,
    ls: Seq<(String, Seq<VertexAttribute>, u64)>,
    h: int,
) -> Result<Seq<(String, Seq<VertexAttribute>, u64)>, CreateModuleError> {
    let t = m.types@[h];
    match (t.name, t.inner) {
        (Some(nm), TypeInner::Struct { members }) => {
            if has_layout_name(ls, nm@) {
                Ok(ls)
            } else {
                let fields = spec_vertex_fields(members@);
                if fields.len() == 0 {
                    Ok(ls)
                } else {
                    match spec_field_formats(m, fields) {
                        Err(e) => Err(e),
                        Ok(formats) => Ok(
                            ls.push(
                                (nm, spec_attributes(fields, formats), spec_stride(formats) as u64),
                            ),
                        ),
                    }
                }
            }
        },
        _ => Ok(ls),
    }
}

/// The type handles an entry point feeds the vertex layouts: its inputs when
/// it is a vertex entry, nothing otherwise.
pub open spec fn entry_handles(m: ShaderModule, e: int) -> Seq<int> {
    if m.entry_points@[e].stage == ShaderStage::Vertex {
        m.entry_points@[e].inputs@.map_values(|h: usize| h as int)
    } else {
        Seq::empty()
    }
}

/// The vertex-entry input handles of the first `e` entry points, in order.
pub open spec fn handles_upto(m: ShaderModule, e: int) -> Seq<int>
    decreases e,
{
    if e <= 0 {
        Seq::empty()
    } else {
        handles_upto(m, e - 1) + entry_handles(m, e - 1)
    }
}

/// Every vertex-entry input handle of the module, in order.
pub open spec fn vertex_input_handles(m: ShaderModule) -> Seq<int> {
    handles_upto(m, m.entry_points@.len() as int)
}

/// The layouts after the given inputs, or the first error among them.
pub open spec fn spec_layouts_over(m: ShaderModule, hs: Seq<int>) -> Result<
    Seq<(String, Seq<VertexAttribute>, u64)>,
    CreateModuleError,
>
    decreases hs.len(),
{
    if hs.len() == 0 {
        Ok(Seq::empty())
    } else {
        match spec_layouts_over(m, hs.drop_last()) {
            Err(e) => Err(e),
            Ok(ls) => spec_add_input(m, ls, hs.last()),
        }
    }
}

/// The whole resolution: one layout per vertex-input structure, keyed by
/// structure name, in first-reference order; structures no vertex entry
/// point refers to are left out.
pub open spec fn spec_vertex_layouts(m: ShaderModule) -> Result<
    Seq<(String, Seq<VertexAttribute>, u64)>,
    CreateModuleError,
> {
    spec_layouts_over(m, vertex_input_handles(m))
}

/// The executable layouts carry exactly the mathematical ones.
pub open spec fn layouts_match(
    v: Seq<VertexLayout>,
    ls: Seq<(String, Seq<VertexAttribute>, u64)>,
) -> bool {
    &&& v.len() == ls.len()
    &&& forall|p: int|
        0 <= p < v.len() ==> (#[trigger] v[p]).name == ls[p].0 && v[p].attributes@ == ls[p].1
            && v[p].stride == ls[p].2
}

proof fn lemma_insert_by_loc_at(s: Seq<LocatedField>, x: LocatedField, pos: int)
    requires
        0 <= pos <= s.len(),
        forall|i: int| pos <= i < s.len() ==> (#[trigger] s[i]).location > x.location,
        pos > 0 ==> s[pos - 1].location <= x.location,
    ensures
        spec_insert_by_loc(s, x) =~= s.insert(pos, x),
    decreases s.len(),
{
    if s.len() == 0 {
        assert(spec_insert_by_loc(s, x) =~= s.insert(0, x));
    } else if s.last().location <= x.location {
        assert(pos == s.len());
        assert(spec_insert_by_loc(s, x) =~= s.insert(pos, x));
    } else {
        assert(pos < s.len());
        lemma_insert_by_loc_at(s.drop_last(), x, pos);
        s.drop_last().insert_ensures(pos, x);
        s.insert_ensures(pos, x);
        assert(spec_insert_by_loc(s, x) =~= s.insert(pos, x));
    }
}

/// Once a field is refused, the remaining fields do not change the outcome.
proof fn lemma_formats_prefix_err(m: ShaderModule, fields: Seq<LocatedField>, k: int)
    requires
        0 <= k <= fields.len(),
        spec_field_formats(m, fields.take(k)) is Err,
    ensures
        spec_field_formats(m, fields) == spec_field_formats(m, fields.take(k)),
    decreases fields.len() - k,
{
    if k == fields.len() {
        assert(fields.take(k) =~= fields);
    } else {
        assert(fields.take(k + 1).drop_last() =~= fields.take(k));
        assert(spec_field_formats(m, fields.take(k + 1)) == spec_field_formats(m, fields.take(k)));
        lemma_formats_prefix_err(m, fields, k + 1);
    }
}

/// Once an input is refused, the remaining inputs do not change the outcome.
proof fn lemma_layouts_prefix_err(m: ShaderModule, hs: Seq<int>, k: int)
    requires
        0 <= k <= hs.len(),
        spec_layouts_over(m, hs.take(k)) is Err,
    ensures
        spec_layouts_over(m, hs) == spec_layouts_over(m, hs.take(k)),
    decreases hs.len() - k,
{
    if k == hs.len() {
        assert(hs.take(k) =~= hs);
    } else {
        assert(hs.take(k + 1).drop_last() =~= hs.take(k));
        assert(spec_layouts_over(m, hs.take(k + 1)) == spec_layouts_over(m, hs.take(k)));
        lemma_layouts_prefix_err(m, hs, k + 1);
    }
}

/// The handles of the first `e1` entries head the handles of the first `e2`.
proof fn lemma_handles_upto_prefix(m: ShaderModule, e1: int, e2: int)
    requires
        0 <= e1 <= e2,
    ensures
        handles_upto(m, e1).len() <= handles_upto(m, e2).len(),
        handles_upto(m, e2).take(handles_upto(m, e1).len() as int) =~= handles_upto(m, e1),
    decreases e2 - e1,
{
    if e1 < e2 {
        lemma_handles_upto_prefix(m, e1, e2 - 1);
    }
}

proof fn lemma_round_up_lower(o: int, a: int)
    requires
        0 <= o,
        1 <= a,
    ensures
        o <= spec_round_up(o, a) < o + a,
{
}

proof fn lemma_format_bounds()
    ensures
        forall|f: VertexFormat| 4 <= (#[trigger] f.spec_size()) <= 32,
        forall|f: VertexFormat| 1 <= (#[trigger] f.spec_align()) <= 32,
{
}

proof fn lemma_end_nonneg(formats: Seq<VertexFormat>)
    ensures
        0 <= spec_end_offset(formats),
    decreases formats.len(),
{
    if formats.len() > 0 {
        lemma_end_nonneg(formats.drop_last());
        lemma_format_bounds();
        lemma_round_up_lower(
            spec_end_offset(formats.drop_last()),
            formats.last().spec_align() as int,
        );
    }
}

/// Law: under the natural-alignment layout the attribute offsets strictly
/// increase with position — every later field lies strictly beyond the start
/// of every earlier one.
pub proof fn lemma_offsets_increase(formats: Seq<VertexFormat>, i: int, j: int)
    requires
        0 <= i < j < formats.len(),
    ensures
        spec_offset_at(formats, i) < spec_offset_at(formats, j),
    decreases j - i,
{
    if j > i + 1 {
        lemma_offsets_increase(formats, i, j - 1);
        lemma_offsets_increase(formats, j - 1, j);
    } else {
        assert(formats.take(j).drop_last() =~= formats.take(i));
        assert(formats.take(j).last() == formats[i]);
        lemma_format_bounds();
        lemma_end_nonneg(formats.take(j));
        lemma_round_up_lower(spec_end_offset(formats.take(j)), formats[j].spec_align() as int);
    }
}

/// The mathematical content of a layout list.
pub open spec fn layouts_view(v: Seq<VertexLayout>) -> Seq<(String, Seq<VertexAttribute>, u64)> {
    v.map_values(|l: VertexLayout| (l.name, l.attributes@, l.stride))
}

#[verifier::loop_isolation(false)]
fn insert_by_location(v: &mut Vec<LocatedField>, x: LocatedField)
    ensures
        final(v)@ == spec_insert_by_loc(old(v)@, x),
        final(v)@.len() == old(v)@.len() + 1,
        forall|i: int|
            0 <= i < final(v)@.len() ==> (#[trigger] final(v)@[i]) == x || old(v)@.contains(
                final(v)@[i],
            ),
{
    let mut pos: usize = v.len();
    while pos > 0 && v[pos - 1].location > x.location
        invariant
            pos <= v@.len(),
            forall|i: int| pos <= i < v@.len() ==> (#[trigger] v@[i]).location > x.location,
        decreases pos,
    {
        pos -= 1;
    }
    proof {
        lemma_insert_by_loc_at(v@, x, pos as int);
        v@.insert_ensures(pos as int, x);
    }
    v.insert(pos, x);
    proof {
        assert forall|i: int|
            0 <= i < v@.len() implies (#[trigger] v@[i]) == x || old(v)@.contains(v@[i]) by {
            if i < pos {
                assert(v@[i] == old(v)@[i]);
            } else if i > pos {
                assert(v@[i] == old(v)@[i - 1]);
            }
        }
    }
}

/// Fold one entry-point input into the layouts, exactly as
/// [`spec_add_input`] says: untouched unless the input is a named structure
/// with located fields that was not seen yet; on the first field without a
/// vertex format, the error, with the layouts untouched.
#[verifier::loop_isolation(false)]
fn add_input_layout(module: &ShaderModule, result: &mut Vec<VertexLayout>, h: usize) -> (r: Result<
    (),
    CreateModuleError,
>)
    requires
        module.wf(),
        h < module.types@.len(),
    ensures
        r is Ok ==> spec_add_input(*module, layouts_view(old(result)@), h as int) == Ok::<
            Seq<(String, Seq<VertexAttribute>, u64)>,
            CreateModuleError,
        >(layouts_view(final(result)@)),
        r matches Err(e) ==> spec_add_input(*module, layouts_view(old(result)@), h as int)
            == Err::<Seq<(String, Seq<VertexAttribute>, u64)>, CreateModuleError>(e)
            && final(result)@ == old(result)@,
{
    let ghost m = *module;
    let ghost ls0 = layouts_view(result@);
    let t = &module.types[h];
    match (&t.name, &t.inner) {
        (Some(nm), TypeInner::Struct { members }) => {
            // Structures already resolved under this name are not repeated.
            let mut seen = false;
            let rlen = result.len();
            let mut p: usize = 0;
            while p < rlen
                invariant
                    p <= rlen,
                    seen <==> exists|q: int|
                        0 <= q < p && (#[trigger] result@[q]).name@ == nm@,
                decreases rlen - p,
            {
                if result[p].name == *nm {
                    seen = true;
                }
                p += 1;
            }
            proof {
                assert forall|q: int| 0 <= q < ls0.len() implies (#[trigger] ls0[q]).0
                    == result@[q].name by {}
                assert(seen <==> has_layout_name(ls0, nm@)) by {
                    if seen {
                        let q = choose|q: int|
                            0 <= q < result@.len() && (#[trigger] result@[q]).name@ == nm@;
                        assert(ls0[q].0@ == nm@);
                    }
                    if has_layout_name(ls0, nm@) {
                        let q = choose|q: int| 0 <= q < ls0.len() && (#[trigger] ls0[q]).0@ == nm@;
                        assert(result@[q].name@ == nm@);
                    }
                }
            }
            if seen {
                return Ok(());
            }
            // Gather the located fields in declaration order.
            let mut fields: Vec<LocatedField> = Vec::new();
            let mlen = members.len();
            let mut k: usize = 0;
            while k < mlen
                invariant
                    k <= mlen,
                    fields@ == located_fields(members@.take(k as int)),
                    fields@.len() <= k,
                    forall|i: int|
                        0 <= i < fields@.len() ==> (#[trigger] fields@[i]).ty < m.types@.len(),
                decreases mlen - k,
            {
                let mem = &members[k];
                proof {
                    members@.lemma_filter_map_take_succ(located_fn(), k as int);
                    assert(m.types@[h as int].wf(m.types@.len() as int));
                }
                match mem.location {
                    Some(l) => {
                        fields.push(
                            LocatedField { location: l, name: mem.name.clone(), ty: mem.ty },
                        );
                        proof {
                            assert(located_fn()(members@[k as int]) matches Some(lf)
                                && lf.location == l && lf.name == members@[k as int].name && lf.ty
                                == members@[k as int].ty);
                            assert(fields@ =~= located_fields(members@.take(k as int + 1)));
                        }
                    },
                    None => {
                        proof {
                            assert(located_fn()(members@[k as int]) is None);
                            assert(fields@ =~= located_fields(members@.take(k as int + 1)));
                        }
                    },
                }
                k += 1;
            }
            proof {
                assert(members@.take(mlen as int) =~= members@);
            }
            // Order the fields by location, stably.
            let ghost orig = fields@;
            let total = fields.len();
            let mut sorted: Vec<LocatedField> = Vec::new();
            let mut i: usize = 0;
            while i < total
                invariant
                    i <= total,
                    fields@ == orig.skip(i as int),
                    sorted@ == spec_sort_by_loc(orig.take(i as int)),
                    sorted@.len() == i,
                    forall|q: int|
                        0 <= q < sorted@.len() ==> (#[trigger] sorted@[q]).ty < m.types@.len(),
                decreases total - i,
            {
                let x = fields.remove(0);
                proof {
                    assert(x == orig[i as int]);
                    assert(fields@ =~= orig.skip(i as int + 1));
                    assert(orig.take(i as int + 1).drop_last() =~= orig.take(i as int));
                    assert(orig.take(i as int + 1).last() == orig[i as int]);
                    assert(orig[i as int].ty < m.types@.len());
                }
                let ghost sorted_before = sorted@;
                insert_by_location(&mut sorted, x);
                proof {
                    assert(sorted@ == spec_sort_by_loc(orig.take(i as int + 1)));
                    assert forall|q: int|
                        0 <= q < sorted@.len() implies (#[trigger] sorted@[q]).ty
                        < m.types@.len() by {
                        if sorted@[q] != x {
                            assert(sorted_before.contains(sorted@[q]));
                            let w = choose|w: int|
                                0 <= w < sorted_before.len() && sorted_before[w] == sorted@[q];
                        }
                    }
                }
                i += 1;
            }
            proof {
                assert(orig.take(total as int) =~= orig);
                assert(sorted@ == spec_vertex_fields(members@));
            }
            let slen = sorted.len();
            if slen == 0 {
                return Ok(());
            }
            proof {
                assert(slen <= mlen);
                assert(mlen <= crate::shader::MAX_STRUCT_MEMBERS);
            }
            // Lay the fields out: each at the next multiple of its format's
            // alignment, the structure's end rounded up to the largest one.
            let mut attrs: Vec<VertexAttribute> = Vec::new();
            let mut end_off: u64 = 0;
            let mut max_al: u64 = 1;
            let ghost mut fseq: Seq<VertexFormat> = Seq::empty();
            let mut i2: usize = 0;
            while i2 < slen
                invariant
                    i2 <= slen,
                    spec_field_formats(m, sorted@.take(i2 as int)) == Ok::<
                        Seq<VertexFormat>,
                        CreateModuleError,
                    >(fseq),
                    fseq.len() == i2 as int,
                    end_off as int == spec_end_offset(fseq),
                    max_al as int == spec_max_align(fseq),
                    1 <= max_al <= 32,
                    end_off as int <= 64 * (i2 as int),
                    attrs@.len() == i2 as int,
                    forall|q: int|
                        0 <= q < i2 as int ==> (#[trigger] attrs@[q]).name == sorted@[q].name
                            && attrs@[q].location == sorted@[q].location && attrs@[q].format
                            == fseq[q] && attrs@[q].offset == spec_offset_at(fseq, q) as u64,
                decreases slen - i2,
            {
                let fld = &sorted[i2];
                proof {
                    assert(sorted@.take(i2 as int + 1).drop_last() =~= sorted@.take(i2 as int));
                    assert(sorted@.take(i2 as int + 1).last() == sorted@[i2 as int]);
                }
                let fmt = match vertex_format(&module.types[fld.ty].inner) {
                    Ok(ft) => ft,
                    Err(err) => {
                        proof {
                            assert(spec_field_formats(m, sorted@.take(i2 as int + 1)) == Err::<
                                Seq<VertexFormat>,
                                CreateModuleError,
                            >(err));
                            lemma_formats_prefix_err(m, sorted@, i2 as int + 1);
                            assert(spec_add_input(m, ls0, h as int) == Err::<
                                Seq<(String, Seq<VertexAttribute>, u64)>,
                                CreateModuleError,
                            >(err));
                        }
                        return Err(err);
                    },
                };
                let al = fmt.align();
                let sz = fmt.size();
                let off = round_up(end_off, al);
                attrs.push(
                    VertexAttribute {
                        name: fld.name.clone(),
                        location: fld.location,
                        format: fmt,
                        offset: off,
                    },
                );
                end_off = off + sz;
                if al > max_al {
                    max_al = al;
                }
                proof {
                    let fseq2 = fseq.push(fmt);
                    assert(fseq2.drop_last() =~= fseq);
                    assert(fseq2.last() == fmt);
                    assert(spec_field_formats(m, sorted@.take(i2 as int + 1)) == Ok::<
                        Seq<VertexFormat>,
                        CreateModuleError,
                    >(fseq2));
                    assert(end_off as int == spec_end_offset(fseq2));
                    assert(max_al as int == spec_max_align(fseq2));
                    assert(fseq2.take(i2 as int) =~= fseq);
                    assert(attrs@[i2 as int].offset == spec_offset_at(fseq2, i2 as int) as u64);
                    assert forall|q: int|
                        0 <= q < i2 as int implies spec_offset_at(fseq2, q) == spec_offset_at(
                        fseq,
                        q,
                    ) by {
                        assert(fseq2.take(q) =~= fseq.take(q));
                        assert(fseq2[q] == fseq[q]);
                    }
                    fseq = fseq2;
                }
                i2 += 1;
            }
            proof {
                assert(sorted@.take(slen as int) =~= sorted@);
            }
            let stride = round_up(end_off, max_al);
            let name_owned = nm.clone();
            result.push(VertexLayout { name: name_owned, attributes: attrs, stride });
            proof {
                let entry = (
                    m.types@[h as int].name->Some_0,
                    spec_attributes(sorted@, fseq),
                    spec_stride(fseq) as u64,
                );
                assert(attrs@ =~= spec_attributes(sorted@, fseq));
                assert(layouts_view(result@) =~= ls0.push(entry));
                assert(spec_add_input(m, ls0, h as int) == Ok::<
                    Seq<(String, Seq<VertexAttribute>, u64)>,
                    CreateModuleError,
                >(ls0.push(entry)));
            }
            Ok(())
        },
        _ => {
            proof {
                assert(spec_add_input(m, ls0, h as int) == Ok::<
                    Seq<(String, Seq<VertexAttribute>, u64)>,
                    CreateModuleError,
                >(ls0));
            }
            Ok(())
        },
    }
}

/// Resolve the vertex layouts of a module: for every vertex entry point, in
/// order, every input parameter that is a named structure with located
/// fields becomes one layout, the first time its name is met. The outcome
/// equals [`spec_vertex_layouts`] on the module.
#[verifier::loop_isolation(false)]
pub fn resolve_vertex_layouts(module: &ShaderModule) -> (r: Result<
    Vec<VertexLayout>,
    CreateModuleError,
>)
    requires
        module.wf(),
    ensures
        (match r {
            Ok(v) => spec_vertex_layouts(*module) == Ok::<
                Seq<(String, Seq<VertexAttribute>, u64)>,
                CreateModuleError,
            >(layouts_view(v@)),
            Err(e) => spec_vertex_layouts(*module) == Err::<
                Seq<(String, Seq<VertexAttribute>, u64)>,
                CreateModuleError,
            >(e),
        }),
{
    let ghost m = *module;
    let mut result: Vec<VertexLayout> = Vec::new();
    let n_entries = module.entry_points.len();
    proof {
        assert(layouts_view(result@) =~= Seq::<(String, Seq<VertexAttribute>, u64)>::empty());
        assert(handles_upto(m, 0) =~= Seq::<int>::empty());
    }
    let mut e: usize = 0;
    while e < n_entries
        invariant
            e <= n_entries,
            spec_layouts_over(m, handles_upto(m, e as int)) == Ok::<
                Seq<(String, Seq<VertexAttribute>, u64)>,
                CreateModuleError,
            >(layouts_view(result@)),
        decreases n_entries - e,
    {
        let ep = &module.entry_points[e];
        if matches!(ep.stage, ShaderStage::Vertex) {
            let n_inputs = ep.inputs.len();
            let mut j: usize = 0;
            while j < n_inputs
                invariant
                    j <= n_inputs,
                    spec_layouts_over(
                        m,
                        handles_upto(m, e as int) + entry_handles(m, e as int).take(j as int),
                    ) == Ok::<Seq<(String, Seq<VertexAttribute>, u64)>, CreateModuleError>(
                        layouts_view(result@),
                    ),
                decreases n_inputs - j,
            {
                let ghost prefix = handles_upto(m, e as int) + entry_handles(m, e as int).take(
                    j as int,
                );
                let h = ep.inputs[j];
                proof {
                    assert(m.entry_points@[e as int].inputs@[j as int] < m.types@.len());
                    assert(entry_handles(m, e as int)[j as int] == h as int);
                    assert(prefix.push(h as int) =~= handles_upto(m, e as int) + entry_handles(
                        m,
                        e as int,
                    ).take(j as int + 1));
                    assert((prefix.push(h as int)).drop_last() =~= prefix);
                }
                match add_input_layout(module, &mut result, h) {
                    Ok(_) => {
                        proof {
                            assert(spec_layouts_over(m, prefix.push(h as int)) == Ok::<
                                Seq<(String, Seq<VertexAttribute>, u64)>,
                                CreateModuleError,
                            >(layouts_view(result@)));
                        }
                    },
                    Err(err) => {
                        proof {
                            let pfx2 = prefix.push(h as int);
                            assert(spec_layouts_over(m, pfx2) == Err::<
                                Seq<(String, Seq<VertexAttribute>, u64)>,
                                CreateModuleError,
                            >(err));
                            assert(handles_upto(m, e as int + 1) == handles_upto(m, e as int)
                                + entry_handles(m, e as int));
                            assert(handles_upto(m, e as int + 1).take(pfx2.len() as int) =~= pfx2);
                            lemma_handles_upto_prefix(m, e as int + 1, n_entries as int);
                            let full = vertex_input_handles(m);
                            let l1 = handles_upto(m, e as int + 1).len() as int;
                            assert(full.take(l1) =~= handles_upto(m, e as int + 1));
                            assert(full.take(pfx2.len() as int) =~= pfx2) by {
                                assert forall|q: int|
                                    0 <= q < pfx2.len() implies full.take(pfx2.len() as int)[q]
                                    == pfx2[q] by {
                                    assert(full[q] == full.take(l1)[q]);
                                    assert(handles_upto(m, e as int + 1)[q] == handles_upto(
                                        m,
                                        e as int + 1,
                                    ).take(pfx2.len() as int)[q]);
                                }
                            }
                            lemma_layouts_prefix_err(m, full, pfx2.len() as int);
                        }
                        return Err(err);
                    },
                }
                j += 1;
            }
            proof {
                assert(entry_handles(m, e as int).take(n_inputs as int) =~= entry_handles(
                    m,
                    e as int,
                ));
                assert(handles_upto(m, e as int + 1) == handles_upto(m, e as int) + entry_handles(
                    m,
                    e as int,
                ));
            }
        } else {
            proof {
                assert(entry_handles(m, e as int) =~= Seq::<int>::empty());
                assert(handles_upto(m, e as int) + entry_handles(m, e as int) =~= handles_upto(
                    m,
                    e as int,
                ));
                assert(handles_upto(m, e as int + 1) == handles_upto(m, e as int) + entry_handles(
                    m,
                    e as int,
                ));
            }
        }
        e += 1;
    }
    proof {
        assert(vertex_input_handles(m) == handles_upto(m, n_entries as int));
    }
    Ok(result)
}

} // verus!
