//! The group extractor and validator: bound globals bucketed by group index.
//!
//! [`get_bind_group_data`] walks a module's global variables in declaration
//! order. Every global with a `(group, binding)` pair is classified (see
//! [`crate::binding_type`]) and appended to its group's bucket, keeping
//! first-seen order within the bucket; a binding index already present in the
//! bucket is refused at once. After the walk, the group indices must form the
//! contiguous range `0..n`, and the buckets are handed out ordered by group
//! index.
//!
//! The whole outcome — the map on success, and which error on which module —
//! is pinned by [`spec_resolve`], a fold over the declarations in order, so
//! that the first offending declaration decides the error.

use vstd::prelude::*;

use crate::binding_type::{classify_binding_type, spec_classify, BindingType};
use crate::shader::{AddressSpace, GlobalVariable, ShaderModule};
use crate::CreateModuleError;

verus! {

/// One resolved binding: the declaring global's name, the binding index it
/// was declared with, a handle to its type, its address space, and its
/// classified binding type.
#[derive(Debug, Clone)]
pub struct GroupBinding {
    pub name: Option<String>,
    pub binding_index: u32,
    pub ty: usize,
    pub address_space: AddressSpace,
    pub binding_type: BindingType,
}

/// The bindings of one group, in declaration order of their globals.
#[derive(Debug, Clone)]
pub struct GroupData {
    pub bindings: Vec<GroupBinding>,
}

impl View for GroupData {
    type V = Seq<GroupBinding>;

    open spec fn view(&self) -> Seq<GroupBinding> {
        self.bindings@
    }
}

/// The resolved map: one `(group index, bucket)` pair per group, in ascending
/// group order. On success the group indices are exactly `0..len`.
#[derive(Debug, Clone)]
pub struct BindGroupMap {
    pub groups: Vec<(u32, GroupData)>,
}

/// The mathematical content of a bucket list.
pub open spec fn groups_view(s: Seq<(u32, GroupData)>) -> Seq<(u32, Seq<GroupBinding>)> {
    s.map_values(|p: (u32, GroupData)| (p.0, p.1@))
}

impl View for BindGroupMap {
    type V = Seq<(u32, Seq<GroupBinding>)>;

    open spec fn view(&self) -> Seq<(u32, Seq<GroupBinding>)> {
        groups_view(self.groups@)
    }
}

impl BindGroupMap {
    /// The number of groups.
    pub fn len(&self) -> (n: usize)
        ensures
            n == self@.len(),
    {
        self.groups.len()
    }
}

/// Whether a global is a bound resource at all.
pub open spec fn is_bound(gv: GlobalVariable) -> bool {
    gv.binding is Some
}

/// The classification of a global's type in its address space.
pub open spec fn classify_of(m: ShaderModule, gv: GlobalVariable) -> Result<
    BindingType,
    CreateModuleError,
> {
    spec_classify(m.types@[gv.ty as int].inner, gv.space)
}

/// Whether that classification succeeds.
pub open spec fn classifies(m: ShaderModule, gv: GlobalVariable) -> bool {
    classify_of(m, gv) is Ok
}

/// Every bound global of the module classifies.
pub open spec fn all_classify(m: ShaderModule) -> bool {
    forall|i: int|
        0 <= i < m.global_variables@.len() && is_bound(#[trigger] m.global_variables@[i])
            ==> classifies(m, m.global_variables@[i])
}

/// The global at index `i` is declared at group `g`, binding `b`, and
/// classifies.
pub open spec fn slot_entry(m: ShaderModule, i: int, g: u32, b: u32) -> bool {
    &&& 0 <= i < m.global_variables@.len()
    &&& m.global_variables@[i].binding matches Some(rb) && rb.group == g && rb.binding == b
    &&& classifies(m, m.global_variables@[i])
}

/// The globals at `i < j` are both bound, to the same group and the same
/// binding index.
pub open spec fn dup_pair(m: ShaderModule, i: int, j: int) -> bool {
    &&& 0 <= i < j < m.global_variables@.len()
    &&& m.global_variables@[i].binding matches Some(ri)
        && m.global_variables@[j].binding matches Some(rj) && ri.group == rj.group && ri.binding
        == rj.binding
}

/// No two globals share a `(group, binding)` pair.
pub open spec fn no_duplicates(m: ShaderModule) -> bool {
    forall|i: int, j: int| !(#[trigger] dup_pair(m, i, j))
}

/// What one bound, classified global contributes to the bucket of group `g`,
/// if anything.
pub open spec fn group_member_fn(m: ShaderModule, g: u32) -> spec_fn(GlobalVariable) -> Option<
    GroupBinding,
> {
    |gv: GlobalVariable|
        match (gv.binding, spec_classify(m.types@[gv.ty as int].inner, gv.space)) {
            (Some(rb), Ok(bt)) => if rb.group == g {
                Some(
                    GroupBinding {
                        name: gv.name,
                        binding_index: rb.binding,
                        ty: gv.ty,
                        address_space: gv.space,
                        binding_type: bt,
                    },
                )
            } else {
                None
            },
            _ => None,
        }
}

/// The bucket of group `g` after the first `k` declarations: the bound,
/// classified globals declared at group `g`, in declaration order.
pub open spec fn declared_group_upto(m: ShaderModule, k: int, g: u32) -> Seq<GroupBinding> {
    m.global_variables@.take(k).filter_map(group_member_fn(m, g))
}

/// The bucket of group `g` over the whole module.
pub open spec fn declared_group(m: ShaderModule, g: u32) -> Seq<GroupBinding> {
    declared_group_upto(m, m.global_variables@.len() as int, g)
}

/// Some binding in the bucket carries this binding index.
pub open spec fn bucket_has(bucket: Seq<GroupBinding>, binding: u32) -> bool {
    exists|q: int| 0 <= q < bucket.len() && (#[trigger] bucket[q]).binding_index == binding
}

/// No two bindings of the bucket share a binding index.
pub open spec fn distinct_bindings(bucket: Seq<GroupBinding>) -> bool {
    forall|q1: int, q2: int|
        0 <= q1 < q2 < bucket.len() ==> (#[trigger] bucket[q1]).binding_index != (
        #[trigger] bucket[q2]).binding_index
}

/// The bucket list carries group `g`.
pub open spec fn has_key(gs: Seq<(u32, Seq<GroupBinding>)>, g: u32) -> bool {
    exists|p: int| 0 <= p < gs.len() && (#[trigger] gs[p]).0 == g
}

/// Group keys strictly ascend.
pub open spec fn sorted_keys(gs: Seq<(u32, Seq<GroupBinding>)>) -> bool {
    forall|i: int, j: int|
        0 <= i < j < gs.len() ==> (#[trigger] gs[i]).0 < (#[trigger] gs[j]).0
}

/// Group keys are exactly the positions: the contiguous range `0..len`.
pub open spec fn contiguous(gs: Seq<(u32, Seq<GroupBinding>)>) -> bool {
    forall|i: int| 0 <= i < gs.len() ==> (#[trigger] gs[i]).0 as int == i
}

/// The bucket of group `g`, if the list carries that group.
pub open spec fn spec_lookup(gs: Seq<(u32, Seq<GroupBinding>)>, g: u32) -> Option<
    Seq<GroupBinding>,
>
    decreases gs.len(),
{
    if gs.len() == 0 {
        None
    } else if gs[0].0 == g {
        Some(gs[0].1)
    } else {
        spec_lookup(gs.drop_first(), g)
    }
}

/// The bucket list with `b` appended to the bucket of group `g`, the bucket
/// created in key order if the group is new.
pub open spec fn spec_insert(
    gs: Seq<(u32, Seq<GroupBinding>)>,
    g: u32,
    b: GroupBinding,
) -> Seq<(u32, Seq<GroupBinding>)>
    decreases gs.len(),
{
    if gs.len() == 0 {
        seq![(g, seq![b])]
    } else if g < gs[0].0 {
        seq![(g, seq![b])] + gs
    } else if g == gs[0].0 {
        seq![(gs[0].0, gs[0].1.push(b))] + gs.drop_first()
    } else {
        seq![gs[0]] + spec_insert(gs.drop_first(), g, b)
    }
}

/// One step of the walk: what the declaration `gv` does to the buckets.
/// An unbound global changes nothing; a bound one is classified — its error
/// aborts — and refused if its binding index is already in its bucket, else
/// appended.
pub open spec fn spec_step(
    m: ShaderModule,
    gs: Seq<(u32, Seq<GroupBinding>)>,
    gv: GlobalVariable,
) -> Result<Seq<(u32, Seq<GroupBinding>)>, CreateModuleError> {
    match gv.binding {
        None => Ok(gs),
        Some(rb) => match spec_classify(m.types@[gv.ty as int].inner, gv.space) {
            Err(e) => Err(e),
            Ok(bt) => {
                let bucket = match spec_lookup(gs, rb.group) {
                    Some(x) => x,
                    None => Seq::empty(),
                };
                if bucket_has(bucket, rb.binding) {
                    Err(CreateModuleError::DuplicateBinding { binding: rb.binding })
                } else {
                    Ok(
                        spec_insert(
                            gs,
                            rb.group,
                            GroupBinding {
                                name: gv.name,
                                binding_index: rb.binding,
                                ty: gv.ty,
                                address_space: gv.space,
                                binding_type: bt,
                            },
                        ),
                    )
                }
            },
        },
    }
}

/// The buckets after the first `k` declarations, or the error of the first
/// offending declaration among them.
pub open spec fn spec_collect(m: ShaderModule, k: int) -> Result<
    Seq<(u32, Seq<GroupBinding>)>,
    CreateModuleError,
>
    decreases k,
{
    if k <= 0 {
        Ok(Seq::empty())
    } else {
        match spec_collect(m, k - 1) {
            Err(e) => Err(e),
            Ok(gs) => spec_step(m, gs, m.global_variables@[k - 1]),
        }
    }
}

/// The whole resolution: the walk over every declaration, then the demand
/// that the group indices form exactly `0..n`.
pub open spec fn spec_resolve(m: ShaderModule) -> Result<
    Seq<(u32, Seq<GroupBinding>)>,
    CreateModuleError,
> {
    match spec_collect(m, m.global_variables@.len() as int) {
        Err(e) => Err(e),
        Ok(gs) => if contiguous(gs) {
            Ok(gs)
        } else {
            Err(CreateModuleError::NonConsecutiveBindGroups)
        },
    }
}

proof fn lemma_lookup_some(gs: Seq<(u32, Seq<GroupBinding>)>, g: u32, pos: int)
    requires
        sorted_keys(gs),
        0 <= pos < gs.len(),
        gs[pos].0 == g,
    ensures
        spec_lookup(gs, g) == Some(gs[pos].1),
    decreases pos,
{
    if pos == 0 {
    } else {
        assert(gs[0].0 < gs[pos].0);
        assert(gs.drop_first()[pos - 1] == gs[pos]);
        assert(sorted_keys(gs.drop_first())) by {
            assert forall|i: int, j: int| 0 <= i < j < gs.drop_first().len() implies (
            #[trigger] gs.drop_first()[i]).0 < (#[trigger] gs.drop_first()[j]).0 by {
                assert(gs.drop_first()[i] == gs[i + 1]);
                assert(gs.drop_first()[j] == gs[j + 1]);
            }
        }
        lemma_lookup_some(gs.drop_first(), g, pos - 1);
    }
}

proof fn lemma_lookup_none(gs: Seq<(u32, Seq<GroupBinding>)>, g: u32)
    requires
        forall|p: int| 0 <= p < gs.len() ==> (#[trigger] gs[p]).0 != g,
    ensures
        spec_lookup(gs, g) is None,
    decreases gs.len(),
{
    if gs.len() > 0 {
        assert forall|p: int| 0 <= p < gs.drop_first().len() implies (#[trigger] gs.drop_first()[
        p]).0 != g by {
            assert(gs.drop_first()[p] == gs[p + 1]);
        }
        lemma_lookup_none(gs.drop_first(), g);
    }
}

proof fn lemma_insert_update(gs: Seq<(u32, Seq<GroupBinding>)>, g: u32, b: GroupBinding, pos: int)
    requires
        sorted_keys(gs),
        0 <= pos < gs.len(),
        gs[pos].0 == g,
    ensures
        spec_insert(gs, g, b) =~= gs.update(pos, (g, gs[pos].1.push(b))),
    decreases pos,
{
    if pos == 0 {
        assert(spec_insert(gs, g, b) =~= gs.update(0, (g, gs[0].1.push(b))));
    } else {
        assert(gs[0].0 < gs[pos].0);
        assert(sorted_keys(gs.drop_first())) by {
            assert forall|i: int, j: int| 0 <= i < j < gs.drop_first().len() implies (
            #[trigger] gs.drop_first()[i]).0 < (#[trigger] gs.drop_first()[j]).0 by {
                assert(gs.drop_first()[i] == gs[i + 1]);
                assert(gs.drop_first()[j] == gs[j + 1]);
            }
        }
        assert(gs.drop_first()[pos - 1] == gs[pos]);
        lemma_insert_update(gs.drop_first(), g, b, pos - 1);
        assert(spec_insert(gs, g, b) =~= gs.update(pos, (g, gs[pos].1.push(b))));
    }
}

proof fn lemma_insert_new(gs: Seq<(u32, Seq<GroupBinding>)>, g: u32, b: GroupBinding, pos: int)
    requires
        sorted_keys(gs),
        0 <= pos <= gs.len(),
        forall|i: int| 0 <= i < pos ==> (#[trigger] gs[i]).0 < g,
        pos < gs.len() ==> gs[pos].0 > g,
    ensures
        spec_insert(gs, g, b) =~= gs.insert(pos, (g, seq![b])),
    decreases pos,
{
    if pos == 0 {
        if gs.len() == 0 {
            assert(spec_insert(gs, g, b) =~= gs.insert(0, (g, seq![b])));
        } else {
            assert(g < gs[0].0);
            assert(spec_insert(gs, g, b) =~= gs.insert(0, (g, seq![b])));
        }
    } else {
        assert(gs[0].0 < g);
        assert(sorted_keys(gs.drop_first())) by {
            assert forall|i: int, j: int| 0 <= i < j < gs.drop_first().len() implies (
            #[trigger] gs.drop_first()[i]).0 < (#[trigger] gs.drop_first()[j]).0 by {
                assert(gs.drop_first()[i] == gs[i + 1]);
                assert(gs.drop_first()[j] == gs[j + 1]);
            }
        }
        assert forall|i: int| 0 <= i < pos - 1 implies (#[trigger] gs.drop_first()[i]).0 < g by {
            assert(gs.drop_first()[i] == gs[i + 1]);
        }
        if pos < gs.len() {
            assert(gs.drop_first()[pos - 1] == gs[pos]);
        }
        lemma_insert_new(gs.drop_first(), g, b, pos - 1);
        assert(spec_insert(gs, g, b) =~= gs.insert(pos, (g, seq![b])));
    }
}

proof fn lemma_lookup_inv(gs: Seq<(u32, Seq<GroupBinding>)>, g: u32)
    ensures
        spec_lookup(gs, g) matches Some(bu) ==> exists|p: int|
            0 <= p < gs.len() && (#[trigger] gs[p]).0 == g && gs[p].1 == bu,
        spec_lookup(gs, g) is None ==> forall|p: int| 0 <= p < gs.len() ==> (#[trigger] gs[p]).0
            != g,
    decreases gs.len(),
{
    if gs.len() > 0 {
        if gs[0].0 == g {
        } else {
            lemma_lookup_inv(gs.drop_first(), g);
            if spec_lookup(gs, g) is Some {
                let p = choose|p: int|
                    0 <= p < gs.drop_first().len() && (#[trigger] gs.drop_first()[p]).0 == g
                        && gs.drop_first()[p].1 == spec_lookup(gs, g)->Some_0;
                assert(gs[p + 1] == gs.drop_first()[p]);
            } else {
                assert forall|p: int| 0 <= p < gs.len() implies (#[trigger] gs[p]).0 != g by {
                    if p > 0 {
                        assert(gs.drop_first()[p - 1] == gs[p]);
                    }
                }
            }
        }
    }
}

proof fn find_pos(gs: Seq<(u32, Seq<GroupBinding>)>, g: u32) -> (pos: int)
    requires
        sorted_keys(gs),
        forall|p: int| 0 <= p < gs.len() ==> (#[trigger] gs[p]).0 != g,
    ensures
        0 <= pos <= gs.len(),
        forall|i: int| 0 <= i < pos ==> (#[trigger] gs[i]).0 < g,
        pos < gs.len() ==> gs[pos].0 > g,
    decreases gs.len(),
{
    if gs.len() == 0 {
        0
    } else if gs[0].0 > g {
        0
    } else {
        assert(sorted_keys(gs.drop_first())) by {
            assert forall|i: int, j: int| 0 <= i < j < gs.drop_first().len() implies (
            #[trigger] gs.drop_first()[i]).0 < (#[trigger] gs.drop_first()[j]).0 by {
                assert(gs.drop_first()[i] == gs[i + 1]);
                assert(gs.drop_first()[j] == gs[j + 1]);
            }
        }
        assert forall|p: int| 0 <= p < gs.drop_first().len() implies (#[trigger] gs.drop_first()[
        p]).0 != g by {
            assert(gs.drop_first()[p] == gs[p + 1]);
        }
        let rest = find_pos(gs.drop_first(), g);
        assert forall|i: int| 0 <= i < rest + 1 implies (#[trigger] gs[i]).0 < g by {
            if i > 0 {
                assert(gs.drop_first()[i - 1] == gs[i]);
            }
        }
        if rest + 1 < gs.len() {
            assert(gs.drop_first()[rest] == gs[rest + 1]);
        }
        rest + 1
    }
}

/// The relation between a bucket's contents and the declarations that fed
/// it: a binding index sits in the bucket of group `g` after `k`
/// declarations exactly when one of those declarations is bound there and
/// classifies.
pub proof fn lemma_bucket_has_iff(m: ShaderModule, k: int, g: u32, b: u32)
    requires
        0 <= k <= m.global_variables@.len(),
    ensures
        bucket_has(declared_group_upto(m, k, g), b) <==> exists|i: int|
            0 <= i < k && slot_entry(m, i, g, b),
    decreases k,
{
    let globals = m.global_variables@;
    let f = group_member_fn(m, g);
    if k == 0 {
        assert(globals.take(0).filter_map(f).len() == 0);
    } else {
        lemma_bucket_has_iff(m, k - 1, g, b);
        globals.lemma_filter_map_take_succ(f, k - 1);
        let prev = declared_group_upto(m, k - 1, g);
        let cur = declared_group_upto(m, k, g);
        let gv = globals[k - 1];
        match f(gv) {
            Some(nb) => {
                assert(cur =~= prev + seq![nb]);
                assert forall|q: int|
                    0 <= q < cur.len() implies cur[q] == if q < prev.len() {
                    prev[q]
                } else {
                    nb
                } by {}
                if bucket_has(cur, b) {
                    let q = choose|q: int|
                        0 <= q < cur.len() && (#[trigger] cur[q]).binding_index == b;
                    if q < prev.len() {
                        assert(bucket_has(prev, b));
                    } else {
                        assert(slot_entry(m, k - 1, g, b));
                    }
                }
                if exists|i: int| 0 <= i < k && slot_entry(m, i, g, b) {
                    let i = choose|i: int| 0 <= i < k && slot_entry(m, i, g, b);
                    if i < k - 1 {
                        assert(bucket_has(prev, b));
                        let q = choose|q: int|
                            0 <= q < prev.len() && (#[trigger] prev[q]).binding_index == b;
                        assert(cur[q].binding_index == b);
                    } else {
                        assert(cur[cur.len() - 1].binding_index == b);
                    }
                }
            },
            None => {
                assert(cur =~= prev);
                if exists|i: int| 0 <= i < k && slot_entry(m, i, g, b) {
                    let i = choose|i: int| 0 <= i < k && slot_entry(m, i, g, b);
                    assert(i < k - 1);
                }
            },
        }
    }
}

/// What holds of the buckets after `k` declarations whenever the walk got
/// that far without an error: keys strictly ascend, each bucket holds
/// exactly the classified globals declared at its group, in declaration
/// order, is nonempty and free of repeated binding indices, and every group
/// with a declaration has its key.
pub proof fn lemma_collect_props(m: ShaderModule, k: int)
    requires
        0 <= k <= m.global_variables@.len(),
    ensures
        spec_collect(m, k) matches Ok(gs) ==> ({
            &&& sorted_keys(gs)
            &&& forall|p: int|
                0 <= p < gs.len() ==> (#[trigger] gs[p]).1 == declared_group_upto(m, k, gs[p].0)
                    && gs[p].1.len() >= 1 && distinct_bindings(gs[p].1)
            &&& forall|g: u32| declared_group_upto(m, k, g).len() > 0 ==> has_key(gs, g)
        }),
    decreases k,
{
    let globals = m.global_variables@;
    if k == 0 {
        assert forall|g: u32| #[trigger] declared_group_upto(m, 0, g).len() == 0 by {
            assert(globals.take(0).filter_map(group_member_fn(m, g)).len() == 0);
        }
    } else {
        lemma_collect_props(m, k - 1);
        if spec_collect(m, k) is Ok {
            let gs0 = spec_collect(m, k - 1)->Ok_0;
            let gv = globals[k - 1];
            let gs = spec_collect(m, k)->Ok_0;
            match gv.binding {
                None => {
                    assert(gs == gs0);
                    assert forall|g: u32| #[trigger] declared_group_upto(m, k, g)
                        == declared_group_upto(m, k - 1, g) by {
                        let f = group_member_fn(m, g);
                        globals.lemma_filter_map_take_succ(f, k - 1);
                        assert(f(gv) is None);
                        assert(declared_group_upto(m, k, g) =~= declared_group_upto(m, k - 1, g));
                    }
                },
                Some(rb) => {
                    let bt = spec_classify(m.types@[gv.ty as int].inner, gv.space)->Ok_0;
                    let b = GroupBinding {
                        name: gv.name,
                        binding_index: rb.binding,
                        ty: gv.ty,
                        address_space: gv.space,
                        binding_type: bt,
                    };
                    assert(gs == spec_insert(gs0, rb.group, b));
                    // How each group's declared bucket moves from k-1 to k.
                    assert forall|g: u32| g != rb.group implies #[trigger] declared_group_upto(
                        m,
                        k,
                        g,
                    ) == declared_group_upto(m, k - 1, g) by {
                        let f = group_member_fn(m, g);
                        globals.lemma_filter_map_take_succ(f, k - 1);
                        assert(f(gv) is None);
                        assert(declared_group_upto(m, k, g) =~= declared_group_upto(m, k - 1, g));
                    }
                    assert(declared_group_upto(m, k, rb.group) =~= declared_group_upto(
                        m,
                        k - 1,
                        rb.group,
                    ).push(b)) by {
                        let f = group_member_fn(m, rb.group);
                        globals.lemma_filter_map_take_succ(f, k - 1);
                        assert(f(gv) == Some(b));
                    }
                    lemma_lookup_inv(gs0, rb.group);
                    match spec_lookup(gs0, rb.group) {
                        Some(bu) => {
                            let pos = choose|p: int|
                                0 <= p < gs0.len() && (#[trigger] gs0[p]).0 == rb.group && gs0[p].1
                                    == bu;
                            lemma_insert_update(gs0, rb.group, b, pos);
                            let upd = (rb.group, gs0[pos].1.push(b));
                            assert(gs =~= gs0.update(pos, upd));
                            assert(sorted_keys(gs));
                            assert(gs[pos].1 == declared_group_upto(m, k, rb.group));
                            assert(distinct_bindings(gs[pos].1)) by {
                                assert(!bucket_has(bu, rb.binding));
                                assert forall|q1: int, q2: int|
                                    0 <= q1 < q2 < gs[pos].1.len() implies (
                                #[trigger] gs[pos].1[q1]).binding_index != (
                                #[trigger] gs[pos].1[q2]).binding_index by {
                                    if q2 == gs[pos].1.len() - 1 {
                                        assert(gs[pos].1[q1] == bu[q1]);
                                        assert(!(bu[q1].binding_index == rb.binding));
                                    }
                                }
                            }
                            assert forall|p: int|
                                0 <= p < gs.len() && p != pos implies (#[trigger] gs[p]).1
                                == declared_group_upto(m, k, gs[p].0) && gs[p].1.len() >= 1
                                && distinct_bindings(gs[p].1) by {
                                assert(gs[p] == gs0[p]);
                                assert(gs0[p].0 != rb.group);
                            }
                            assert forall|g: u32|
                                declared_group_upto(m, k, g).len() > 0 implies has_key(gs, g) by {
                                if g == rb.group {
                                    assert(gs[pos].0 == g);
                                } else {
                                    assert(declared_group_upto(m, k - 1, g).len() > 0);
                                    assert(has_key(gs0, g));
                                    let p = choose|p: int|
                                        0 <= p < gs0.len() && (#[trigger] gs0[p]).0 == g;
                                    assert(gs[p] == gs0[p]);
                                    assert(gs[p].0 == g);
                                }
                            }
                        },
                        None => {
                            let pos = find_pos(gs0, rb.group);
                            lemma_insert_new(gs0, rb.group, b, pos);
                            gs0.insert_ensures(pos, (rb.group, seq![b]));
                            assert(gs =~= gs0.insert(pos, (rb.group, seq![b])));
                            assert(sorted_keys(gs)) by {
                                assert forall|i: int, j: int|
                                    0 <= i < j < gs.len() implies (#[trigger] gs[i]).0 < (
                                #[trigger] gs[j]).0 by {
                                    if i < pos && j == pos {
                                    } else if i == pos && j > pos {
                                        assert(gs[j] == gs0[j - 1]);
                                        assert(gs0[j - 1].0 >= gs0[pos].0);
                                    } else if i < pos && j > pos {
                                        assert(gs[i] == gs0[i]);
                                        assert(gs[j] == gs0[j - 1]);
                                    } else if i > pos && j > pos {
                                        assert(gs[i] == gs0[i - 1]);
                                        assert(gs[j] == gs0[j - 1]);
                                    }
                                }
                            }
                            assert(declared_group_upto(m, k - 1, rb.group).len() == 0) by {
                                if declared_group_upto(m, k - 1, rb.group).len() > 0 {
                                    assert(has_key(gs0, rb.group));
                                }
                            }
                            assert(gs[pos].1 =~= declared_group_upto(m, k, rb.group));
                            assert forall|p: int|
                                0 <= p < gs.len() && p != pos implies (#[trigger] gs[p]).1
                                == declared_group_upto(m, k, gs[p].0) && gs[p].1.len() >= 1
                                && distinct_bindings(gs[p].1) by {
                                if p < pos {
                                    assert(gs[p] == gs0[p]);
                                    assert(gs0[p].0 != rb.group);
                                } else {
                                    assert(gs[p] == gs0[p - 1]);
                                    assert(gs0[p - 1].0 != rb.group);
                                }
                            }
                            assert forall|g: u32|
                                declared_group_upto(m, k, g).len() > 0 implies has_key(gs, g) by {
                                if g == rb.group {
                                    assert(gs[pos].0 == g);
                                } else {
                                    assert(declared_group_upto(m, k - 1, g).len() > 0);
                                    assert(has_key(gs0, g));
                                    let p = choose|p: int|
                                        0 <= p < gs0.len() && (#[trigger] gs0[p]).0 == g;
                                    if p < pos {
                                        assert(gs[p] == gs0[p]);
                                        assert(gs[p].0 == g);
                                    } else {
                                        assert(gs[p + 1] == gs0[p]);
                                        assert(gs[p + 1].0 == g);
                                    }
                                }
                            }
                        },
                    }
                },
            }
        }
    }
}

/// Once the walk has failed, no later declaration changes the outcome.
pub proof fn lemma_collect_err_mono(m: ShaderModule, k1: int, k2: int)
    requires
        0 <= k1 <= k2,
        spec_collect(m, k1) is Err,
    ensures
        spec_collect(m, k2) == spec_collect(m, k1),
    decreases k2 - k1,
{
    if k2 > k1 {
        lemma_collect_err_mono(m, k1, k2 - 1);
    }
}

/// A walk that got through `k` declarations saw every bound one classify.
pub proof fn lemma_collect_ok_classify(m: ShaderModule, k: int)
    requires
        0 <= k <= m.global_variables@.len(),
        spec_collect(m, k) is Ok,
    ensures
        forall|i: int|
            0 <= i < k && is_bound(#[trigger] m.global_variables@[i]) ==> classifies(
                m,
                m.global_variables@[i],
            ),
    decreases k,
{
    if k > 0 {
        lemma_collect_ok_classify(m, k - 1);
    }
}

/// The walk itself never fails on a module whose bound globals all classify
/// and never repeat a `(group, binding)` pair.
pub proof fn lemma_collect_ok_when(m: ShaderModule, k: int)
    requires
        0 <= k <= m.global_variables@.len(),
        forall|i: int|
            0 <= i < k && is_bound(#[trigger] m.global_variables@[i]) ==> classifies(
                m,
                m.global_variables@[i],
            ),
        forall|i: int, j: int| j < k ==> !(#[trigger] dup_pair(m, i, j)),
    ensures
        spec_collect(m, k) is Ok,
    decreases k,
{
    if k > 0 {
        lemma_collect_ok_when(m, k - 1);
        lemma_collect_props(m, k - 1);
        let gs0 = spec_collect(m, k - 1)->Ok_0;
        let gv = m.global_variables@[k - 1];
        match gv.binding {
            None => {},
            Some(rb) => {
                assert(is_bound(gv));
                assert(classifies(m, gv));
                lemma_lookup_inv(gs0, rb.group);
                match spec_lookup(gs0, rb.group) {
                    None => {},
                    Some(bu) => {
                        let pos = choose|p: int|
                            0 <= p < gs0.len() && (#[trigger] gs0[p]).0 == rb.group && gs0[p].1
                                == bu;
                        assert(bu == declared_group_upto(m, k - 1, rb.group));
                        if bucket_has(bu, rb.binding) {
                            lemma_bucket_has_iff(m, k - 1, rb.group, rb.binding);
                            let i = choose|i: int|
                                0 <= i < k - 1 && slot_entry(m, i, rb.group, rb.binding);
                            assert(dup_pair(m, i, k - 1));
                        }
                    },
                }
            },
        }
    }
}

fn clone_name(n: &Option<String>) -> (r: Option<String>)
    ensures
        r == *n,
{
    match n {
        Some(s) => Some(s.clone()),
        None => None,
    }
}

/// Resolve the bind groups of a module: every bound global classified and
/// bucketed by group index in declaration order, the group indices checked
/// to form exactly `0..n`.
///
/// The outcome equals [`spec_resolve`] on the module: on success the map
/// holds, for each group in ascending order, exactly the bound globals
/// declared at that group, in declaration order ([`declared_group`]), with
/// binding indices unique within the group; on failure the error is the one
/// of the first offending declaration, or `NonConsecutiveBindGroups` after a
/// clean walk whose group indices do not form `0..n`.
#[verifier::loop_isolation(false)]
pub fn get_bind_group_data(module: &ShaderModule) -> (r: Result<BindGroupMap, CreateModuleError>)
    requires
        module.wf(),
    ensures
        (match r {
            Ok(bg) => spec_resolve(*module) == Ok::<
                Seq<(u32, Seq<GroupBinding>)>,
                CreateModuleError,
            >(bg@),
            Err(e) => spec_resolve(*module) == Err::<
                Seq<(u32, Seq<GroupBinding>)>,
                CreateModuleError,
            >(e),
        }),
        r matches Ok(bg) ==> contiguous(bg@),
        r matches Ok(bg) ==> forall|p: int|
            0 <= p < bg@.len() ==> (#[trigger] bg@[p]).1 == declared_group(*module, bg@[p].0)
                && bg@[p].1.len() >= 1 && distinct_bindings(bg@[p].1),
        r matches Ok(bg) ==> forall|g: u32|
            declared_group(*module, g).len() > 0 ==> has_key(bg@, g),
{
    let ghost m = *module;
    let n_globals = module.global_variables.len();
    let mut groups: Vec<(u32, GroupData)> = Vec::new();
    proof {
        assert(groups_view(groups@) =~= Seq::<(u32, Seq<GroupBinding>)>::empty());
    }
    let mut idx: usize = 0;
    while idx < n_globals
        invariant
            idx <= n_globals,
            spec_collect(m, idx as int) == Ok::<
                Seq<(u32, Seq<GroupBinding>)>,
                CreateModuleError,
            >(groups_view(groups@)),
        decreases n_globals - idx,
    {
        let ghost gs0 = groups_view(groups@);
        proof {
            lemma_collect_props(m, idx as int);
        }
        let gv = &module.global_variables[idx];
        match gv.binding {
            None => {
                proof {
                    assert(spec_collect(m, idx + 1) == Ok::<
                        Seq<(u32, Seq<GroupBinding>)>,
                        CreateModuleError,
                    >(gs0));
                }
            },
            Some(rb) => {
                assert(gv.ty < module.types@.len());
                let bt = match classify_binding_type(&module.types[gv.ty].inner, gv.space) {
                    Ok(bt) => bt,
                    Err(e) => {
                        proof {
                            assert(spec_collect(m, idx + 1) == Err::<
                                Seq<(u32, Seq<GroupBinding>)>,
                                CreateModuleError,
                            >(e));
                            lemma_collect_err_mono(
                                m,
                                idx + 1,
                                m.global_variables@.len() as int,
                            );
                        }
                        return Err(e);
                    },
                };
                let g = rb.group;
                let ghost bspec = GroupBinding {
                    name: m.global_variables@[idx as int].name,
                    binding_index: rb.binding,
                    ty: gv.ty,
                    address_space: gv.space,
                    binding_type: bt,
                };
                // The keys ascend, so a scan finds where this group sits.
                let mut pos: usize = 0;
                while pos < groups.len() && groups[pos].0 < g
                    invariant
                        pos <= groups.len(),
                        forall|i: int| 0 <= i < pos ==> (#[trigger] groups@[i]).0 < g,
                    decreases groups.len() - pos,
                {
                    pos += 1;
                }
                assert(forall|i: int|
                    0 <= i < gs0.len() ==> (#[trigger] gs0[i]).0 == groups@[i].0);
                if pos < groups.len() && groups[pos].0 == g {
                    proof {
                        lemma_lookup_some(gs0, g, pos as int);
                    }
                    // The group exists: refuse a binding index already in its
                    // bucket, else append.
                    let blen = groups[pos].1.bindings.len();
                    let mut q: usize = 0;
                    while q < blen
                        invariant
                            q <= blen,
                            pos < groups.len(),
                            blen == groups@[pos as int].1.bindings@.len(),
                            forall|qq: int|
                                0 <= qq < q ==> (
                                #[trigger] groups@[pos as int].1.bindings@[qq]).binding_index
                                    != rb.binding,
                        decreases blen - q,
                    {
                        if groups[pos].1.bindings[q].binding_index == rb.binding {
                            proof {
                                assert(bucket_has(gs0[pos as int].1, rb.binding));
                                assert(spec_collect(m, idx + 1) == Err::<
                                    Seq<(u32, Seq<GroupBinding>)>,
                                    CreateModuleError,
                                >(CreateModuleError::DuplicateBinding { binding: rb.binding }));
                                lemma_collect_err_mono(
                                    m,
                                    idx + 1,
                                    m.global_variables@.len() as int,
                                );
                            }
                            return Err(CreateModuleError::DuplicateBinding { binding: rb.binding });
                        }
                        q += 1;
                    }
                    proof {
                        assert(!bucket_has(gs0[pos as int].1, rb.binding));
                        lemma_insert_update(gs0, g, bspec, pos as int);
                    }
                    let b = GroupBinding {
                        name: clone_name(&gv.name),
                        binding_index: rb.binding,
                        ty: gv.ty,
                        address_space: gv.space,
                        binding_type: bt,
                    };
                    let (gkey, mut gd) = groups.remove(pos);
                    gd.bindings.push(b);
                    groups.insert(pos, (gkey, gd));
                    proof {
                        assert(groups_view(groups@) =~= gs0.update(
                            pos as int,
                            (g, gs0[pos as int].1.push(bspec)),
                        ));
                        assert(spec_collect(m, idx + 1) == Ok::<
                            Seq<(u32, Seq<GroupBinding>)>,
                            CreateModuleError,
                        >(groups_view(groups@)));
                    }
                } else {
                    // A new group: its bucket starts with this binding alone,
                    // inserted so the keys stay ascending.
                    proof {
                        assert(forall|p: int|
                            0 <= p < gs0.len() ==> (#[trigger] gs0[p]).0 != g);
                        lemma_lookup_none(gs0, g);
                        assert(!bucket_has(Seq::<GroupBinding>::empty(), rb.binding));
                        lemma_insert_new(gs0, g, bspec, pos as int);
                    }
                    let b = GroupBinding {
                        name: clone_name(&gv.name),
                        binding_index: rb.binding,
                        ty: gv.ty,
                        address_space: gv.space,
                        binding_type: bt,
                    };
                    let mut bucket_vec: Vec<GroupBinding> = Vec::new();
                    bucket_vec.push(b);
                    proof {
                        assert(bucket_vec@ =~= seq![bspec]);
                    }
                    let entry = (g, GroupData { bindings: bucket_vec });
                    let ghost entry_spec = entry;
                    let ghost gold = groups@;
                    groups.insert(pos, entry);
                    proof {
                        gold.insert_ensures(pos as int, entry_spec);
                        gs0.insert_ensures(pos as int, (g, seq![bspec]));
                        assert forall|i: int| 0 <= i < groups_view(groups@).len() implies groups_view(
                            groups@,
                        )[i] == gs0.insert(pos as int, (g, seq![bspec]))[i] by {
                            if i < pos {
                                assert(groups@[i] == gold[i]);
                            } else if i == pos {
                                assert(groups@[i] == entry_spec);
                            } else {
                                assert(groups@[i] == gold[i - 1]);
                            }
                        }
                        assert(groups_view(groups@) =~= gs0.insert(pos as int, (g, seq![bspec])));
                        assert(spec_collect(m, idx + 1) == Ok::<
                            Seq<(u32, Seq<GroupBinding>)>,
                            CreateModuleError,
                        >(groups_view(groups@)));
                    }
                }
            },
        }
        idx += 1;
    }
    // The walk is done: the group indices must be exactly 0..n.
    let ghost gs = groups_view(groups@);
    let n_groups = groups.len();
    let mut i: usize = 0;
    while i < n_groups
        invariant
            i <= n_groups,
            forall|j: int| 0 <= j < i ==> (#[trigger] gs[j]).0 as int == j,
        decreases n_groups - i,
    {
        if groups[i].0 as usize != i {
            proof {
                assert(gs[i as int].0 == groups@[i as int].0);
                assert(!(gs[i as int].0 as int == i as int));
                assert(!contiguous(gs));
            }
            return Err(CreateModuleError::NonConsecutiveBindGroups);
        }
        i += 1;
    }
    proof {
        assert(contiguous(gs));
        lemma_collect_props(m, m.global_variables@.len() as int);
    }
    Ok(BindGroupMap { groups })
}

/// The two globals of a duplicate pair, and the binding index the later one
/// declares.
pub open spec fn dup_at(m: ShaderModule, i: int, j: int, b: u32) -> bool {
    &&& dup_pair(m, i, j)
    &&& m.global_variables@[j].binding matches Some(rb) && rb.binding == b
}

/// When every bound global classifies, the only error the walk can produce
/// is a duplicate binding, and its index is one actually declared twice.
#[verifier::spinoff_prover]
#[verifier::rlimit(60)]
pub proof fn lemma_collect_err_form(m: ShaderModule, k: int)
    requires
        0 <= k <= m.global_variables@.len(),
        forall|i: int|
            0 <= i < k && is_bound(#[trigger] m.global_variables@[i]) ==> classifies(
                m,
                m.global_variables@[i],
            ),
    ensures
        spec_collect(m, k) matches Err(e) ==> e is DuplicateBinding,
        spec_collect(m, k) matches Err(e) ==> (e matches CreateModuleError::DuplicateBinding {
            binding,
        } ==> exists|i: int, j: int| j < k && #[trigger] dup_at(m, i, j, binding)),
    decreases k,
{
    if k > 0 && spec_collect(m, k) is Err {
        let e_final = spec_collect(m, k)->Err_0;
        if spec_collect(m, k - 1) is Err {
            lemma_collect_err_form(m, k - 1);
            assert(spec_collect(m, k) == spec_collect(m, k - 1));
            let binding = e_final->DuplicateBinding_binding;
            let (i, j) = choose|i: int, j: int| j < k - 1 && #[trigger] dup_at(m, i, j, binding);
            assert(j < k && dup_at(m, i, j, binding));
            assert(exists|i: int, j: int| j < k && #[trigger] dup_at(m, i, j, binding));
        } else {
            lemma_collect_props(m, k - 1);
            let gs0 = spec_collect(m, k - 1)->Ok_0;
            let gv = m.global_variables@[k - 1];
            match gv.binding {
                None => {
                    assert(spec_collect(m, k) is Ok);
                },
                Some(rb) => {
                    assert(is_bound(gv));
                    assert(classifies(m, gv));
                    lemma_lookup_inv(gs0, rb.group);
                    match spec_lookup(gs0, rb.group) {
                        None => {
                            assert(spec_collect(m, k) is Ok);
                        },
                        Some(bu) => {
                            let pos = choose|p: int|
                                0 <= p < gs0.len() && (#[trigger] gs0[p]).0 == rb.group && gs0[p].1
                                    == bu;
                            assert(bu == declared_group_upto(m, k - 1, rb.group));
                            assert(bucket_has(bu, rb.binding));
                            lemma_bucket_has_iff(m, k - 1, rb.group, rb.binding);
                            let i = choose|i: int|
                                0 <= i < k - 1 && slot_entry(m, i, rb.group, rb.binding);
                            assert(spec_collect(m, k) == Err::<
                                Seq<(u32, Seq<GroupBinding>)>,
                                CreateModuleError,
                            >(CreateModuleError::DuplicateBinding { binding: rb.binding }));
                            assert(e_final->DuplicateBinding_binding == rb.binding);
                            assert(k - 1 < k && dup_at(m, i, k - 1, rb.binding));
                            assert(exists|i: int, j: int|
                                j < k && #[trigger] dup_at(m, i, j, e_final->DuplicateBinding_binding));
                        },
                    }
                },
            }
        }
    }
}

/// Law: a module with at least one bound resource but none bound to group 0
/// never resolves — the walk itself succeeds when everything classifies and
/// no `(group, binding)` pair repeats, but the group range does not start at
/// 0, so the outcome is `NonConsecutiveBindGroups`. In particular a module
/// whose only groups start at 1 fails this way.
pub proof fn lemma_missing_group_zero(m: ShaderModule)
    requires
        all_classify(m),
        no_duplicates(m),
        exists|i: int|
            0 <= i < m.global_variables@.len() && is_bound(#[trigger] m.global_variables@[i]),
        forall|i: int|
            0 <= i < m.global_variables@.len() ==> !((#[trigger] m.global_variables@[i]).binding
                matches Some(rb) && rb.group == 0),
    ensures
        spec_resolve(m) == Err::<Seq<(u32, Seq<GroupBinding>)>, CreateModuleError>(
            CreateModuleError::NonConsecutiveBindGroups,
        ),
{
    let n = m.global_variables@.len() as int;
    lemma_collect_ok_when(m, n);
    lemma_collect_props(m, n);
    let gs = spec_collect(m, n)->Ok_0;
    let i0 = choose|i: int|
        0 <= i < m.global_variables@.len() && is_bound(#[trigger] m.global_variables@[i]);
    let rb0 = m.global_variables@[i0].binding->Some_0;
    assert(classifies(m, m.global_variables@[i0]));
    assert(slot_entry(m, i0, rb0.group, rb0.binding));
    lemma_bucket_has_iff(m, n, rb0.group, rb0.binding);
    assert(bucket_has(declared_group_upto(m, n, rb0.group), rb0.binding));
    assert(declared_group_upto(m, n, rb0.group).len() > 0);
    assert(has_key(gs, rb0.group));
    assert(gs.len() > 0);
    if contiguous(gs) {
        assert(gs[0].0 as int == 0);
        assert(gs[0].1 == declared_group_upto(m, n, 0u32) && gs[0].1.len() >= 1);
        let bucket = declared_group_upto(m, n, 0u32);
        assert(bucket_has(bucket, bucket[0].binding_index));
        lemma_bucket_has_iff(m, n, 0u32, bucket[0].binding_index);
        let iw = choose|i: int| 0 <= i < n && slot_entry(m, i, 0u32, bucket[0].binding_index);
        assert(m.global_variables@[iw].binding matches Some(rb) && rb.group == 0);
        assert(false);
    }
}

/// Law: on a module whose bound resources all classify, two globals sharing
/// one `(group, binding)` pair doom the resolution to a `DuplicateBinding`
/// error, and the reported index is one that is really declared twice.
pub proof fn lemma_duplicate_binding(m: ShaderModule)
    requires
        all_classify(m),
        exists|i: int, j: int| #[trigger] dup_pair(m, i, j),
    ensures
        spec_resolve(m) matches Err(e) && e is DuplicateBinding,
        spec_resolve(m) matches Err(e) ==> (e matches CreateModuleError::DuplicateBinding {
            binding,
        } ==> exists|i: int, j: int| #[trigger] dup_at(m, i, j, binding)),
{
    let n = m.global_variables@.len() as int;
    if spec_collect(m, n) is Ok {
        let (i, j) = choose|i: int, j: int| #[trigger] dup_pair(m, i, j);
        if spec_collect(m, j) is Err {
            lemma_collect_err_mono(m, j, n);
            assert(false);
        }
        if spec_collect(m, j + 1) is Err {
            lemma_collect_err_mono(m, j + 1, n);
            assert(false);
        }
        lemma_collect_props(m, j);
        let gsj = spec_collect(m, j)->Ok_0;
        let gv = m.global_variables@[j];
        let rbj = gv.binding->Some_0;
        assert(is_bound(gv));
        assert(classifies(m, gv));
        let rbi = m.global_variables@[i].binding->Some_0;
        assert(is_bound(m.global_variables@[i]));
        assert(classifies(m, m.global_variables@[i]));
        assert(slot_entry(m, i, rbj.group, rbj.binding));
        lemma_bucket_has_iff(m, j, rbj.group, rbj.binding);
        assert(bucket_has(declared_group_upto(m, j, rbj.group), rbj.binding));
        assert(declared_group_upto(m, j, rbj.group).len() > 0);
        assert(has_key(gsj, rbj.group));
        let p = choose|p: int| 0 <= p < gsj.len() && (#[trigger] gsj[p]).0 == rbj.group;
        lemma_lookup_some(gsj, rbj.group, p);
        assert(gsj[p].1 == declared_group_upto(m, j, rbj.group));
        assert(spec_collect(m, j + 1) is Err);
        assert(false);
    }
    lemma_collect_err_form(m, n);
    assert(spec_resolve(m) == spec_collect(m, n));
}

/// Law: resolution succeeds only on clean modules — every bound global
/// classifies, and no two globals share a `(group, binding)` pair.
pub proof fn lemma_resolve_ok_clean(m: ShaderModule)
    requires
        spec_resolve(m) is Ok,
    ensures
        all_classify(m),
        no_duplicates(m),
{
    let n = m.global_variables@.len() as int;
    lemma_collect_ok_classify(m, n);
    if !no_duplicates(m) {
        lemma_duplicate_binding(m);
        assert(false);
    }
}

} // verus!
