//! Constraint pruning and enum ordering.
//!
//! Walks every schema node, removes the keywords the target provider does
//! not support (recording each removal), rewrites `const` into a
//! one-element `enum` where the target requires it, and reorders `enum`
//! arrays so that the node's `default` value comes first.

use vstd::prelude::*;

use crate::capability::{capability, spec_capability, Capability};
use crate::codec::{ConvertError, DroppedConstraint, Transform};
use crate::json::{
    elems_height, elems_view, fields_height, fields_view, has_key_v, height_v, is_list_kw,
    is_map_kw, is_schema_node, is_single_kw, json_eq, lemma_elems_height, lemma_elems_view,
    lemma_fields_height, lemma_fields_view, lemma_obj_get_push, obj_get, obj_get_v, str_eq, Json,
    JsonV,
};
use crate::options::{ConvertOptions, Target};
use crate::path::{dec_str, joined, path_join, path_join_index};
use crate::provider_compat::HARD_RECURSION_LIMIT;

verus! {

/// Result of running the constraint pruning pass.
#[derive(Debug)]
pub struct ConstraintPassResult {
    /// The transformed schema with unsupported constraints removed.
    pub schema: Json,
    /// Constraints that were dropped during this pass.
    pub dropped_constraints: Vec<DroppedConstraint>,
    /// Rewrites performed: constants made enums, enums reordered.
    pub transforms: Vec<Transform>,
}

/// Index of the first occurrence of a value in a list, or a negative
/// number when absent.
pub open spec fn find_idx(vals: Seq<JsonV>, d: JsonV) -> int
    decreases vals,
{
    if vals.len() == 0 {
        -1
    } else if vals.first() == d {
        0
    } else if find_idx(vals.drop_first(), d) < 0 {
        -1
    } else {
        1 + find_idx(vals.drop_first(), d)
    }
}

/// An enum value list with the default value moved to the front.
pub open spec fn reorder_vals(vals: Seq<JsonV>, d: JsonV) -> Seq<JsonV> {
    if find_idx(vals, d) > 0 {
        seq![d] + vals.remove(find_idx(vals, d))
    } else {
        vals
    }
}

/// A member list with every binding of a key removed.
pub open spec fn remove_key(fs: Seq<(Seq<char>, JsonV)>, k: Seq<char>) -> Seq<(Seq<char>, JsonV)>
    decreases fs,
{
    if fs.len() == 0 {
        Seq::empty()
    } else if fs.last().0 == k {
        remove_key(fs.drop_last(), k)
    } else {
        remove_key(fs.drop_last(), k).push(fs.last())
    }
}

/// A member list with every `const` binding replaced by a one-element
/// `enum` holding the constant.
pub open spec fn replace_const(fs: Seq<(Seq<char>, JsonV)>) -> Seq<(Seq<char>, JsonV)> {
    Seq::new(
        fs.len(),
        |i: int|
            if 0 <= i < fs.len() {
                if fs[i].0 == "const"@ {
                    ("enum"@, JsonV::Arr(seq![fs[i].1]))
                } else {
                    fs[i]
                }
            } else {
                ("enum"@, JsonV::Null)
            },
    )
}

/// Whether the node rewrites `const` to `enum` for this target.
pub open spec fn node_c2e(fs: Seq<(Seq<char>, JsonV)>, t: Target) -> bool {
    spec_capability(t, "const"@) == Capability::Rewrite && has_key_v(fs, "const"@)
}

/// A member list after the `const` rewrite.
pub open spec fn rewritten(fs: Seq<(Seq<char>, JsonV)>, t: Target) -> Seq<(Seq<char>, JsonV)> {
    if node_c2e(fs, t) {
        if has_key_v(fs, "enum"@) {
            remove_key(fs, "const"@)
        } else {
            replace_const(fs)
        }
    } else {
        fs
    }
}

/// Whether reordering by the default value changes some enum of the node.
pub open spec fn node_reord(fs: Seq<(Seq<char>, JsonV)>, d: Option<JsonV>, edf: bool) -> bool {
    &&& edf
    &&& d is Some
    &&& exists|i: int|
        0 <= i < fs.len() && (#[trigger] fs[i]).0 == "enum"@ && fs[i].1 is Arr && find_idx(
            fs[i].1->Arr_0,
            d->0,
        ) > 0
}

/// A member list with every enum reordered to put the default first.
pub open spec fn reordered(fs: Seq<(Seq<char>, JsonV)>, d: Option<JsonV>, edf: bool) -> Seq<
    (Seq<char>, JsonV),
> {
    if edf && d is Some {
        Seq::new(
            fs.len(),
            |i: int|
                if 0 <= i < fs.len() {
                    if fs[i].0 == "enum"@ && fs[i].1 is Arr {
                        (fs[i].0, JsonV::Arr(reorder_vals(fs[i].1->Arr_0, d->0)))
                    } else {
                        fs[i]
                    }
                } else {
                    ("enum"@, JsonV::Null)
                },
        )
    } else {
        fs
    }
}

/// One rewrite the pruning records: a constant made an enum, or an
/// enum reordered, each at the path of the node it happened at.
pub ghost enum TransformRecV {
    /// A `const` rewritten into a one-element `enum`.
    C2E { path: Seq<char> },
    /// An `enum` reordered; `original_order` is its order before.
    Reord { path: Seq<char>, original_order: Seq<JsonV> },
}

/// That one recorded transform carries exactly one rewrite: same kind,
/// same path, and for a reordering the enum's original order.
pub open spec fn transform_matches(e: Transform, r: TransformRecV) -> bool {
    match r {
        TransformRecV::C2E { path } => {
            &&& e is ConstToEnum
            &&& e->ConstToEnum_path@ == path
        },
        TransformRecV::Reord { path, original_order } => {
            &&& e is EnumReordered
            &&& e->EnumReordered_path@ == path
            &&& elems_view(e->EnumReordered_original_order@) == original_order
        },
    }
}

/// The value list of the first enum of the node that reordering by the
/// default value changes.
pub open spec fn first_reord_vals(fs: Seq<(Seq<char>, JsonV)>, d: JsonV) -> Seq<JsonV>
    decreases fs,
{
    if fs.len() == 0 {
        Seq::empty()
    } else if fs.first().0 == "enum"@ && fs.first().1 is Arr && find_idx(fs.first().1->Arr_0, d)
        > 0 {
        fs.first().1->Arr_0
    } else {
        first_reord_vals(fs.drop_first(), d)
    }
}

/// The rewrites recorded at one node: the `const` rewrite, then the
/// enum reordering with the changed enum's original order.
pub open spec fn node_transforms(
    kept: Seq<(Seq<char>, JsonV)>,
    fs2: Seq<(Seq<char>, JsonV)>,
    d: Option<JsonV>,
    edf: bool,
    t: Target,
    p: Seq<char>,
) -> Seq<TransformRecV> {
    (if node_c2e(kept, t) {
        seq![TransformRecV::C2E { path: p }]
    } else {
        Seq::empty()
    }) + (if node_reord(fs2, d, edf) {
        seq![TransformRecV::Reord { path: p, original_order: first_reord_vals(fs2, d->0) }]
    } else {
        Seq::empty()
    })
}

/// Everything one pruning of a schema produces.
pub ghost struct PruneOut {
    /// The pruned schema.
    pub schema: JsonV,
    /// Each removed keyword with the path of its node and its original
    /// value, in visit order.
    pub drops: Seq<(Seq<char>, Seq<char>, JsonV)>,
    /// The rewrites performed, in visit order.
    pub trs: Seq<TransformRecV>,
}

/// Everything pruning the members of one node produces, before the
/// node-level rewrites.
pub ghost struct PruneFieldsOut {
    /// The surviving members, each with its value pruned.
    pub fields: Seq<(Seq<char>, JsonV)>,
    /// Each removed keyword with the path of its node and its original
    /// value, in visit order.
    pub drops: Seq<(Seq<char>, Seq<char>, JsonV)>,
    /// The rewrites performed below, in visit order.
    pub trs: Seq<TransformRecV>,
}

/// Prunes one schema: keeps non-object values, and rewrites the members
/// of an object node after pruning their schema children.
pub open spec fn prune_out(j: JsonV, t: Target, edf: bool, p: Seq<char>) -> PruneOut
    decreases j, 0int,
{
    match j {
        JsonV::Obj(fs) => {
            let pf = prune_fields_out(fs, t, edf, p);
            let d = obj_get_v(fs, "default"@);
            let fs2 = rewritten(pf.fields, t);
            PruneOut {
                schema: JsonV::Obj(reordered(fs2, d, edf)),
                drops: pf.drops,
                trs: pf.trs + node_transforms(pf.fields, fs2, d, edf, t, p),
            }
        },
        _ => PruneOut { schema: j, drops: Seq::empty(), trs: Seq::empty() },
    }
}

/// Prunes the members of one node: unsupported keywords are removed and
/// recorded, the rest keep their place with pruned values.
pub open spec fn prune_fields_out(
    fs: Seq<(Seq<char>, JsonV)>,
    t: Target,
    edf: bool,
    p: Seq<char>,
) -> PruneFieldsOut
    decreases fs, 1int,
{
    if fs.len() == 0 {
        PruneFieldsOut { fields: Seq::empty(), drops: Seq::empty(), trs: Seq::empty() }
    } else {
        let r = prune_fields_out(fs.drop_last(), t, edf, p);
        let k = fs.last().0;
        let v = fs.last().1;
        if spec_capability(t, k) == Capability::Drop {
            PruneFieldsOut {
                fields: r.fields,
                drops: r.drops.push((p, k, v)),
                trs: r.trs,
            }
        } else {
            let c = prune_child_out(k, v, t, edf, p);
            PruneFieldsOut {
                fields: r.fields.push((k, c.schema)),
                drops: r.drops + c.drops,
                trs: r.trs + c.trs,
            }
        }
    }
}

/// Prunes the value of one member, descending only into schema positions.
pub open spec fn prune_child_out(k: Seq<char>, v: JsonV, t: Target, edf: bool, p: Seq<char>) -> PruneOut
    decreases v, 2int,
{
    if is_map_kw(k) && v is Obj {
        let m = prune_map_out(v->Obj_0, t, edf, joined(p, k));
        PruneOut { schema: JsonV::Obj(m.fields), drops: m.drops, trs: m.trs }
    } else if k == "items"@ {
        if v is Obj {
            prune_out(v, t, edf, joined(p, k))
        } else if v is Arr {
            let l = prune_list_out(v->Arr_0, t, edf, joined(p, k));
            PruneOut { schema: JsonV::Arr(l.elems), drops: l.drops, trs: l.trs }
        } else {
            PruneOut { schema: v, drops: Seq::empty(), trs: Seq::empty() }
        }
    } else if is_list_kw(k) && v is Arr {
        let l = prune_list_out(v->Arr_0, t, edf, joined(p, k));
        PruneOut { schema: JsonV::Arr(l.elems), drops: l.drops, trs: l.trs }
    } else if is_single_kw(k) && v is Obj {
        prune_out(v, t, edf, joined(p, k))
    } else {
        PruneOut { schema: v, drops: Seq::empty(), trs: Seq::empty() }
    }
}

/// Everything pruning a map or list of schemas produces.
pub ghost struct PruneSeqOut {
    /// The map members, each value pruned.
    pub fields: Seq<(Seq<char>, JsonV)>,
    /// The list elements, each pruned.
    pub elems: Seq<JsonV>,
    /// Each removed keyword with the path of its node and its original
    /// value, in visit order.
    pub drops: Seq<(Seq<char>, Seq<char>, JsonV)>,
    /// The rewrites performed below, in visit order.
    pub trs: Seq<TransformRecV>,
}

/// Prunes every value of a map of schemas.
pub open spec fn prune_map_out(
    ms: Seq<(Seq<char>, JsonV)>,
    t: Target,
    edf: bool,
    base: Seq<char>,
) -> PruneSeqOut
    decreases ms, 1int,
{
    if ms.len() == 0 {
        PruneSeqOut { fields: Seq::empty(), elems: Seq::empty(), drops: Seq::empty(), trs: Seq::empty() }
    } else {
        let r = prune_map_out(ms.drop_last(), t, edf, base);
        let c = prune_out(ms.last().1, t, edf, joined(base, ms.last().0));
        PruneSeqOut {
            fields: r.fields.push((ms.last().0, c.schema)),
            elems: Seq::empty(),
            drops: r.drops + c.drops,
            trs: r.trs + c.trs,
        }
    }
}

/// Prunes every element of a list of schemas.
pub open spec fn prune_list_out(es: Seq<JsonV>, t: Target, edf: bool, base: Seq<char>) -> PruneSeqOut
    decreases es, 1int,
{
    if es.len() == 0 {
        PruneSeqOut { fields: Seq::empty(), elems: Seq::empty(), drops: Seq::empty(), trs: Seq::empty() }
    } else {
        let r = prune_list_out(es.drop_last(), t, edf, base);
        let c = prune_out(es.last(), t, edf, joined(base, dec_str((es.len() - 1) as nat)));
        PruneSeqOut {
            fields: Seq::empty(),
            elems: r.elems.push(c.schema),
            drops: r.drops + c.drops,
            trs: r.trs + c.trs,
        }
    }
}

/// Whether every object node of the schema, at and below depth `d`,
/// stands within the depth limit `l`.  Members that the target drops are
/// not descended into.
pub open spec fn depth_ok(j: JsonV, t: Target, d: nat, l: nat) -> bool
    decreases l + 1 - d, 3int, 0int,
{
    match j {
        JsonV::Obj(fs) => {
            if d > l {
                false
            } else {
                depth_fields_ok(fs, t, d, l)
            }
        },
        _ => true,
    }
}

/// Whether every surviving member's schema children fit the depth limit.
pub open spec fn depth_fields_ok(fs: Seq<(Seq<char>, JsonV)>, t: Target, d: nat, l: nat) -> bool
    decreases l + 1 - d, 2int, fs.len(),
{
    if d > l || fs.len() == 0 {
        true
    } else {
        depth_fields_ok(fs.drop_last(), t, d, l) && (spec_capability(t, fs.last().0)
            != Capability::Drop ==> depth_child_ok(fs.last().0, fs.last().1, t, d, l))
    }
}

/// Whether one member's schema children fit the depth limit.
pub open spec fn depth_child_ok(k: Seq<char>, v: JsonV, t: Target, d: nat, l: nat) -> bool
    decreases l + 1 - d, 1int, 0int,
{
    if d > l {
        true
    } else if is_map_kw(k) && v is Obj {
        depth_map_ok(v->Obj_0, t, d, l)
    } else if k == "items"@ {
        if v is Obj {
            depth_ok(v, t, d + 1, l)
        } else if v is Arr {
            depth_list_ok(v->Arr_0, t, d, l)
        } else {
            true
        }
    } else if is_list_kw(k) && v is Arr {
        depth_list_ok(v->Arr_0, t, d, l)
    } else if is_single_kw(k) && v is Obj {
        depth_ok(v, t, d + 1, l)
    } else {
        true
    }
}

/// Whether every value of a map of schemas fits the depth limit.
pub open spec fn depth_map_ok(ms: Seq<(Seq<char>, JsonV)>, t: Target, d: nat, l: nat) -> bool
    decreases l + 1 - d, 0int, ms.len(),
{
    if d > l || ms.len() == 0 {
        true
    } else {
        depth_map_ok(ms.drop_last(), t, d, l) && depth_ok(ms.last().1, t, d + 1, l)
    }
}

/// Whether every element of a list of schemas fits the depth limit.
pub open spec fn depth_list_ok(es: Seq<JsonV>, t: Target, d: nat, l: nat) -> bool
    decreases l + 1 - d, 0int, es.len(),
{
    if d > l || es.len() == 0 {
        true
    } else {
        depth_list_ok(es.drop_last(), t, d, l) && depth_ok(es.last(), t, d + 1, l)
    }
}

/// That `news` extends `olds` by one record per dropped keyword, in
/// order: each with the path of the node the keyword was removed from,
/// the keyword, its original value, and the reason every record of this
/// pass carries.
pub open spec fn drops_appended(
    olds: Seq<DroppedConstraint>,
    news: Seq<DroppedConstraint>,
    ps: Seq<(Seq<char>, Seq<char>, JsonV)>,
) -> bool {
    &&& news.len() == olds.len() + ps.len()
    &&& forall|q: int| 0 <= q < olds.len() ==> news[q] == olds[q]
    &&& forall|q: int|
        0 <= q < ps.len() ==> {
            let e = #[trigger] news[olds.len() + q];
            &&& e.path@ == ps[q].0
            &&& e.constraint@ == ps[q].1
            &&& e.value@ == ps[q].2
            &&& e.reason@ == "unsupported by target"@
        }
}

/// That `news` extends `olds` by one record per rewrite, in order, each
/// matching its rewrite.
pub open spec fn trs_appended(olds: Seq<Transform>, news: Seq<Transform>, rs: Seq<TransformRecV>) -> bool {
    &&& news.len() == olds.len() + rs.len()
    &&& forall|q: int| 0 <= q < olds.len() ==> news[q] == olds[q]
    &&& forall|q: int|
        0 <= q < rs.len() ==> transform_matches(#[trigger] news[olds.len() + q], rs[q])
}

pub proof fn lemma_drops_appended_refl(errs: Seq<DroppedConstraint>)
    ensures
        drops_appended(errs, errs, Seq::empty()),
{
}

pub proof fn lemma_drops_appended_trans(
    a: Seq<DroppedConstraint>,
    b: Seq<DroppedConstraint>,
    c: Seq<DroppedConstraint>,
    x: Seq<(Seq<char>, Seq<char>, JsonV)>,
    y: Seq<(Seq<char>, Seq<char>, JsonV)>,
)
    requires
        drops_appended(a, b, x),
        drops_appended(b, c, y),
    ensures
        drops_appended(a, c, x + y),
{
    assert forall|q: int| 0 <= q < (x + y).len() implies {
        let e = #[trigger] c[a.len() + q];
        &&& e.path@ == (x + y)[q].0
        &&& e.constraint@ == (x + y)[q].1
        &&& e.value@ == (x + y)[q].2
        &&& e.reason@ == "unsupported by target"@
    } by {
        if q < x.len() {
            assert(c[a.len() + q] == b[a.len() + q]);
            assert((x + y)[q] == x[q]);
        } else {
            assert(c[a.len() + q] == c[b.len() + (q - x.len())]);
            assert((x + y)[q] == y[q - x.len()]);
        }
    }
}

pub proof fn lemma_trs_appended_refl(ts: Seq<Transform>)
    ensures
        trs_appended(ts, ts, Seq::empty()),
{
}

pub proof fn lemma_trs_appended_trans(
    a: Seq<Transform>,
    b: Seq<Transform>,
    c: Seq<Transform>,
    x: Seq<TransformRecV>,
    y: Seq<TransformRecV>,
)
    requires
        trs_appended(a, b, x),
        trs_appended(b, c, y),
    ensures
        trs_appended(a, c, x + y),
{
    assert forall|q: int| 0 <= q < (x + y).len() implies transform_matches(
        #[trigger] c[a.len() + q],
        (x + y)[q],
    ) by {
        if q < x.len() {
            assert(c[a.len() + q] == b[a.len() + q]);
            assert((x + y)[q] == x[q]);
        } else {
            assert(c[a.len() + q] == c[b.len() + (q - x.len())]);
            assert((x + y)[q] == y[q - x.len()]);
        }
    }
}

/// A first reordering match is decided by the members before it.
pub proof fn lemma_first_reord_at(fs: Seq<(Seq<char>, JsonV)>, d: JsonV, i: int)
    requires
        0 <= i < fs.len(),
        fs[i].0 == "enum"@ && fs[i].1 is Arr && find_idx(fs[i].1->Arr_0, d) > 0,
        forall|q: int|
            0 <= q < i ==> !((#[trigger] fs[q]).0 == "enum"@ && fs[q].1 is Arr && find_idx(
                fs[q].1->Arr_0,
                d,
            ) > 0),
    ensures
        first_reord_vals(fs, d) == fs[i].1->Arr_0,
    decreases fs,
{
    if i == 0 {
        assert(fs.first() == fs[0]);
    } else {
        assert(fs.first() == fs[0]);
        assert(!(fs[0].0 == "enum"@ && fs[0].1 is Arr && find_idx(fs[0].1->Arr_0, d) > 0));
        assert forall|q: int|
            0 <= q < i - 1 implies !((#[trigger] fs.drop_first()[q]).0 == "enum"@
            && fs.drop_first()[q].1 is Arr && find_idx(fs.drop_first()[q].1->Arr_0, d) > 0) by {
            assert(fs.drop_first()[q] == fs[q + 1]);
        }
        assert(fs.drop_first()[i - 1] == fs[i]);
        lemma_first_reord_at(fs.drop_first(), d, i - 1);
    }
}

/// A found index points at the value looked for.
pub proof fn lemma_find_idx(vals: Seq<JsonV>, d: JsonV)
    ensures
        find_idx(vals, d) >= 0 ==> 0 <= find_idx(vals, d) < vals.len() && vals[find_idx(vals, d)]
            == d,
        find_idx(vals, d) < 0 ==> forall|q: int| 0 <= q < vals.len() ==> vals[q] != d,
    decreases vals,
{
    if vals.len() > 0 {
        lemma_find_idx(vals.drop_first(), d);
        if vals.first() != d {
            if find_idx(vals.drop_first(), d) >= 0 {
                assert(vals[1 + find_idx(vals.drop_first(), d)] == vals.drop_first()[find_idx(
                    vals.drop_first(),
                    d,
                )]);
            } else {
                assert forall|q: int| 0 <= q < vals.len() implies vals[q] != d by {
                    if q > 0 {
                        assert(vals.drop_first()[q - 1] == vals[q]);
                    }
                }
            }
        }
    }
}

/// In a member list that meets the depth limit, every kept member's
/// children meet it too.
pub proof fn lemma_depth_fields_entry(
    fs: Seq<(Seq<char>, JsonV)>,
    t: Target,
    d: nat,
    l: nat,
    i: int,
)
    requires
        depth_fields_ok(fs, t, d, l),
        0 <= i < fs.len(),
        d <= l,
    ensures
        spec_capability(t, fs[i].0) != Capability::Drop ==> depth_child_ok(
            fs[i].0,
            fs[i].1,
            t,
            d,
            l,
        ),
    decreases fs,
{
    if i == fs.len() - 1 {
        assert(fs[i] == fs.last());
    } else {
        lemma_depth_fields_entry(fs.drop_last(), t, d, l, i);
        assert(fs.drop_last()[i] == fs[i]);
    }
}

/// In a schema map that meets the depth limit, every value meets it too.
pub proof fn lemma_depth_map_entry(ms: Seq<(Seq<char>, JsonV)>, t: Target, d: nat, l: nat, i: int)
    requires
        depth_map_ok(ms, t, d, l),
        0 <= i < ms.len(),
        d <= l,
    ensures
        depth_ok(ms[i].1, t, d + 1, l),
    decreases ms,
{
    if i == ms.len() - 1 {
        assert(ms[i] == ms.last());
    } else {
        lemma_depth_map_entry(ms.drop_last(), t, d, l, i);
        assert(ms.drop_last()[i] == ms[i]);
    }
}

/// In a schema list that meets the depth limit, every element meets it too.
pub proof fn lemma_depth_list_entry(es: Seq<JsonV>, t: Target, d: nat, l: nat, i: int)
    requires
        depth_list_ok(es, t, d, l),
        0 <= i < es.len(),
        d <= l,
    ensures
        depth_ok(es[i], t, d + 1, l),
    decreases es,
{
    if i == es.len() - 1 {
        assert(es[i] == es.last());
    } else {
        lemma_depth_list_entry(es.drop_last(), t, d, l, i);
        assert(es.drop_last()[i] == es[i]);
    }
}

/// Index of the first element equal to `d`, if any.
fn find_first(vals: &Vec<Json>, d: &Json) -> (r: Option<usize>)
    ensures
        ({
            let ev = elems_view(vals@);
            match r {
                Some(i) => 0 <= i < vals@.len() && find_idx(ev, d@) == i as int,
                None => find_idx(ev, d@) < 0,
            }
        }),
{
    proof {
        lemma_elems_view(vals@);
    }
    let ghost ev = elems_view(vals@);
    let mut i: usize = 0;
    while i < vals.len()
        invariant
            i <= vals@.len(),
            ev == elems_view(vals@),
            ev.len() == vals@.len(),
            forall|q: int| 0 <= q < ev.len() ==> #[trigger] ev[q] == vals@[q]@,
            forall|q: int| 0 <= q < i ==> #[trigger] ev[q] != d@,
        decreases vals@.len() - i,
    {
        if json_eq(&vals[i], d) {
            proof {
                assert(ev[i as int] == d@);
                lemma_find_idx_at(ev, d@, i as int);
            }
            return Some(i);
        }
        i += 1;
    }
    proof {
        lemma_find_idx(ev, d@);
        if find_idx(ev, d@) >= 0 {
            assert(ev[find_idx(ev, d@)] == d@);
        }
    }
    None
}

/// The first match of a lookup is the first index that holds the value.
pub proof fn lemma_find_idx_at(vals: Seq<JsonV>, d: JsonV, i: int)
    requires
        0 <= i < vals.len(),
        vals[i] == d,
        forall|q: int| 0 <= q < i ==> #[trigger] vals[q] != d,
    ensures
        find_idx(vals, d) == i,
    decreases vals,
{
    if i == 0 {
        assert(vals.first() == d);
    } else {
        assert(vals.first() != d);
        assert forall|q: int| 0 <= q < i - 1 implies #[trigger] vals.drop_first()[q] != d by {
            assert(vals.drop_first()[q] == vals[q + 1]);
        }
        assert(vals.drop_first()[i - 1] == vals[i]);
        lemma_find_idx_at(vals.drop_first(), d, i - 1);
    }
}

/// Prunes the value of one member, recursing only into schema positions.
fn prune_child_rec(
    k: &str,
    v: &Json,
    t: Target,
    edf: bool,
    path: &str,
    depth: usize,
    limit: usize,
    dropped: &mut Vec<DroppedConstraint>,
    transforms: &mut Vec<Transform>,
) -> (r: Result<Json, ConvertError>)
    requires
        depth <= limit,
        limit <= 100,
    ensures
        ({
            let co = prune_child_out(k@, v@, t, edf, path@);
            match r {
                Ok(out) => {
                    &&& depth_child_ok(k@, v@, t, depth as nat, limit as nat)
                    &&& out@ == co.schema
                    &&& drops_appended(old(dropped)@, final(dropped)@, co.drops)
                    &&& trs_appended(old(transforms)@, final(transforms)@, co.trs)
                },
                Err(e) => e is DepthExceeded && !depth_child_ok(
                    k@,
                    v@,
                    t,
                    depth as nat,
                    limit as nat,
                ),
            }
        }),
    decreases height_v(v@), 1int,
{
    let kind_map = str_eq(k, "properties") || str_eq(k, "patternProperties") || str_eq(k, "$defs")
        || str_eq(k, "definitions") || str_eq(k, "dependentSchemas");
    let kind_items = str_eq(k, "items");
    let kind_list = str_eq(k, "prefixItems") || str_eq(k, "anyOf") || str_eq(k, "oneOf") || str_eq(
        k,
        "allOf",
    );
    let kind_single = str_eq(k, "additionalProperties") || str_eq(k, "contains") || str_eq(k, "not")
        || str_eq(k, "if") || str_eq(k, "then") || str_eq(k, "else") || str_eq(k, "propertyNames");
    let is_obj = match v {
        Json::Obj(_) => true,
        _ => false,
    };
    let is_arr = match v {
        Json::Arr(_) => true,
        _ => false,
    };
    if kind_map && is_obj {
        match v {
            Json::Obj(ms) => {
                proof {
                    lemma_fields_view(ms@);
                    lemma_fields_height(fields_view(ms@));
                }
                let ghost msv = fields_view(ms@);
                let base = path_join(path, k);
                let mut out: Vec<(String, Json)> = Vec::new();
                let ghost d0 = dropped@;
                let ghost t0 = transforms@;
                let mut q: usize = 0;
                while q < ms.len()
                    invariant
                        is_map_kw(k@),
                        v is Obj && *ms == v->Obj_0,
                        msv == fields_view(ms@),
                        msv.len() == ms@.len(),
                        forall|p: int|
                            0 <= p < msv.len() ==> #[trigger] msv[p] == (ms@[p].0@, ms@[p].1@),
                        q <= ms@.len(),
                        depth <= limit <= 100,
                        base@ == joined(path@, k@),
                        out@.len() == q,
                        fields_view(out@) == prune_map_out(msv.take(q as int), t, edf, base@).fields,
                        drops_appended(
                            d0,
                            dropped@,
                            prune_map_out(msv.take(q as int), t, edf, base@).drops,
                        ),
                        trs_appended(
                            t0,
                            transforms@,
                            prune_map_out(msv.take(q as int), t, edf, base@).trs,
                        ),
                        depth_map_ok(msv.take(q as int), t, depth as nat, limit as nat),
                    decreases ms@.len() - q,
                {
                    proof {
                        lemma_fields_height(msv);
                        assert(msv[q as int] == (ms@[q as int].0@, ms@[q as int].1@));
                        assert(msv[q as int].1 == ms@[q as int].1@);
                        assert(height_v(msv[q as int].1) <= fields_height(msv));
                        assert(height_v(v@) == 1 + fields_height(msv));
                    }
                    let cp = path_join(base.as_str(), ms[q].0.as_str());
                    let ghost dq = dropped@;
                    let ghost tq = transforms@;
                    let cr = prune_rec(&ms[q].1, t, edf, cp.as_str(), depth + 1, limit, dropped, transforms);
                    match cr {
                        Ok(nv) => {
                            let key = ms[q].0.clone();
                            let ghost prev = out@;
                            out.push((key, nv));
                            proof {
                                let po = prune_out(
                                    msv[q as int].1,
                                    t,
                                    edf,
                                    joined(base@, msv[q as int].0),
                                );
                                assert(out@.drop_last() =~= prev);
                                lemma_fields_view(out@);
                                lemma_fields_view(prev);
                                assert(msv.take(q + 1).drop_last() =~= msv.take(q as int));
                                assert(msv.take(q + 1).last() == msv[q as int]);
                                lemma_drops_appended_trans(
                                    d0,
                                    dq,
                                    dropped@,
                                    prune_map_out(msv.take(q as int), t, edf, base@).drops,
                                    po.drops,
                                );
                                lemma_trs_appended_trans(
                                    t0,
                                    tq,
                                    transforms@,
                                    prune_map_out(msv.take(q as int), t, edf, base@).trs,
                                    po.trs,
                                );
                                assert(fields_view(out@) == fields_view(out@.drop_last()).push((
                                    out@.last().0@,
                                    out@.last().1@,
                                )));
                                assert(fields_view(out@) == prune_map_out(
                                    msv.take(q + 1),
                                    t,
                                    edf,
                                    base@,
                                ).fields);
                            }
                            q += 1;
                        },
                        Err(e) => {
                            proof {
                                assert(v@ == JsonV::Obj(msv));
                                assert(ms@[q as int].1@ == msv[q as int].1);
                                assert(!depth_ok(
                                    msv[q as int].1,
                                    t,
                                    depth as nat + 1,
                                    limit as nat,
                                ));
                                if depth_map_ok(msv, t, depth as nat, limit as nat) {
                                    lemma_depth_map_entry(
                                        msv,
                                        t,
                                        depth as nat,
                                        limit as nat,
                                        q as int,
                                    );
                                    assert(depth_ok(
                                        msv[q as int].1,
                                        t,
                                        depth as nat + 1,
                                        limit as nat,
                                    ));
                                    assert(false);
                                }
                                assert(!depth_map_ok(msv, t, depth as nat, limit as nat));
                                assert(v@->Obj_0 == msv);
                                assert(!depth_child_ok(k@, v@, t, depth as nat, limit as nat));
                            }
                            return Err(e);
                        },
                    }
                }
                proof {
                    assert(msv.take(ms@.len() as int) =~= msv);
                }
                Ok(Json::Obj(out))
            },
            _ => {
                proof {
                    lemma_drops_appended_refl(dropped@);
                    lemma_trs_appended_refl(transforms@);
                }
                Ok(v.duplicate())
            },
        }
    } else if kind_items || (kind_list && is_arr) {
        if is_obj && kind_items {
            let cp = path_join(path, k);
            let r = prune_rec(v, t, edf, cp.as_str(), depth + 1, limit, dropped, transforms);
            r
        } else if is_arr {
            match v {
                Json::Arr(es) => {
                    proof {
                        lemma_elems_view(es@);
                        lemma_elems_height(elems_view(es@));
                    }
                    let ghost esv = elems_view(es@);
                    let base = path_join(path, k);
                    let mut out: Vec<Json> = Vec::new();
                    let ghost d0 = dropped@;
                    let ghost t0 = transforms@;
                    let mut q: usize = 0;
                    while q < es.len()
                        invariant
                            k@ == "items"@ || is_list_kw(k@),
                            v is Arr && *es == v->Arr_0,
                            esv == elems_view(es@),
                            esv.len() == es@.len(),
                            forall|p: int| 0 <= p < esv.len() ==> #[trigger] esv[p] == es@[p]@,
                            q <= es@.len(),
                            depth <= limit <= 100,
                            base@ == joined(path@, k@),
                            out@.len() == q,
                            elems_view(out@) == prune_list_out(
                                esv.take(q as int),
                                t,
                                edf,
                                base@,
                            ).elems,
                            drops_appended(
                                d0,
                                dropped@,
                                prune_list_out(esv.take(q as int), t, edf, base@).drops,
                            ),
                            trs_appended(
                                t0,
                                transforms@,
                                prune_list_out(esv.take(q as int), t, edf, base@).trs,
                            ),
                            depth_list_ok(esv.take(q as int), t, depth as nat, limit as nat),
                        decreases es@.len() - q,
                    {
                        proof {
                            lemma_elems_height(esv);
                            assert(esv[q as int] == es@[q as int]@);
                            assert(height_v(esv[q as int]) <= elems_height(esv));
                            assert(height_v(v@) == 1 + elems_height(esv));
                        }
                        let cp = path_join_index(base.as_str(), q);
                        let ghost dq = dropped@;
                        let ghost tq = transforms@;
                        let cr = prune_rec(&es[q], t, edf, cp.as_str(), depth + 1, limit, dropped, transforms);
                        match cr {
                            Ok(nv) => {
                                let ghost prev = out@;
                                out.push(nv);
                                proof {
                                    let po = prune_out(
                                        esv[q as int],
                                        t,
                                        edf,
                                        joined(base@, dec_str(q as nat)),
                                    );
                                    assert(out@.drop_last() =~= prev);
                                    lemma_elems_view(out@);
                                    lemma_elems_view(prev);
                                    assert(esv.take(q + 1).drop_last() =~= esv.take(q as int));
                                    assert(esv.take(q + 1).last() == esv[q as int]);
                                    assert((esv.take(q + 1).len() - 1) as nat == q as nat);
                                    lemma_drops_appended_trans(
                                        d0,
                                        dq,
                                        dropped@,
                                        prune_list_out(esv.take(q as int), t, edf, base@).drops,
                                        po.drops,
                                    );
                                    lemma_trs_appended_trans(
                                        t0,
                                        tq,
                                        transforms@,
                                        prune_list_out(esv.take(q as int), t, edf, base@).trs,
                                        po.trs,
                                    );
                                    assert(elems_view(out@) == elems_view(out@.drop_last()).push(
                                        out@.last()@,
                                    ));
                                    assert(elems_view(out@) == prune_list_out(
                                        esv.take(q + 1),
                                        t,
                                        edf,
                                        base@,
                                    ).elems);
                                }
                                q += 1;
                            },
                            Err(e) => {
                                proof {
                                    assert(v@ == JsonV::Arr(esv));
                                    assert(es@[q as int]@ == esv[q as int]);
                                    assert(!depth_ok(
                                        esv[q as int],
                                        t,
                                        depth as nat + 1,
                                        limit as nat,
                                    ));
                                    if depth_list_ok(esv, t, depth as nat, limit as nat) {
                                        lemma_depth_list_entry(
                                            esv,
                                            t,
                                            depth as nat,
                                            limit as nat,
                                            q as int,
                                        );
                                    }
                                    assert(!depth_child_ok(k@, v@, t, depth as nat, limit as nat));
                                }
                                return Err(e);
                            },
                        }
                    }
                    proof {
                        assert(esv.take(es@.len() as int) =~= esv);
                    }
                    Ok(Json::Arr(out))
                },
                _ => {
                    proof {
                        lemma_drops_appended_refl(dropped@);
                        lemma_trs_appended_refl(transforms@);
                    }
                    Ok(v.duplicate())
                },
            }
        } else {
            proof {
                lemma_drops_appended_refl(dropped@);
                lemma_trs_appended_refl(transforms@);
            }
            Ok(v.duplicate())
        }
    } else if kind_single && is_obj {
        let cp = path_join(path, k);
        let r = prune_rec(v, t, edf, cp.as_str(), depth + 1, limit, dropped, transforms);
        r
    } else {
        proof {
            lemma_drops_appended_refl(dropped@);
            lemma_trs_appended_refl(transforms@);
        }
        Ok(v.duplicate())
    }
}

/// Prunes one schema node and its schema children.
///
/// Every keyword the target drops is removed and recorded with its
/// original value; `const` becomes a one-element `enum` where the target
/// requires it; enums are reordered to put the node's `default` first.
/// Fails only when an object node stands deeper than the depth limit.
fn prune_rec(
    j: &Json,
    t: Target,
    edf: bool,
    path: &str,
    depth: usize,
    limit: usize,
    dropped: &mut Vec<DroppedConstraint>,
    transforms: &mut Vec<Transform>,
) -> (r: Result<Json, ConvertError>)
    requires
        depth <= limit + 1,
        limit <= 100,
    ensures
        ({
            let po = prune_out(j@, t, edf, path@);
            match r {
                Ok(out) => {
                    &&& depth_ok(j@, t, depth as nat, limit as nat)
                    &&& out@ == po.schema
                    &&& drops_appended(old(dropped)@, final(dropped)@, po.drops)
                    &&& trs_appended(old(transforms)@, final(transforms)@, po.trs)
                },
                Err(e) => e is DepthExceeded && !depth_ok(j@, t, depth as nat, limit as nat),
            }
        }),
    decreases height_v(j@), 0int,
{
    let fields = match j {
        Json::Obj(fields) => fields,
        _ => {
            proof {
                lemma_drops_appended_refl(dropped@);
                lemma_trs_appended_refl(transforms@);
            }
            return Ok(j.duplicate());
        },
    };
    if depth > limit {
        return Err(
            ConvertError::DepthExceeded {
                hint: String::from_str("schema nesting goes past the configured depth limit"),
            },
        );
    }
    proof {
        lemma_fields_view(fields@);
        lemma_fields_height(fields_view(fields@));
    }
    let ghost fsv = fields_view(fields@);
    let ghost d0 = dropped@;
    let ghost t0 = transforms@;
    let mut kept: Vec<(String, Json)> = Vec::new();
    let mut dflt: Option<Json> = None;
    let mut i: usize = 0;
    while i < fields.len()
        invariant
            j is Obj && *fields == j->Obj_0,
            fsv == fields_view(fields@),
            fsv.len() == fields@.len(),
            forall|p: int| 0 <= p < fsv.len() ==> #[trigger] fsv[p] == (fields@[p].0@, fields@[p].1@),
            i <= fields@.len(),
            depth <= limit <= 100,
            fields_view(kept@) == prune_fields_out(fsv.take(i as int), t, edf, path@).fields,
            drops_appended(
                d0,
                dropped@,
                prune_fields_out(fsv.take(i as int), t, edf, path@).drops,
            ),
            trs_appended(
                t0,
                transforms@,
                prune_fields_out(fsv.take(i as int), t, edf, path@).trs,
            ),
            depth_fields_ok(fsv.take(i as int), t, depth as nat, limit as nat),
            match dflt {
                Some(x) => obj_get_v(fsv.take(i as int), "default"@) == Some(x@),
                None => obj_get_v(fsv.take(i as int), "default"@) is None,
            },
        decreases fields@.len() - i,
    {
        proof {
            lemma_fields_height(fsv);
            assert(fsv[i as int] == (fields@[i as int].0@, fields@[i as int].1@));
            assert(fsv[i as int].1 == fields@[i as int].1@);
            assert(height_v(fsv[i as int].1) <= fields_height(fsv));
            assert(height_v(j@) == 1 + fields_height(fsv));
            assert(fsv.take(i + 1).drop_last() =~= fsv.take(i as int));
            assert(fsv.take(i + 1).last() == fsv[i as int]);
            assert(fsv.take(i + 1) =~= fsv.take(i as int).push(fsv[i as int]));
            lemma_obj_get_push(fsv.take(i as int), fsv[i as int], "default"@);
        }
        let k = fields[i].0.as_str();
        let v = &fields[i].1;
        proof {
            assert(v@ == fsv[i as int].1);
            assert(k@ == fsv[i as int].0);
        }
        let keep_default = match dflt {
            None => true,
            Some(_) => false,
        };
        if keep_default && str_eq(k, "default") {
            dflt = Some(v.duplicate());
        }
        let c = capability(t, k);
        if c == Capability::Drop {
            let e = DroppedConstraint {
                path: String::from_str(path),
                constraint: fields[i].0.clone(),
                value: v.duplicate(),
                reason: String::from_str("unsupported by target"),
            };
            let ghost dq = dropped@;
            dropped.push(e);
            proof {
                assert(dropped@.drop_last() =~= dq);
                assert(drops_appended(dq, dropped@, seq![(path@, k@, v@)]));
                lemma_drops_appended_trans(
                    d0,
                    dq,
                    dropped@,
                    prune_fields_out(fsv.take(i as int), t, edf, path@).drops,
                    seq![(path@, k@, v@)],
                );
            }
        } else {
            let ghost dq = dropped@;
            let ghost tq = transforms@;
            let cr = prune_child_rec(k, v, t, edf, path, depth, limit, dropped, transforms);
            match cr {
                Ok(nv) => {
                    let key = fields[i].0.clone();
                    let ghost prev = kept@;
                    kept.push((key, nv));
                    proof {
                        assert(kept@.drop_last() =~= prev);
                        lemma_fields_view(kept@);
                        lemma_fields_view(prev);
                        let co = prune_child_out(
                            fsv[i as int].0,
                            fsv[i as int].1,
                            t,
                            edf,
                            path@,
                        );
                        lemma_drops_appended_trans(
                            d0,
                            dq,
                            dropped@,
                            prune_fields_out(fsv.take(i as int), t, edf, path@).drops,
                            co.drops,
                        );
                        lemma_trs_appended_trans(
                            t0,
                            tq,
                            transforms@,
                            prune_fields_out(fsv.take(i as int), t, edf, path@).trs,
                            co.trs,
                        );
                        assert(fields_view(kept@) == fields_view(kept@.drop_last()).push((
                            kept@.last().0@,
                            kept@.last().1@,
                        )));
                    }
                },
                Err(e) => {
                    proof {
                        if depth_fields_ok(fsv, t, depth as nat, limit as nat) {
                            lemma_depth_fields_entry(fsv, t, depth as nat, limit as nat, i as int);
                        }
                    }
                    return Err(e);
                },
            }
        }
        i += 1;
    }
    proof {
        assert(fsv.take(fields@.len() as int) =~= fsv);
    }
    let ghost pf = prune_fields_out(fsv, t, edf, path@);
    let ghost dref = obj_get_v(fsv, "default"@);
    proof {
        lemma_fields_view(kept@);
    }
    // `const` rewrite
    let cap_const = capability(t, "const");
    let has_const = match obj_get(&kept, "const") {
        Some(_) => true,
        None => false,
    };
    let ghost kv1 = fields_view(kept@);
    let mut kept2: Vec<(String, Json)> = Vec::new();
    if cap_const == Capability::Rewrite && has_const {
        let has_enum = match obj_get(&kept, "enum") {
            Some(_) => true,
            None => false,
        };
        let mut q: usize = 0;
        if has_enum {
            while q < kept.len()
                invariant
                    kv1 == fields_view(kept@),
                    kv1.len() == kept@.len(),
                    forall|p: int|
                        0 <= p < kv1.len() ==> #[trigger] kv1[p] == (kept@[p].0@, kept@[p].1@),
                    q <= kept@.len(),
                    fields_view(kept2@) == remove_key(kv1.take(q as int), "const"@),
                decreases kept@.len() - q,
            {
                proof {
                    assert(kv1[q as int] == (kept@[q as int].0@, kept@[q as int].1@));
                    assert(kv1.take(q + 1).drop_last() =~= kv1.take(q as int));
                    assert(kv1.take(q + 1).last() == kv1[q as int]);
                }
                if !str_eq(kept[q].0.as_str(), "const") {
                    let key = kept[q].0.clone();
                    let vv = kept[q].1.duplicate();
                    let ghost prev = kept2@;
                    kept2.push((key, vv));
                    proof {
                        assert(kept2@.drop_last() =~= prev);
                        lemma_fields_view(kept2@);
                        lemma_fields_view(prev);
                        assert(fields_view(kept2@) == fields_view(kept2@.drop_last()).push((
                            kept2@.last().0@,
                            kept2@.last().1@,
                        )));
                    }
                }
                q += 1;
            }
        } else {
            while q < kept.len()
                invariant
                    kv1 == fields_view(kept@),
                    kv1.len() == kept@.len(),
                    forall|p: int|
                        0 <= p < kv1.len() ==> #[trigger] kv1[p] == (kept@[p].0@, kept@[p].1@),
                    q <= kept@.len(),
                    kept2@.len() == q,
                    forall|p: int|
                        0 <= p < q ==> #[trigger] fields_view(kept2@)[p] == replace_const(kv1)[p],
                    fields_view(kept2@).len() == q,
                decreases kept@.len() - q,
            {
                proof {
                    assert(kv1[q as int] == (kept@[q as int].0@, kept@[q as int].1@));
                }
                if str_eq(kept[q].0.as_str(), "const") {
                    let mut one: Vec<Json> = Vec::new();
                    one.push(kept[q].1.duplicate());
                    proof {
                        lemma_elems_view(one@);
                        assert(elems_view(one@) =~= seq![kv1[q as int].1]);
                    }
                    let key = String::from_str("enum");
                    let ghost prev = kept2@;
                    kept2.push((key, Json::Arr(one)));
                    proof {
                        assert(kept2@.drop_last() =~= prev);
                        lemma_fields_view(kept2@);
                        lemma_fields_view(prev);
                        assert(fields_view(kept2@) == fields_view(kept2@.drop_last()).push((
                            kept2@.last().0@,
                            kept2@.last().1@,
                        )));
                        assert(fields_view(kept2@)[q as int] == replace_const(kv1)[q as int]);
                    }
                } else {
                    let key = kept[q].0.clone();
                    let vv = kept[q].1.duplicate();
                    let ghost prev = kept2@;
                    kept2.push((key, vv));
                    proof {
                        assert(kept2@.drop_last() =~= prev);
                        lemma_fields_view(kept2@);
                        lemma_fields_view(prev);
                        assert(fields_view(kept2@) == fields_view(kept2@.drop_last()).push((
                            kept2@.last().0@,
                            kept2@.last().1@,
                        )));
                        assert(fields_view(kept2@)[q as int] == replace_const(kv1)[q as int]);
                    }
                }
                q += 1;
            }
            proof {
                assert(fields_view(kept2@) =~= replace_const(kv1));
            }
        }
        let e = Transform::ConstToEnum { path: String::from_str(path) };
        let ghost tq = transforms@;
        transforms.push(e);
        proof {
            assert(transforms@.drop_last() =~= tq);
            assert(trs_appended(tq, transforms@, seq![TransformRecV::C2E { path: path@ }]));
            lemma_trs_appended_trans(
                t0,
                tq,
                transforms@,
                pf.trs,
                seq![TransformRecV::C2E { path: path@ }],
            );
            assert(kv1.take(kept@.len() as int) =~= kv1);
            assert(node_c2e(kv1, t));
            assert(fields_view(kept2@) == rewritten(kv1, t));
        }
    } else {
        let mut q: usize = 0;
        while q < kept.len()
            invariant
                kv1 == fields_view(kept@),
                kv1.len() == kept@.len(),
                forall|p: int|
                    0 <= p < kv1.len() ==> #[trigger] kv1[p] == (kept@[p].0@, kept@[p].1@),
                q <= kept@.len(),
                fields_view(kept2@) == kv1.take(q as int),
            decreases kept@.len() - q,
        {
            proof {
                assert(kv1[q as int] == (kept@[q as int].0@, kept@[q as int].1@));
                assert(kv1.take(q + 1).drop_last() =~= kv1.take(q as int));
                assert(kv1.take(q + 1).last() == kv1[q as int]);
            }
            let key = kept[q].0.clone();
            let vv = kept[q].1.duplicate();
            let ghost prev = kept2@;
            kept2.push((key, vv));
            proof {
                assert(kept2@.drop_last() =~= prev);
                lemma_fields_view(kept2@);
                lemma_fields_view(prev);
                assert(fields_view(kept2@) == fields_view(kept2@.drop_last()).push((
                    kept2@.last().0@,
                    kept2@.last().1@,
                )));
            }
            q += 1;
        }
        proof {
            assert(kv1.take(kept@.len() as int) =~= kv1);
            assert(!node_c2e(kv1, t));
            assert(fields_view(kept2@) == rewritten(kv1, t));
        }
    }
    let ghost kv2 = fields_view(kept2@);
    let ghost c2e_part: Seq<TransformRecV> = if node_c2e(kv1, t) {
        seq![TransformRecV::C2E { path: path@ }]
    } else {
        Seq::empty()
    };
    proof {
        lemma_fields_view(kept2@);
        if !node_c2e(kv1, t) {
            assert(pf.trs + c2e_part =~= pf.trs);
        }
        assert(trs_appended(t0, transforms@, pf.trs + c2e_part));
    }
    let ghost trs_c2e = transforms@;
    // enum reordering
    let mut kept3: Vec<(String, Json)> = Vec::new();
    let mut changed = false;
    let mut original: Option<Vec<Json>> = None;
    let do_reorder = edf && (match dflt {
        Some(_) => true,
        None => false,
    });
    if do_reorder {
        let dref_v = match &dflt {
            Some(x) => x,
            None => unreached(),
        };
        let ghost dv = dref_v@;
        let mut q: usize = 0;
        while q < kept2.len()
            invariant
                kv2 == fields_view(kept2@),
                kv2.len() == kept2@.len(),
                forall|p: int|
                    0 <= p < kv2.len() ==> #[trigger] kv2[p] == (kept2@[p].0@, kept2@[p].1@),
                q <= kept2@.len(),
                edf,
                dflt is Some,
                dv == dflt->0@,
                dref_v@ == dv,
                kept3@.len() == q,
                fields_view(kept3@).len() == q,
                forall|p: int|
                    0 <= p < q ==> #[trigger] fields_view(kept3@)[p] == reordered(
                        kv2,
                        Some(dv),
                        edf,
                    )[p],
                changed == exists|p: int|
                    0 <= p < q && (#[trigger] kv2[p]).0 == "enum"@ && kv2[p].1 is Arr && find_idx(
                        kv2[p].1->Arr_0,
                        dv,
                    ) > 0,
                match original {
                    Some(o) => changed && elems_view(o@) == first_reord_vals(kv2, dv),
                    None => !changed,
                },
            decreases kept2@.len() - q,
        {
            proof {
                assert(kv2[q as int] == (kept2@[q as int].0@, kept2@[q as int].1@));
            }
            let k2 = kept2[q].0.as_str();
            let v2 = &kept2[q].1;
            let mut handled = false;
            if str_eq(k2, "enum") {
                match v2 {
                    Json::Arr(vals) => {
                        proof {
                            lemma_elems_view(vals@);
                            assert(v2@ == JsonV::Arr(elems_view(vals@)));
                        }
                        let ghost ev = elems_view(vals@);
                        let fo = find_first(vals, dref_v);
                        match fo {
                            Some(idx) => {
                                if idx > 0 {
                                    proof {
                                        lemma_find_idx(ev, dv);
                                    }
                                    if changed == false {
                                        let mut orig_copy: Vec<Json> = Vec::new();
                                        let mut w: usize = 0;
                                        while w < vals.len()
                                            invariant
                                                w <= vals@.len(),
                                                orig_copy@.len() == w,
                                                forall|p: int|
                                                    0 <= p < w ==> #[trigger] orig_copy@[p]@
                                                        == vals@[p]@,
                                            decreases vals@.len() - w,
                                        {
                                            let dd = vals[w].duplicate();
                                            orig_copy.push(dd);
                                            w += 1;
                                        }
                                        proof {
                                            lemma_elems_view(orig_copy@);
                                            assert(elems_view(orig_copy@) =~= ev);
                                            assert(kv2[q as int].0 == "enum"@ && kv2[q as int].1
                                                is Arr && find_idx(kv2[q as int].1->Arr_0, dv)
                                                > 0);
                                            lemma_first_reord_at(kv2, dv, q as int);
                                            assert(first_reord_vals(kv2, dv) == ev);
                                        }
                                        original = Some(orig_copy);
                                    }
                                    let mut nv: Vec<Json> = Vec::new();
                                    let first = vals[idx].duplicate();
                                    nv.push(first);
                                    proof {
                                        lemma_elems_view(nv@);
                                        assert(nv@.drop_last() =~= Seq::empty());
                                        assert(elems_view(nv@) =~= seq![ev[idx as int]]);
                                        assert(ev[idx as int] == dv);
                                    }
                                    let mut w: usize = 0;
                                    while w < vals.len()
                                        invariant
                                            ev == elems_view(vals@),
                                            ev.len() == vals@.len(),
                                            forall|p: int|
                                                0 <= p < ev.len() ==> #[trigger] ev[p]
                                                    == vals@[p]@,
                                            w <= vals@.len(),
                                            0 < idx < vals@.len(),
                                            find_idx(ev, dv) == idx as int,
                                            ev[idx as int] == dv,
                                            nv@.len() == 1 + (if w <= idx {
                                                w as int
                                            } else {
                                                w - 1
                                            }),
                                            elems_view(nv@).len() == nv@.len(),
                                            elems_view(nv@)[0] == dv,
                                            forall|p: int|
                                                1 <= p < nv@.len() ==> #[trigger] elems_view(
                                                    nv@,
                                                )[p] == ev.remove(idx as int)[p - 1],
                                        decreases vals@.len() - w,
                                    {
                                        proof {
                                            lemma_elems_view(nv@);
                                        }
                                        if w != idx {
                                            let dd = vals[w].duplicate();
                                            let ghost prev = nv@;
                                            nv.push(dd);
                                            proof {
                                                assert(nv@.drop_last() =~= prev);
                                                lemma_elems_view(nv@);
                                                lemma_elems_view(prev);
                                                assert(elems_view(nv@) == elems_view(
                                                    nv@.drop_last(),
                                                ).push(nv@.last()@));
                                                if w < idx {
                                                    assert(ev.remove(idx as int)[nv@.len() - 2]
                                                        == ev[w as int]);
                                                } else {
                                                    assert(ev.remove(idx as int)[nv@.len() - 2]
                                                        == ev[w as int]);
                                                }
                                            }
                                        }
                                        w += 1;
                                    }
                                    proof {
                                        lemma_elems_view(nv@);
                                        assert(elems_view(nv@) =~= seq![dv] + ev.remove(
                                            idx as int,
                                        ));
                                        assert(elems_view(nv@) == reorder_vals(ev, dv));
                                    }
                                    let key = kept2[q].0.clone();
                                    let ghost prev = kept3@;
                                    kept3.push((key, Json::Arr(nv)));
                                    changed = true;
                                    handled = true;
                                    proof {
                                        assert(kept3@.drop_last() =~= prev);
                                        lemma_fields_view(kept3@);
                                        lemma_fields_view(prev);
                                        assert(fields_view(kept3@) == fields_view(
                                            kept3@.drop_last(),
                                        ).push((kept3@.last().0@, kept3@.last().1@)));
                                        assert(fields_view(kept3@)[q as int] == reordered(
                                            kv2,
                                            Some(dv),
                                            edf,
                                        )[q as int]);
                                    }
                                } else {
                                    proof {
                                        assert(find_idx(ev, dv) == 0);
                                        assert(reorder_vals(ev, dv) == ev);
                                    }
                                }
                            },
                            None => {
                                proof {
                                    assert(find_idx(ev, dv) < 0);
                                    assert(reorder_vals(ev, dv) == ev);
                                }
                            },
                        }
                    },
                    _ => {},
                }
            }
            if !handled {
                let key = kept2[q].0.clone();
                let vv = kept2[q].1.duplicate();
                let ghost prev = kept3@;
                kept3.push((key, vv));
                proof {
                    assert(kept3@.drop_last() =~= prev);
                    lemma_fields_view(kept3@);
                    lemma_fields_view(prev);
                    assert(fields_view(kept3@) == fields_view(kept3@.drop_last()).push((
                        kept3@.last().0@,
                        kept3@.last().1@,
                    )));
                    if kv2[q as int].0 == "enum"@ && kv2[q as int].1 is Arr {
                        assert(reorder_vals(kv2[q as int].1->Arr_0, dv) == kv2[q as int].1->Arr_0);
                        assert(fields_view(kept3@)[q as int] == reordered(kv2, Some(dv), edf)[
                            q as int
                        ]);
                    } else {
                        assert(fields_view(kept3@)[q as int] == reordered(kv2, Some(dv), edf)[
                            q as int
                        ]);
                    }
                }
            }
            q += 1;
        }
        proof {
            assert(fields_view(kept3@) =~= reordered(kv2, Some(dv), edf));
            assert(dref == Some(dv));
            assert(changed == node_reord(kv2, dref, edf));
        }
        let ghost reord_part: Seq<TransformRecV> = if changed {
            seq![
                TransformRecV::Reord { path: path@, original_order: first_reord_vals(kv2, dv) },
            ]
        } else {
            Seq::empty()
        };
        if changed {
            let orig_vec = match original {
                Some(o) => o,
                None => unreached(),
            };
            proof {
                assert(elems_view(orig_vec@) == first_reord_vals(kv2, dv));
            }
            let e = Transform::EnumReordered {
                path: String::from_str(path),
                original_order: orig_vec,
            };
            let ghost tq = transforms@;
            proof {
                assert(transform_matches(
                    e,
                    TransformRecV::Reord {
                        path: path@,
                        original_order: first_reord_vals(kv2, dv),
                    },
                ));
            }
            transforms.push(e);
            proof {
                assert(transforms@.drop_last() =~= tq);
                assert(trs_appended(tq, transforms@, reord_part));
            }
        }
        proof {
            if !changed {
                assert((pf.trs + c2e_part) + reord_part =~= pf.trs + c2e_part);
            }
            lemma_trs_appended_trans(t0, trs_c2e, transforms@, pf.trs + c2e_part, reord_part);
            let po = prune_out(j@, t, edf, path@);
            assert(po.schema == JsonV::Obj(fields_view(kept3@)));
            assert(node_transforms(pf.fields, kv2, dref, edf, t, path@) == c2e_part + reord_part);
            assert(po.trs =~= (pf.trs + c2e_part) + reord_part);
            assert(trs_appended(t0, transforms@, po.trs));
        }
        Ok(Json::Obj(kept3))
    } else {
        proof {
            assert(!node_reord(kv2, dref, edf)) by {
                if edf {
                    assert(dref is None);
                }
            }
            assert(reordered(kv2, dref, edf) == kv2) by {
                if edf {
                    assert(dref is None);
                }
            }
            let po = prune_out(j@, t, edf, path@);
            assert(po.schema == JsonV::Obj(kv2));
            assert(node_transforms(pf.fields, kv2, dref, edf, t, path@) =~= c2e_part);
            assert(po.trs =~= pf.trs + c2e_part);
            assert(trs_appended(t0, transforms@, po.trs));
        }
        Ok(Json::Obj(kept2))
    }
}

/// Prunes unsupported constraints from a schema for the target provider.
///
/// Walks every schema node and, per node: removes each keyword the
/// capability matrix drops for the target, recording it with its original
/// value; rewrites `const` into a one-element `enum` where the target
/// requires that; and, when enabled, reorders every `enum` so the node's
/// `default` value comes first.  Non-object schemas pass through
/// untouched.  Fails only when an object node stands deeper than the
/// configured depth limit.
pub fn prune_constraints(schema: &Json, config: &ConvertOptions) -> (r: Result<
    ConstraintPassResult,
    ConvertError,
>)
    ensures
        ({
            let l: nat = if config.max_depth <= 100 {
                config.max_depth as nat
            } else {
                100
            };
            let po = prune_out(schema@, config.target, config.enum_default_first, "#"@);
            match r {
                Ok(res) => {
                    &&& depth_ok(schema@, config.target, 0, l)
                    &&& res.schema@ == po.schema
                    &&& drops_appended(Seq::empty(), res.dropped_constraints@, po.drops)
                    &&& trs_appended(Seq::empty(), res.transforms@, po.trs)
                    &&& (!(schema@ is Obj) ==> res.schema@ == schema@
                        && res.dropped_constraints@.len() == 0 && res.transforms@.len() == 0)
                    &&& (is_schema_node(schema@) ==> is_schema_node(res.schema@))
                },
                Err(e) => e is DepthExceeded && !depth_ok(schema@, config.target, 0, l),
            }
        }),
{
    let limit = if config.max_depth < HARD_RECURSION_LIMIT {
        config.max_depth
    } else {
        HARD_RECURSION_LIMIT
    };
    let mut dropped: Vec<DroppedConstraint> = Vec::new();
    let mut transforms: Vec<Transform> = Vec::new();
    let r = prune_rec(
        schema,
        config.target,
        config.enum_default_first,
        "#",
        0,
        limit,
        &mut dropped,
        &mut transforms,
    );
    match r {
        Ok(s) => {
            proof {
                if !(schema@ is Obj) {
                    assert(prune_out(
                        schema@,
                        config.target,
                        config.enum_default_first,
                        "#"@,
                    ).schema == schema@);
                }
                if schema@ is Obj {
                    assert(prune_out(
                        schema@,
                        config.target,
                        config.enum_default_first,
                        "#"@,
                    ).schema is Obj);
                }
            }
            Ok(ConstraintPassResult { schema: s, dropped_constraints: dropped, transforms })
        },
        Err(e) => Err(e),
    }
}


/// The `enum` keyword is kept by every target and is no schema position.
pub proof fn lemma_enum_kw(t: Target)
    ensures
        spec_capability(t, "enum"@) != Capability::Drop,
        !is_map_kw("enum"@),
        !is_list_kw("enum"@),
        !is_single_kw("enum"@),
        "enum"@ != "items"@,
        "enum"@ != "default"@,
        "enum"@ != "const"@,
{
    reveal_strlit("$defs");
    reveal_strlit("$ref");
    reveal_strlit("additionalProperties");
    reveal_strlit("allOf");
    reveal_strlit("anyOf");
    reveal_strlit("const");
    reveal_strlit("contains");
    reveal_strlit("default");
    reveal_strlit("definitions");
    reveal_strlit("dependentSchemas");
    reveal_strlit("else");
    reveal_strlit("enum");
    reveal_strlit("exclusiveMaximum");
    reveal_strlit("exclusiveMinimum");
    reveal_strlit("format");
    reveal_strlit("if");
    reveal_strlit("items");
    reveal_strlit("maxItems");
    reveal_strlit("maxLength");
    reveal_strlit("maximum");
    reveal_strlit("minItems");
    reveal_strlit("minLength");
    reveal_strlit("minimum");
    reveal_strlit("multipleOf");
    reveal_strlit("not");
    reveal_strlit("oneOf");
    reveal_strlit("pattern");
    reveal_strlit("patternProperties");
    reveal_strlit("prefixItems");
    reveal_strlit("properties");
    reveal_strlit("propertyNames");
    reveal_strlit("then");
    reveal_strlit("uniqueItems");
    assert(("enum")@ != ("const")@) by {
        assert(("enum")@.len() == 4);
        assert(("const")@.len() == 5);
    }
    assert(("enum")@ != ("minimum")@) by {
        assert(("enum")@.len() == 4);
        assert(("minimum")@.len() == 7);
    }
    assert(("enum")@ != ("maximum")@) by {
        assert(("enum")@.len() == 4);
        assert(("maximum")@.len() == 7);
    }
    assert(("enum")@ != ("exclusiveMinimum")@) by {
        assert(("enum")@.len() == 4);
        assert(("exclusiveMinimum")@.len() == 16);
    }
    assert(("enum")@ != ("exclusiveMaximum")@) by {
        assert(("enum")@.len() == 4);
        assert(("exclusiveMaximum")@.len() == 16);
    }
    assert(("enum")@ != ("multipleOf")@) by {
        assert(("enum")@.len() == 4);
        assert(("multipleOf")@.len() == 10);
    }
    assert(("enum")@ != ("minLength")@) by {
        assert(("enum")@.len() == 4);
        assert(("minLength")@.len() == 9);
    }
    assert(("enum")@ != ("maxLength")@) by {
        assert(("enum")@.len() == 4);
        assert(("maxLength")@.len() == 9);
    }
    assert(("enum")@ != ("minItems")@) by {
        assert(("enum")@.len() == 4);
        assert(("minItems")@.len() == 8);
    }
    assert(("enum")@ != ("maxItems")@) by {
        assert(("enum")@.len() == 4);
        assert(("maxItems")@.len() == 8);
    }
    assert(("enum")@ != ("uniqueItems")@) by {
        assert(("enum")@.len() == 4);
        assert(("uniqueItems")@.len() == 11);
    }
    assert(("enum")@ != ("pattern")@) by {
        assert(("enum")@.len() == 4);
        assert(("pattern")@.len() == 7);
    }
    assert(("enum")@ != ("format")@) by {
        assert(("enum")@.len() == 4);
        assert(("format")@.len() == 6);
    }
    assert(("enum")@ != ("not")@) by {
        assert(("enum")@.len() == 4);
        assert(("not")@.len() == 3);
    }
    assert(("enum")@ != ("if")@) by {
        assert(("enum")@.len() == 4);
        assert(("if")@.len() == 2);
    }
    assert(("enum")@ != ("then")@) by {
        assert(("enum")@[0] == 'e');
        assert(("then")@[0] == 't');
    }
    assert(("enum")@ != ("else")@) by {
        assert(("enum")@[1] == 'n');
        assert(("else")@[1] == 'l');
    }
    assert(("enum")@ != ("default")@) by {
        assert(("enum")@.len() == 4);
        assert(("default")@.len() == 7);
    }
    assert(("enum")@ != ("$ref")@) by {
        assert(("enum")@[0] == 'e');
        assert(("$ref")@[0] == '$');
    }
    assert(("enum")@ != ("properties")@) by {
        assert(("enum")@.len() == 4);
        assert(("properties")@.len() == 10);
    }
    assert(("enum")@ != ("patternProperties")@) by {
        assert(("enum")@.len() == 4);
        assert(("patternProperties")@.len() == 17);
    }
    assert(("enum")@ != ("$defs")@) by {
        assert(("enum")@.len() == 4);
        assert(("$defs")@.len() == 5);
    }
    assert(("enum")@ != ("definitions")@) by {
        assert(("enum")@.len() == 4);
        assert(("definitions")@.len() == 11);
    }
    assert(("enum")@ != ("dependentSchemas")@) by {
        assert(("enum")@.len() == 4);
        assert(("dependentSchemas")@.len() == 16);
    }
    assert(("enum")@ != ("items")@) by {
        assert(("enum")@.len() == 4);
        assert(("items")@.len() == 5);
    }
    assert(("enum")@ != ("prefixItems")@) by {
        assert(("enum")@.len() == 4);
        assert(("prefixItems")@.len() == 11);
    }
    assert(("enum")@ != ("anyOf")@) by {
        assert(("enum")@.len() == 4);
        assert(("anyOf")@.len() == 5);
    }
    assert(("enum")@ != ("oneOf")@) by {
        assert(("enum")@.len() == 4);
        assert(("oneOf")@.len() == 5);
    }
    assert(("enum")@ != ("allOf")@) by {
        assert(("enum")@.len() == 4);
        assert(("allOf")@.len() == 5);
    }
    assert(("enum")@ != ("additionalProperties")@) by {
        assert(("enum")@.len() == 4);
        assert(("additionalProperties")@.len() == 20);
    }
    assert(("enum")@ != ("contains")@) by {
        assert(("enum")@.len() == 4);
        assert(("contains")@.len() == 8);
    }
    assert(("enum")@ != ("propertyNames")@) by {
        assert(("enum")@.len() == 4);
        assert(("propertyNames")@.len() == 13);
    }
}

/// Every target drops the `default` keyword.
pub proof fn lemma_default_kw(t: Target)
    ensures
        spec_capability(t, "default"@) == Capability::Drop,
{
    reveal_strlit("$defs");
    reveal_strlit("$ref");
    reveal_strlit("additionalProperties");
    reveal_strlit("allOf");
    reveal_strlit("anyOf");
    reveal_strlit("const");
    reveal_strlit("contains");
    reveal_strlit("default");
    reveal_strlit("definitions");
    reveal_strlit("dependentSchemas");
    reveal_strlit("else");
    reveal_strlit("enum");
    reveal_strlit("exclusiveMaximum");
    reveal_strlit("exclusiveMinimum");
    reveal_strlit("format");
    reveal_strlit("if");
    reveal_strlit("items");
    reveal_strlit("maxItems");
    reveal_strlit("maxLength");
    reveal_strlit("maximum");
    reveal_strlit("minItems");
    reveal_strlit("minLength");
    reveal_strlit("minimum");
    reveal_strlit("multipleOf");
    reveal_strlit("not");
    reveal_strlit("oneOf");
    reveal_strlit("pattern");
    reveal_strlit("patternProperties");
    reveal_strlit("prefixItems");
    reveal_strlit("properties");
    reveal_strlit("propertyNames");
    reveal_strlit("then");
    reveal_strlit("uniqueItems");
    assert(("default")@ != ("const")@) by {
        assert(("default")@.len() == 7);
        assert(("const")@.len() == 5);
    }
    assert(("default")@ != ("minimum")@) by {
        assert(("default")@[0] == 'd');
        assert(("minimum")@[0] == 'm');
    }
    assert(("default")@ != ("maximum")@) by {
        assert(("default")@[0] == 'd');
        assert(("maximum")@[0] == 'm');
    }
    assert(("default")@ != ("exclusiveMinimum")@) by {
        assert(("default")@.len() == 7);
        assert(("exclusiveMinimum")@.len() == 16);
    }
    assert(("default")@ != ("exclusiveMaximum")@) by {
        assert(("default")@.len() == 7);
        assert(("exclusiveMaximum")@.len() == 16);
    }
    assert(("default")@ != ("multipleOf")@) by {
        assert(("default")@.len() == 7);
        assert(("multipleOf")@.len() == 10);
    }
    assert(("default")@ != ("minLength")@) by {
        assert(("default")@.len() == 7);
        assert(("minLength")@.len() == 9);
    }
    assert(("default")@ != ("maxLength")@) by {
        assert(("default")@.len() == 7);
        assert(("maxLength")@.len() == 9);
    }
    assert(("default")@ != ("minItems")@) by {
        assert(("default")@.len() == 7);
        assert(("minItems")@.len() == 8);
    }
    assert(("default")@ != ("maxItems")@) by {
        assert(("default")@.len() == 7);
        assert(("maxItems")@.len() == 8);
    }
    assert(("default")@ != ("uniqueItems")@) by {
        assert(("default")@.len() == 7);
        assert(("uniqueItems")@.len() == 11);
    }
    assert(("default")@ != ("pattern")@) by {
        assert(("default")@[0] == 'd');
        assert(("pattern")@[0] == 'p');
    }
    assert(("default")@ != ("format")@) by {
        assert(("default")@.len() == 7);
        assert(("format")@.len() == 6);
    }
    assert(("default")@ != ("not")@) by {
        assert(("default")@.len() == 7);
        assert(("not")@.len() == 3);
    }
    assert(("default")@ != ("if")@) by {
        assert(("default")@.len() == 7);
        assert(("if")@.len() == 2);
    }
    assert(("default")@ != ("then")@) by {
        assert(("default")@.len() == 7);
        assert(("then")@.len() == 4);
    }
    assert(("default")@ != ("else")@) by {
        assert(("default")@.len() == 7);
        assert(("else")@.len() == 4);
    }
}

/// A fully pruned schema: no node keeps a keyword the target drops, no
/// constant remains where the target rewrites constants, and no default
/// remains anywhere.  In particular, the keyword named by any dropped
/// constraint is absent from every node of such a schema.
pub open spec fn pruned_v(j: JsonV, t: Target) -> bool
    decreases j, 0int,
{
    match j {
        JsonV::Obj(fs) => {
            &&& pruned_fields_v(fs, t)
            &&& !node_c2e(fs, t)
            &&& obj_get_v(fs, "default"@) is None
        },
        _ => true,
    }
}

pub open spec fn pruned_fields_v(fs: Seq<(Seq<char>, JsonV)>, t: Target) -> bool
    decreases fs, 1int,
{
    if fs.len() == 0 {
        true
    } else {
        &&& pruned_fields_v(fs.drop_last(), t)
        &&& spec_capability(t, fs.last().0) != Capability::Drop
        &&& pruned_child_v(fs.last().0, fs.last().1, t)
    }
}

pub open spec fn pruned_child_v(k: Seq<char>, v: JsonV, t: Target) -> bool
    decreases v, 2int,
{
    if is_map_kw(k) && v is Obj {
        pruned_map_v(v->Obj_0, t)
    } else if k == "items"@ {
        if v is Obj {
            pruned_v(v, t)
        } else if v is Arr {
            pruned_list_v(v->Arr_0, t)
        } else {
            true
        }
    } else if is_list_kw(k) && v is Arr {
        pruned_list_v(v->Arr_0, t)
    } else if is_single_kw(k) && v is Obj {
        pruned_v(v, t)
    } else {
        true
    }
}

pub open spec fn pruned_map_v(ms: Seq<(Seq<char>, JsonV)>, t: Target) -> bool
    decreases ms, 1int,
{
    if ms.len() == 0 {
        true
    } else {
        pruned_map_v(ms.drop_last(), t) && pruned_v(ms.last().1, t)
    }
}

pub open spec fn pruned_list_v(es: Seq<JsonV>, t: Target) -> bool
    decreases es, 1int,
{
    if es.len() == 0 {
        true
    } else {
        pruned_list_v(es.drop_last(), t) && pruned_v(es.last(), t)
    }
}

/// A key bound in a member list occurs among its keys.
pub proof fn lemma_obj_get_absent(fs: Seq<(Seq<char>, JsonV)>, k: Seq<char>)
    requires
        forall|i: int| 0 <= i < fs.len() ==> (#[trigger] fs[i]).0 != k,
    ensures
        obj_get_v(fs, k) is None,
    decreases fs,
{
    if fs.len() > 0 {
        assert(fs.first() == fs[0]);
        assert forall|i: int| 0 <= i < fs.drop_first().len() implies (#[trigger] fs.drop_first()[
            i
        ]).0 != k by {
            assert(fs.drop_first()[i] == fs[i + 1]);
        }
        lemma_obj_get_absent(fs.drop_first(), k);
    }
}

/// Every key of a pruned member list survives the matrix.
pub proof fn lemma_pruned_fields_keys(fs: Seq<(Seq<char>, JsonV)>, t: Target, i: int)
    requires
        pruned_fields_v(fs, t),
        0 <= i < fs.len(),
    ensures
        spec_capability(t, fs[i].0) != Capability::Drop,
        pruned_child_v(fs[i].0, fs[i].1, t),
    decreases fs,
{
    if i == fs.len() - 1 {
        assert(fs[i] == fs.last());
    } else {
        lemma_pruned_fields_keys(fs.drop_last(), t, i);
        assert(fs.drop_last()[i] == fs[i]);
    }
}

/// Law: pruning is complete.  Whatever the input, the output schema is
/// fully pruned: at every node reachable through schema positions, every
/// keyword that the capability matrix drops for the target — the keyword
/// of every dropped-constraint record among them — is absent, `const` is
/// absent wherever the target rewrites it, and `default` is absent.
pub proof fn lemma_prune_complete(j: JsonV, t: Target, edf: bool, p: Seq<char>)
    ensures
        pruned_v(prune_out(j, t, edf, p).schema, t),
    decreases j, 0int,
{
    if let JsonV::Obj(fs) = j {
        let pf = prune_fields_out(fs, t, edf, p);
        let d = obj_get_v(fs, "default"@);
        let fs2 = rewritten(pf.fields, t);
        let fs3 = reordered(fs2, d, edf);
        lemma_prune_complete_fields(fs, t, edf, p);
        lemma_enum_kw(t);
        lemma_default_kw(t);
        // the rewrite keeps the member list pruned and removes `const`
        lemma_rewritten_pruned(pf.fields, t);
        // reordering keeps the member list pruned and adds no key
        lemma_reordered_pruned(fs2, d, edf, t);
        assert(pruned_fields_v(fs3, t));
        lemma_reordered_keys(fs2, d, edf);
        // no `const` is left where the target rewrites it
        if spec_capability(t, "const"@) == Capability::Rewrite {
            lemma_rewritten_no_const(pf.fields, t);
            lemma_obj_get_absent_conv(fs2, "const"@);
            assert forall|i: int| 0 <= i < fs3.len() implies (#[trigger] fs3[i]).0 != "const"@ by {
                assert(fs3[i].0 == fs2[i].0);
            }
            lemma_obj_get_absent(fs3, "const"@);
        }
        assert(!node_c2e(fs3, t));
        // no `default` is left anywhere
        assert forall|i: int| 0 <= i < fs3.len() implies (#[trigger] fs3[i]).0 != "default"@ by {
            assert(fs3[i].0 == fs2[i].0);
            assert(exists|w: int|
                0 <= w < rewritten(pf.fields, t).len() && (#[trigger] rewritten(pf.fields, t)[
                    w
                ]).0 == fs2[i].0) by {
                assert(rewritten(pf.fields, t)[i].0 == fs2[i].0);
            }
            lemma_rewritten_key_origin(pf.fields, t, fs2[i].0);
            if fs2[i].0 != "enum"@ {
                let w = choose|w: int|
                    0 <= w < pf.fields.len() && (#[trigger] pf.fields[w]).0 == fs2[i].0;
                lemma_pruned_fields_keys(pf.fields, t, w);
            }
        }
        lemma_obj_get_absent(fs3, "default"@);
    }
}

/// A bound key yields a witness index.
pub proof fn lemma_obj_get_some_key(fs: Seq<(Seq<char>, JsonV)>, k: Seq<char>)
    requires
        obj_get_v(fs, k) is Some,
    ensures
        exists|i: int| 0 <= i < fs.len() && (#[trigger] fs[i]).0 == k,
    decreases fs,
{
    if fs.len() > 0 {
        if fs.first().0 == k {
            assert(fs[0].0 == k);
        } else {
            lemma_obj_get_some_key(fs.drop_first(), k);
            let i = choose|i: int|
                0 <= i < fs.drop_first().len() && (#[trigger] fs.drop_first()[i]).0 == k;
            assert(fs[i + 1] == fs.drop_first()[i]);
        }
    }
}

/// The converse: no key among the members, no binding.
pub proof fn lemma_obj_get_absent_conv(fs: Seq<(Seq<char>, JsonV)>, k: Seq<char>)
    requires
        obj_get_v(fs, k) is None,
    ensures
        forall|i: int| 0 <= i < fs.len() ==> (#[trigger] fs[i]).0 != k,
    decreases fs,
{
    if fs.len() > 0 {
        lemma_obj_get_absent_conv(fs.drop_first(), k);
        assert forall|i: int| 0 <= i < fs.len() implies (#[trigger] fs[i]).0 != k by {
            if i == 0 {
                assert(fs.first().0 != k);
            } else {
                assert(fs.drop_first()[i - 1] == fs[i]);
            }
        }
    }
}

/// Keys of a reordered member list are the keys of the original.
pub proof fn lemma_reordered_keys(fs: Seq<(Seq<char>, JsonV)>, d: Option<JsonV>, edf: bool)
    ensures
        reordered(fs, d, edf).len() == fs.len(),
        forall|i: int|
            0 <= i < fs.len() ==> (#[trigger] reordered(fs, d, edf)[i]).0 == fs[i].0,
{
}

/// Every key of the rewritten list is a key of the original or `enum`.
pub proof fn lemma_rewritten_key_origin(fs: Seq<(Seq<char>, JsonV)>, t: Target, k: Seq<char>)
    requires
        exists|i: int|
            0 <= i < rewritten(fs, t).len() && (#[trigger] rewritten(fs, t)[i]).0 == k,
    ensures
        k == "enum"@ || exists|i: int| 0 <= i < fs.len() && (#[trigger] fs[i]).0 == k,
{
    let w = choose|w: int| 0 <= w < rewritten(fs, t).len() && (#[trigger] rewritten(fs, t)[w]).0
        == k;
    if node_c2e(fs, t) {
        if has_key_v(fs, "enum"@) {
            lemma_remove_key_origin(fs, "const"@, w);
        } else {
            if fs[w].0 == "const"@ {
            } else {
                assert(fs[w].0 == k);
            }
        }
    } else {
        assert(fs[w].0 == k);
    }
}

/// Every member of a list with one key removed comes from the original.
pub proof fn lemma_remove_key_origin(fs: Seq<(Seq<char>, JsonV)>, k: Seq<char>, w: int)
    requires
        0 <= w < remove_key(fs, k).len(),
    ensures
        exists|i: int| 0 <= i < fs.len() && #[trigger] fs[i] == remove_key(fs, k)[w],
        remove_key(fs, k)[w].0 != k,
    decreases fs,
{
    if fs.len() > 0 {
        if fs.last().0 == k {
            lemma_remove_key_origin(fs.drop_last(), k, w);
            let i = choose|i: int|
                0 <= i < fs.drop_last().len() && #[trigger] fs.drop_last()[i] == remove_key(
                    fs,
                    k,
                )[w];
            assert(fs[i] == fs.drop_last()[i]);
        } else {
            if w == remove_key(fs, k).len() - 1 {
                assert(remove_key(fs, k)[w] == fs.last());
                assert(fs[fs.len() - 1] == fs.last());
            } else {
                assert(remove_key(fs, k)[w] == remove_key(fs.drop_last(), k)[w]);
                lemma_remove_key_origin(fs.drop_last(), k, w);
                let i = choose|i: int|
                    0 <= i < fs.drop_last().len() && #[trigger] fs.drop_last()[i] == remove_key(
                        fs,
                        k,
                    )[w];
                assert(fs[i] == fs.drop_last()[i]);
            }
        }
    }
}

/// The rewritten list leaves no `const` binding when the target rewrites.
pub proof fn lemma_rewritten_no_const(fs: Seq<(Seq<char>, JsonV)>, t: Target)
    requires
        spec_capability(t, "const"@) == Capability::Rewrite,
    ensures
        obj_get_v(rewritten(fs, t), "const"@) is None,
{
    lemma_enum_kw(t);
    if node_c2e(fs, t) {
        if has_key_v(fs, "enum"@) {
            lemma_remove_key_no_key(fs, "const"@);
        } else {
            assert forall|i: int|
                0 <= i < replace_const(fs).len() implies (#[trigger] replace_const(fs)[i]).0
                != "const"@ by {
                if fs[i].0 == "const"@ {
                    assert(replace_const(fs)[i].0 == "enum"@);
                }
            }
            lemma_obj_get_absent(replace_const(fs), "const"@);
        }
    } else {
        lemma_obj_get_absent_all(fs, t);
    }
}

/// Without a `const` binding nothing changes that.
pub proof fn lemma_obj_get_absent_all(fs: Seq<(Seq<char>, JsonV)>, t: Target)
    requires
        !node_c2e(fs, t),
        spec_capability(t, "const"@) == Capability::Rewrite,
    ensures
        obj_get_v(rewritten(fs, t), "const"@) is None,
{
    assert(rewritten(fs, t) == fs);
    assert(!has_key_v(fs, "const"@));
}

/// No binding of a key survives its removal.
pub proof fn lemma_remove_key_no_key(fs: Seq<(Seq<char>, JsonV)>, k: Seq<char>)
    ensures
        obj_get_v(remove_key(fs, k), k) is None,
{
    assert forall|i: int| 0 <= i < remove_key(fs, k).len() implies (#[trigger] remove_key(fs, k)[
        i
    ]).0 != k by {
        lemma_remove_key_origin(fs, k, i);
    }
    lemma_obj_get_absent(remove_key(fs, k), k);
}

/// The `const` rewrite keeps a member list pruned.
pub proof fn lemma_rewritten_pruned(fs: Seq<(Seq<char>, JsonV)>, t: Target)
    requires
        pruned_fields_v(fs, t),
    ensures
        pruned_fields_v(rewritten(fs, t), t),
{
    lemma_enum_kw(t);
    if node_c2e(fs, t) {
        if has_key_v(fs, "enum"@) {
            lemma_remove_key_pruned(fs, "const"@, t);
        } else {
            lemma_replace_const_pruned(fs, t, replace_const(fs).len() as int);
            assert(replace_const(fs).take(replace_const(fs).len() as int) =~= replace_const(fs));
        }
    }
}

/// A prefix argument form so the induction follows the definition.
pub proof fn lemma_replace_const_pruned(fs: Seq<(Seq<char>, JsonV)>, t: Target, n: int)
    requires
        pruned_fields_v(fs, t),
        0 <= n <= fs.len(),
    ensures
        pruned_fields_v(replace_const(fs).take(n), t),
    decreases n,
{
    lemma_enum_kw(t);
    if n > 0 {
        lemma_replace_const_pruned(fs, t, n - 1);
        assert(replace_const(fs).take(n).drop_last() =~= replace_const(fs).take(n - 1));
        assert(replace_const(fs).take(n).last() == replace_const(fs)[n - 1]);
        lemma_pruned_fields_keys(fs, t, n - 1);
        if fs[n - 1].0 == "const"@ {
            assert(replace_const(fs)[n - 1] == ("enum"@, JsonV::Arr(seq![fs[n - 1].1])));
            assert(pruned_child_v("enum"@, JsonV::Arr(seq![fs[n - 1].1]), t));
        } else {
            assert(replace_const(fs)[n - 1] == fs[n - 1]);
        }
    }
}

/// Removing a key keeps a member list pruned.
pub proof fn lemma_remove_key_pruned(fs: Seq<(Seq<char>, JsonV)>, k: Seq<char>, t: Target)
    requires
        pruned_fields_v(fs, t),
    ensures
        pruned_fields_v(remove_key(fs, k), t),
    decreases fs,
{
    if fs.len() > 0 {
        lemma_remove_key_pruned(fs.drop_last(), k, t);
        if fs.last().0 != k {
            assert(remove_key(fs, k) == remove_key(fs.drop_last(), k).push(fs.last()));
            assert(remove_key(fs, k).drop_last() =~= remove_key(fs.drop_last(), k));
        }
    }
}

/// Reordering enums keeps a member list pruned.
pub proof fn lemma_reordered_pruned(
    fs: Seq<(Seq<char>, JsonV)>,
    d: Option<JsonV>,
    edf: bool,
    t: Target,
)
    requires
        pruned_fields_v(fs, t),
    ensures
        pruned_fields_v(reordered(fs, d, edf), t),
{
    lemma_enum_kw(t);
    lemma_reordered_pruned_take(fs, d, edf, t, fs.len() as int);
    assert(reordered(fs, d, edf).take(fs.len() as int) =~= reordered(fs, d, edf));
}

pub proof fn lemma_reordered_pruned_take(
    fs: Seq<(Seq<char>, JsonV)>,
    d: Option<JsonV>,
    edf: bool,
    t: Target,
    n: int,
)
    requires
        pruned_fields_v(fs, t),
        0 <= n <= fs.len(),
    ensures
        pruned_fields_v(reordered(fs, d, edf).take(n), t),
    decreases n,
{
    lemma_enum_kw(t);
    if n > 0 {
        lemma_reordered_pruned_take(fs, d, edf, t, n - 1);
        assert(reordered(fs, d, edf).take(n).drop_last() =~= reordered(fs, d, edf).take(n - 1));
        assert(reordered(fs, d, edf).take(n).last() == reordered(fs, d, edf)[n - 1]);
        lemma_pruned_fields_keys(fs, t, n - 1);
        if edf && d is Some && fs[n - 1].0 == "enum"@ && fs[n - 1].1 is Arr {
            assert(reordered(fs, d, edf)[n - 1] == (
                fs[n - 1].0,
                JsonV::Arr(reorder_vals(fs[n - 1].1->Arr_0, d->0)),
            ));
            assert(pruned_child_v(
                "enum"@,
                JsonV::Arr(reorder_vals(fs[n - 1].1->Arr_0, d->0)),
                t,
            ));
        } else {
            assert(reordered(fs, d, edf)[n - 1] == fs[n - 1]);
        }
    }
}

/// Completeness for the members of one node.
pub proof fn lemma_prune_complete_fields(fs: Seq<(Seq<char>, JsonV)>, t: Target, edf: bool, p: Seq<char>)
    ensures
        pruned_fields_v(prune_fields_out(fs, t, edf, p).fields, t),
        forall|i: int|
            0 <= i < prune_fields_out(fs, t, edf, p).fields.len() ==> spec_capability(
                t,
                (#[trigger] prune_fields_out(fs, t, edf, p).fields[i]).0,
            ) != Capability::Drop,
    decreases fs, 1int,
{
    if fs.len() > 0 {
        lemma_prune_complete_fields(fs.drop_last(), t, edf, p);
        let r = prune_fields_out(fs.drop_last(), t, edf, p);
        if spec_capability(t, fs.last().0) != Capability::Drop {
            lemma_prune_complete_child(fs.last().0, fs.last().1, t, edf, p);
            assert(prune_fields_out(fs, t, edf, p).fields.drop_last() =~= r.fields);
        }
    }
}

/// Completeness for one member value.
pub proof fn lemma_prune_complete_child(k: Seq<char>, v: JsonV, t: Target, edf: bool, p: Seq<char>)
    ensures
        pruned_child_v(k, prune_child_out(k, v, t, edf, p).schema, t),
    decreases v, 2int,
{
    if is_map_kw(k) && v is Obj {
        lemma_prune_complete_map(v->Obj_0, t, edf, joined(p, k));
    } else if k == "items"@ {
        if v is Obj {
            lemma_prune_complete(v, t, edf, joined(p, k));
        } else if v is Arr {
            lemma_prune_complete_list(v->Arr_0, t, edf, joined(p, k));
        }
    } else if is_list_kw(k) && v is Arr {
        lemma_prune_complete_list(v->Arr_0, t, edf, joined(p, k));
    } else if is_single_kw(k) && v is Obj {
        lemma_prune_complete(v, t, edf, joined(p, k));
    }
}

/// Completeness for a map of schemas.
pub proof fn lemma_prune_complete_map(ms: Seq<(Seq<char>, JsonV)>, t: Target, edf: bool, base: Seq<char>)
    ensures
        pruned_map_v(prune_map_out(ms, t, edf, base).fields, t),
    decreases ms, 1int,
{
    if ms.len() > 0 {
        lemma_prune_complete_map(ms.drop_last(), t, edf, base);
        lemma_prune_complete(ms.last().1, t, edf, joined(base, ms.last().0));
        assert(prune_map_out(ms, t, edf, base).fields.drop_last() =~= prune_map_out(
            ms.drop_last(),
            t,
            edf,
            base,
        ).fields);
    }
}

/// Completeness for a list of schemas.
pub proof fn lemma_prune_complete_list(es: Seq<JsonV>, t: Target, edf: bool, base: Seq<char>)
    ensures
        pruned_list_v(prune_list_out(es, t, edf, base).elems, t),
    decreases es, 1int,
{
    if es.len() > 0 {
        lemma_prune_complete_list(es.drop_last(), t, edf, base);
        lemma_prune_complete(es.last(), t, edf, joined(base, dec_str((es.len() - 1) as nat)));
        assert(prune_list_out(es, t, edf, base).elems.drop_last() =~= prune_list_out(
            es.drop_last(),
            t,
            edf,
            base,
        ).elems);
    }
}

/// Law: every dropped-constraint record names a keyword that the
/// capability matrix drops for the target.  With completeness, the named
/// keyword is absent from the output schema wherever it is looked up.
pub proof fn lemma_drops_droppable(j: JsonV, t: Target, edf: bool, p: Seq<char>)
    ensures
        forall|q: int|
            0 <= q < prune_out(j, t, edf, p).drops.len() ==> spec_capability(
                t,
                (#[trigger] prune_out(j, t, edf, p).drops[q]).1,
            ) == Capability::Drop,
    decreases j, 0int,
{
    if let JsonV::Obj(fs) = j {
        lemma_drops_droppable_fields(fs, t, edf, p);
    }
}

pub proof fn lemma_drops_droppable_fields(fs: Seq<(Seq<char>, JsonV)>, t: Target, edf: bool, p: Seq<char>)
    ensures
        forall|q: int|
            0 <= q < prune_fields_out(fs, t, edf, p).drops.len() ==> spec_capability(
                t,
                (#[trigger] prune_fields_out(fs, t, edf, p).drops[q]).1,
            ) == Capability::Drop,
    decreases fs, 1int,
{
    if fs.len() > 0 {
        lemma_drops_droppable_fields(fs.drop_last(), t, edf, p);
        let r = prune_fields_out(fs.drop_last(), t, edf, p);
        if spec_capability(t, fs.last().0) == Capability::Drop {
            assert forall|q: int|
                0 <= q < prune_fields_out(fs, t, edf, p).drops.len() implies spec_capability(
                t,
                (#[trigger] prune_fields_out(fs, t, edf, p).drops[q]).1,
            ) == Capability::Drop by {
                if q < r.drops.len() {
                    assert(prune_fields_out(fs, t, edf, p).drops[q] == r.drops[q]);
                }
            }
        } else {
            lemma_drops_droppable_child(fs.last().0, fs.last().1, t, edf, p);
            let c = prune_child_out(fs.last().0, fs.last().1, t, edf, p);
            assert forall|q: int|
                0 <= q < prune_fields_out(fs, t, edf, p).drops.len() implies spec_capability(
                t,
                (#[trigger] prune_fields_out(fs, t, edf, p).drops[q]).1,
            ) == Capability::Drop by {
                if q < r.drops.len() {
                    assert(prune_fields_out(fs, t, edf, p).drops[q] == r.drops[q]);
                } else {
                    assert(prune_fields_out(fs, t, edf, p).drops[q] == c.drops[q - r.drops.len()]);
                }
            }
        }
    }
}

pub proof fn lemma_drops_droppable_child(k: Seq<char>, v: JsonV, t: Target, edf: bool, p: Seq<char>)
    ensures
        forall|q: int|
            0 <= q < prune_child_out(k, v, t, edf, p).drops.len() ==> spec_capability(
                t,
                (#[trigger] prune_child_out(k, v, t, edf, p).drops[q]).1,
            ) == Capability::Drop,
    decreases v, 2int,
{
    if is_map_kw(k) && v is Obj {
        lemma_drops_droppable_map(v->Obj_0, t, edf, joined(p, k));
    } else if k == "items"@ {
        if v is Obj {
            lemma_drops_droppable(v, t, edf, joined(p, k));
        } else if v is Arr {
            lemma_drops_droppable_list(v->Arr_0, t, edf, joined(p, k));
        }
    } else if is_list_kw(k) && v is Arr {
        lemma_drops_droppable_list(v->Arr_0, t, edf, joined(p, k));
    } else if is_single_kw(k) && v is Obj {
        lemma_drops_droppable(v, t, edf, joined(p, k));
    }
}

pub proof fn lemma_drops_droppable_map(ms: Seq<(Seq<char>, JsonV)>, t: Target, edf: bool, base: Seq<char>)
    ensures
        forall|q: int|
            0 <= q < prune_map_out(ms, t, edf, base).drops.len() ==> spec_capability(
                t,
                (#[trigger] prune_map_out(ms, t, edf, base).drops[q]).1,
            ) == Capability::Drop,
    decreases ms, 1int,
{
    if ms.len() > 0 {
        lemma_drops_droppable_map(ms.drop_last(), t, edf, base);
        lemma_drops_droppable(ms.last().1, t, edf, joined(base, ms.last().0));
        let r = prune_map_out(ms.drop_last(), t, edf, base);
        let c = prune_out(ms.last().1, t, edf, joined(base, ms.last().0));
        assert forall|q: int|
            0 <= q < prune_map_out(ms, t, edf, base).drops.len() implies spec_capability(
            t,
            (#[trigger] prune_map_out(ms, t, edf, base).drops[q]).1,
        ) == Capability::Drop by {
            if q < r.drops.len() {
                assert(prune_map_out(ms, t, edf, base).drops[q] == r.drops[q]);
            } else {
                assert(prune_map_out(ms, t, edf, base).drops[q] == c.drops[q - r.drops.len()]);
            }
        }
    }
}

pub proof fn lemma_drops_droppable_list(es: Seq<JsonV>, t: Target, edf: bool, base: Seq<char>)
    ensures
        forall|q: int|
            0 <= q < prune_list_out(es, t, edf, base).drops.len() ==> spec_capability(
                t,
                (#[trigger] prune_list_out(es, t, edf, base).drops[q]).1,
            ) == Capability::Drop,
    decreases es, 1int,
{
    if es.len() > 0 {
        lemma_drops_droppable_list(es.drop_last(), t, edf, base);
        lemma_drops_droppable(
            es.last(),
            t,
            edf,
            joined(base, dec_str((es.len() - 1) as nat)),
        );
        let r = prune_list_out(es.drop_last(), t, edf, base);
        let c = prune_out(es.last(), t, edf, joined(base, dec_str((es.len() - 1) as nat)));
        assert forall|q: int|
            0 <= q < prune_list_out(es, t, edf, base).drops.len() implies spec_capability(
            t,
            (#[trigger] prune_list_out(es, t, edf, base).drops[q]).1,
        ) == Capability::Drop by {
            if q < r.drops.len() {
                assert(prune_list_out(es, t, edf, base).drops[q] == r.drops[q]);
            } else {
                assert(prune_list_out(es, t, edf, base).drops[q] == c.drops[q - r.drops.len()]);
            }
        }
    }
}

/// On a fully pruned schema the pass does nothing at all.
pub proof fn lemma_prune_stable(j: JsonV, t: Target, edf: bool, p: Seq<char>)
    requires
        pruned_v(j, t),
    ensures
        prune_out(j, t, edf, p).schema == j,
        prune_out(j, t, edf, p).drops.len() == 0,
        prune_out(j, t, edf, p).trs.len() == 0,
    decreases j, 0int,
{
    if let JsonV::Obj(fs) = j {
        lemma_prune_stable_fields(fs, t, edf, p);
        let pf = prune_fields_out(fs, t, edf, p);
        assert(pf.fields == fs);
        assert(!node_c2e(fs, t));
        assert(rewritten(fs, t) == fs);
        let d = obj_get_v(fs, "default"@);
        assert(d is None);
        assert(reordered(fs, d, edf) == fs);
        assert(!node_reord(fs, d, edf));
        assert(node_transforms(pf.fields, fs, d, edf, t, p) =~= Seq::empty());
    }
}

pub proof fn lemma_prune_stable_fields(fs: Seq<(Seq<char>, JsonV)>, t: Target, edf: bool, p: Seq<char>)
    requires
        pruned_fields_v(fs, t),
    ensures
        prune_fields_out(fs, t, edf, p).fields == fs,
        prune_fields_out(fs, t, edf, p).drops.len() == 0,
        prune_fields_out(fs, t, edf, p).trs.len() == 0,
    decreases fs, 1int,
{
    if fs.len() > 0 {
        lemma_prune_stable_fields(fs.drop_last(), t, edf, p);
        lemma_prune_stable_child(fs.last().0, fs.last().1, t, edf, p);
        assert(prune_fields_out(fs, t, edf, p).fields =~= fs);
        assert(prune_fields_out(fs, t, edf, p).drops =~= Seq::empty());
        assert(prune_fields_out(fs, t, edf, p).trs =~= Seq::empty());
    } else {
        assert(prune_fields_out(fs, t, edf, p).fields =~= fs);
    }
}

pub proof fn lemma_prune_stable_child(k: Seq<char>, v: JsonV, t: Target, edf: bool, p: Seq<char>)
    requires
        pruned_child_v(k, v, t),
    ensures
        prune_child_out(k, v, t, edf, p).schema == v,
        prune_child_out(k, v, t, edf, p).drops.len() == 0,
        prune_child_out(k, v, t, edf, p).trs.len() == 0,
    decreases v, 2int,
{
    if is_map_kw(k) && v is Obj {
        lemma_prune_stable_map(v->Obj_0, t, edf, joined(p, k));
        assert(prune_map_out(v->Obj_0, t, edf, joined(p, k)).fields == v->Obj_0);
    } else if k == "items"@ {
        if v is Obj {
            lemma_prune_stable(v, t, edf, joined(p, k));
        } else if v is Arr {
            lemma_prune_stable_list(v->Arr_0, t, edf, joined(p, k));
        }
    } else if is_list_kw(k) && v is Arr {
        lemma_prune_stable_list(v->Arr_0, t, edf, joined(p, k));
    } else if is_single_kw(k) && v is Obj {
        lemma_prune_stable(v, t, edf, joined(p, k));
    }
}

pub proof fn lemma_prune_stable_map(ms: Seq<(Seq<char>, JsonV)>, t: Target, edf: bool, base: Seq<char>)
    requires
        pruned_map_v(ms, t),
    ensures
        prune_map_out(ms, t, edf, base).fields == ms,
        prune_map_out(ms, t, edf, base).drops.len() == 0,
        prune_map_out(ms, t, edf, base).trs.len() == 0,
    decreases ms, 1int,
{
    if ms.len() > 0 {
        lemma_prune_stable_map(ms.drop_last(), t, edf, base);
        lemma_prune_stable(ms.last().1, t, edf, joined(base, ms.last().0));
        assert(prune_map_out(ms, t, edf, base).fields =~= ms);
        assert(prune_map_out(ms, t, edf, base).drops =~= Seq::empty());
        assert(prune_map_out(ms, t, edf, base).trs =~= Seq::empty());
    } else {
        assert(prune_map_out(ms, t, edf, base).fields =~= ms);
    }
}

pub proof fn lemma_prune_stable_list(es: Seq<JsonV>, t: Target, edf: bool, base: Seq<char>)
    requires
        pruned_list_v(es, t),
    ensures
        prune_list_out(es, t, edf, base).elems == es,
        prune_list_out(es, t, edf, base).drops.len() == 0,
        prune_list_out(es, t, edf, base).trs.len() == 0,
    decreases es, 1int,
{
    if es.len() > 0 {
        lemma_prune_stable_list(es.drop_last(), t, edf, base);
        lemma_prune_stable(es.last(), t, edf, joined(base, dec_str((es.len() - 1) as nat)));
        assert(prune_list_out(es, t, edf, base).elems =~= es);
        assert(prune_list_out(es, t, edf, base).drops =~= Seq::empty());
        assert(prune_list_out(es, t, edf, base).trs =~= Seq::empty());
    } else {
        assert(prune_list_out(es, t, edf, base).elems =~= es);
    }
}

/// Law: pruning is idempotent.  Running the pass on its own output
/// returns that output unchanged and records no further rewrite: no
/// dropped constraint, no constant rewrite, no enum reordering.
pub proof fn lemma_prune_idempotent(j: JsonV, t: Target, edf: bool, p: Seq<char>)
    ensures
        prune_out(prune_out(j, t, edf, p).schema, t, edf, p).schema == prune_out(
            j,
            t,
            edf,
            p,
        ).schema,
        prune_out(prune_out(j, t, edf, p).schema, t, edf, p).drops.len() == 0,
        prune_out(prune_out(j, t, edf, p).schema, t, edf, p).trs.len() == 0,
{
    lemma_prune_complete(j, t, edf, p);
    lemma_prune_stable(prune_out(j, t, edf, p).schema, t, edf, p);
}

/// Pruning keeps the schema within any depth limit its input met: the
/// pass removes members and rewrites values in place, and the enums it
/// writes are no schema position.  With idempotence this makes a second
/// run of the pass on its own output succeed and change nothing.
pub proof fn lemma_prune_keeps_depth(j: JsonV, t: Target, edf: bool, p: Seq<char>, d: nat, l: nat)
    requires
        depth_ok(j, t, d, l),
    ensures
        depth_ok(prune_out(j, t, edf, p).schema, t, d, l),
    decreases j, 0int,
{
    if let JsonV::Obj(fs) = j {
        let pf = prune_fields_out(fs, t, edf, p);
        let dflt = obj_get_v(fs, "default"@);
        let fs2 = rewritten(pf.fields, t);
        let fs3 = reordered(fs2, dflt, edf);
        lemma_prune_keeps_depth_fields(fs, t, edf, p, d, l);
        lemma_rewritten_keeps_depth(pf.fields, t, d, l);
        lemma_reordered_keeps_depth(fs2, dflt, edf, t, d, l);
        assert(depth_fields_ok(fs3, t, d, l));
    }
}

pub proof fn lemma_prune_keeps_depth_fields(
    fs: Seq<(Seq<char>, JsonV)>,
    t: Target,
    edf: bool,
    p: Seq<char>,
    d: nat,
    l: nat,
)
    requires
        depth_fields_ok(fs, t, d, l),
        d <= l,
    ensures
        depth_fields_ok(prune_fields_out(fs, t, edf, p).fields, t, d, l),
    decreases fs, 1int,
{
    if fs.len() > 0 {
        lemma_prune_keeps_depth_fields(fs.drop_last(), t, edf, p, d, l);
        let r = prune_fields_out(fs.drop_last(), t, edf, p);
        if spec_capability(t, fs.last().0) != Capability::Drop {
            lemma_prune_keeps_depth_child(fs.last().0, fs.last().1, t, edf, p, d, l);
            assert(prune_fields_out(fs, t, edf, p).fields.drop_last() =~= r.fields);
        }
    }
}

pub proof fn lemma_prune_keeps_depth_child(
    k: Seq<char>,
    v: JsonV,
    t: Target,
    edf: bool,
    p: Seq<char>,
    d: nat,
    l: nat,
)
    requires
        depth_child_ok(k, v, t, d, l),
        d <= l,
    ensures
        depth_child_ok(k, prune_child_out(k, v, t, edf, p).schema, t, d, l),
    decreases v, 2int,
{
    if is_map_kw(k) && v is Obj {
        lemma_prune_keeps_depth_map(v->Obj_0, t, edf, joined(p, k), d, l);
    } else if k == "items"@ {
        if v is Obj {
            lemma_prune_keeps_depth(v, t, edf, joined(p, k), d + 1, l);
        } else if v is Arr {
            lemma_prune_keeps_depth_list(v->Arr_0, t, edf, joined(p, k), d, l);
        }
    } else if is_list_kw(k) && v is Arr {
        lemma_prune_keeps_depth_list(v->Arr_0, t, edf, joined(p, k), d, l);
    } else if is_single_kw(k) && v is Obj {
        lemma_prune_keeps_depth(v, t, edf, joined(p, k), d + 1, l);
    }
}

pub proof fn lemma_prune_keeps_depth_map(
    ms: Seq<(Seq<char>, JsonV)>,
    t: Target,
    edf: bool,
    base: Seq<char>,
    d: nat,
    l: nat,
)
    requires
        depth_map_ok(ms, t, d, l),
        d <= l,
    ensures
        depth_map_ok(prune_map_out(ms, t, edf, base).fields, t, d, l),
    decreases ms, 1int,
{
    if ms.len() > 0 {
        lemma_prune_keeps_depth_map(ms.drop_last(), t, edf, base, d, l);
        lemma_prune_keeps_depth(ms.last().1, t, edf, joined(base, ms.last().0), d + 1, l);
        assert(prune_map_out(ms, t, edf, base).fields.drop_last() =~= prune_map_out(
            ms.drop_last(),
            t,
            edf,
            base,
        ).fields);
    }
}

pub proof fn lemma_prune_keeps_depth_list(
    es: Seq<JsonV>,
    t: Target,
    edf: bool,
    base: Seq<char>,
    d: nat,
    l: nat,
)
    requires
        depth_list_ok(es, t, d, l),
        d <= l,
    ensures
        depth_list_ok(prune_list_out(es, t, edf, base).elems, t, d, l),
    decreases es, 1int,
{
    if es.len() > 0 {
        lemma_prune_keeps_depth_list(es.drop_last(), t, edf, base, d, l);
        lemma_prune_keeps_depth(
            es.last(),
            t,
            edf,
            joined(base, dec_str((es.len() - 1) as nat)),
            d + 1,
            l,
        );
        assert(prune_list_out(es, t, edf, base).elems.drop_last() =~= prune_list_out(
            es.drop_last(),
            t,
            edf,
            base,
        ).elems);
    }
}

/// The `const` rewrite keeps a member list within the depth limit: it
/// removes members or writes `enum` values, which are no schema
/// position.
pub proof fn lemma_rewritten_keeps_depth(fs: Seq<(Seq<char>, JsonV)>, t: Target, d: nat, l: nat)
    requires
        depth_fields_ok(fs, t, d, l),
        d <= l,
    ensures
        depth_fields_ok(rewritten(fs, t), t, d, l),
{
    lemma_enum_kw(t);
    if node_c2e(fs, t) {
        if has_key_v(fs, "enum"@) {
            lemma_remove_key_keeps_depth(fs, "const"@, t, d, l);
        } else {
            lemma_replace_const_keeps_depth(fs, t, d, l, replace_const(fs).len() as int);
            assert(replace_const(fs).take(replace_const(fs).len() as int) =~= replace_const(fs));
        }
    }
}

pub proof fn lemma_replace_const_keeps_depth(
    fs: Seq<(Seq<char>, JsonV)>,
    t: Target,
    d: nat,
    l: nat,
    n: int,
)
    requires
        depth_fields_ok(fs, t, d, l),
        d <= l,
        0 <= n <= fs.len(),
    ensures
        depth_fields_ok(replace_const(fs).take(n), t, d, l),
    decreases n,
{
    lemma_enum_kw(t);
    if n > 0 {
        lemma_replace_const_keeps_depth(fs, t, d, l, n - 1);
        assert(replace_const(fs).take(n).drop_last() =~= replace_const(fs).take(n - 1));
        assert(replace_const(fs).take(n).last() == replace_const(fs)[n - 1]);
        lemma_depth_fields_entry(fs, t, d, l, n - 1);
        if fs[n - 1].0 == "const"@ {
            assert(replace_const(fs)[n - 1] == ("enum"@, JsonV::Arr(seq![fs[n - 1].1])));
            assert(depth_child_ok("enum"@, JsonV::Arr(seq![fs[n - 1].1]), t, d, l));
        } else {
            assert(replace_const(fs)[n - 1] == fs[n - 1]);
        }
    }
}

pub proof fn lemma_remove_key_keeps_depth(
    fs: Seq<(Seq<char>, JsonV)>,
    k: Seq<char>,
    t: Target,
    d: nat,
    l: nat,
)
    requires
        depth_fields_ok(fs, t, d, l),
        d <= l,
    ensures
        depth_fields_ok(remove_key(fs, k), t, d, l),
    decreases fs,
{
    if fs.len() > 0 {
        lemma_remove_key_keeps_depth(fs.drop_last(), k, t, d, l);
        if fs.last().0 != k {
            assert(remove_key(fs, k) == remove_key(fs.drop_last(), k).push(fs.last()));
            assert(remove_key(fs, k).drop_last() =~= remove_key(fs.drop_last(), k));
        }
    }
}

/// Reordering enums keeps a member list within the depth limit.
pub proof fn lemma_reordered_keeps_depth(
    fs: Seq<(Seq<char>, JsonV)>,
    dflt: Option<JsonV>,
    edf: bool,
    t: Target,
    d: nat,
    l: nat,
)
    requires
        depth_fields_ok(fs, t, d, l),
        d <= l,
    ensures
        depth_fields_ok(reordered(fs, dflt, edf), t, d, l),
{
    lemma_enum_kw(t);
    lemma_reordered_keeps_depth_take(fs, dflt, edf, t, d, l, fs.len() as int);
    assert(reordered(fs, dflt, edf).take(fs.len() as int) =~= reordered(fs, dflt, edf));
}

pub proof fn lemma_reordered_keeps_depth_take(
    fs: Seq<(Seq<char>, JsonV)>,
    dflt: Option<JsonV>,
    edf: bool,
    t: Target,
    d: nat,
    l: nat,
    n: int,
)
    requires
        depth_fields_ok(fs, t, d, l),
        d <= l,
        0 <= n <= fs.len(),
    ensures
        depth_fields_ok(reordered(fs, dflt, edf).take(n), t, d, l),
    decreases n,
{
    lemma_enum_kw(t);
    if n > 0 {
        lemma_reordered_keeps_depth_take(fs, dflt, edf, t, d, l, n - 1);
        assert(reordered(fs, dflt, edf).take(n).drop_last() =~= reordered(fs, dflt, edf).take(
            n - 1,
        ));
        assert(reordered(fs, dflt, edf).take(n).last() == reordered(fs, dflt, edf)[n - 1]);
        lemma_depth_fields_entry(fs, t, d, l, n - 1);
        if edf && dflt is Some && fs[n - 1].0 == "enum"@ && fs[n - 1].1 is Arr {
            assert(reordered(fs, dflt, edf)[n - 1] == (
                fs[n - 1].0,
                JsonV::Arr(reorder_vals(fs[n - 1].1->Arr_0, dflt->0)),
            ));
            assert(depth_child_ok(
                "enum"@,
                JsonV::Arr(reorder_vals(fs[n - 1].1->Arr_0, dflt->0)),
                t,
                d,
                l,
            ));
        } else {
            assert(reordered(fs, dflt, edf)[n - 1] == fs[n - 1]);
        }
    }
}

} // verus!
