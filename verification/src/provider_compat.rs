//! Post-pipeline provider compatibility audit.
//!
//! Runs after every rewriting pass and emits advisory diagnostics for
//! constructs the target provider would reject.  Active only for the
//! strict OpenAI target in strict mode; otherwise a passthrough.
//!
//! The audit wraps non-object roots, tracks the deepest nesting level,
//! flags enumerations that mix JSON types, and flags sub-schemas that
//! place no constraint on their values.

use vstd::prelude::*;

use crate::codec::{ProviderCompatError, Transform};
use crate::json::{
    elems_height, elems_view, fields_height, fields_view, height_v, is_list_kw, is_map_kw,
    is_schema_node, is_single_kw, lemma_elems_height, lemma_elems_view, lemma_fields_height,
    lemma_fields_view, lemma_strs_view_index, obj_get, obj_get_v, str_eq, strs_view, Json, JsonV,
};
use crate::options::{ConvertOptions, Mode, Target};
use crate::path::{dec_str, joined, path_join, path_join_index};

verus! {

/// Deepest nesting the strict OpenAI target accepts.
pub const OPENAI_MAX_DEPTH: usize = 5;

/// Hard guard against runaway recursion, independent of configuration.
pub const HARD_RECURSION_LIMIT: usize = 100;

/// Result of the provider compatibility audit.
pub struct ProviderCompatResult {
    /// The audited schema; a non-object root may have been wrapped.
    pub schema: Json,
    /// New transforms produced by the audit.
    pub transforms: Vec<Transform>,
    /// Advisory errors for provider-incompatible constructs.
    pub errors: Vec<ProviderCompatError>,
}

/// The JSON type name of a value.
pub open spec fn type_name_v(j: JsonV) -> Seq<char> {
    match j {
        JsonV::Null => "null"@,
        JsonV::Bool(_) => "boolean"@,
        JsonV::Num(_) => "number"@,
        JsonV::Str(_) => "string"@,
        JsonV::Arr(_) => "array"@,
        JsonV::Obj(_) => "object"@,
    }
}

/// Whether an enumeration mixes values of different JSON types.
pub open spec fn enum_types_mixed(vals: Seq<JsonV>) -> bool {
    exists|k: int| 0 <= k < vals.len() && type_name_v(#[trigger] vals[k]) != type_name_v(vals[0])
}

/// The distinct type names of an enumeration, alphabetically.
pub open spec fn types_found_v(vals: Seq<JsonV>) -> Seq<Seq<char>> {
    (if exists|k: int| 0 <= k < vals.len() && #[trigger] vals[k] is Arr {
        seq!["array"@]
    } else {
        Seq::empty()
    }) + (if exists|k: int| 0 <= k < vals.len() && #[trigger] vals[k] is Bool {
        seq!["boolean"@]
    } else {
        Seq::empty()
    }) + (if exists|k: int| 0 <= k < vals.len() && #[trigger] vals[k] is Null {
        seq!["null"@]
    } else {
        Seq::empty()
    }) + (if exists|k: int| 0 <= k < vals.len() && #[trigger] vals[k] is Num {
        seq!["number"@]
    } else {
        Seq::empty()
    }) + (if exists|k: int| 0 <= k < vals.len() && #[trigger] vals[k] is Obj {
        seq!["object"@]
    } else {
        Seq::empty()
    }) + (if exists|k: int| 0 <= k < vals.len() && #[trigger] vals[k] is Str {
        seq!["string"@]
    } else {
        Seq::empty()
    })
}

/// Keywords that constrain the values a schema accepts.
pub open spec fn is_content_kw(k: Seq<char>) -> bool {
    ||| k == "type"@
    ||| k == "properties"@
    ||| k == "items"@
    ||| k == "prefixItems"@
    ||| k == "enum"@
    ||| k == "const"@
    ||| k == "anyOf"@
    ||| k == "oneOf"@
    ||| k == "allOf"@
    ||| k == "$ref"@
    ||| k == "not"@
    ||| k == "if"@
    ||| k == "then"@
    ||| k == "else"@
    ||| k == "pattern"@
    ||| k == "minimum"@
    ||| k == "maximum"@
    ||| k == "minLength"@
    ||| k == "maxLength"@
    ||| k == "minItems"@
    ||| k == "maxItems"@
    ||| k == "format"@
}

/// Whether a keyword map constrains nothing: none of its keys is a
/// content keyword.
pub open spec fn uncon_v(fs: Seq<(Seq<char>, JsonV)>) -> bool {
    forall|i: int| 0 <= i < fs.len() ==> !is_content_kw(#[trigger] fs[i].0)
}

/// One advisory observation of the audit: its kind, the path of the
/// node it concerns, and the detail the diagnostic must carry.
pub ghost enum AdvisoryV {
    /// An `enum` array mixing JSON types, with the distinct type names.
    Mixed { path: Seq<char>, types_found: Seq<Seq<char>> },
    /// An unconstrained or boolean sub-schema, with its kind description.
    Uncon { path: Seq<char>, schema_kind: Seq<char> },
}

/// That one recorded diagnostic carries exactly one observation: same
/// kind, same path, same detail, and the audited target.  The hint text
/// is free.
pub open spec fn advisory_matches(e: ProviderCompatError, a: AdvisoryV, t: Target) -> bool {
    match a {
        AdvisoryV::Mixed { path, types_found } => {
            &&& e is MixedEnumTypes
            &&& e->MixedEnumTypes_path@ == path
            &&& strs_view(e->MixedEnumTypes_types_found@) == types_found
            &&& e->MixedEnumTypes_target == t
        },
        AdvisoryV::Uncon { path, schema_kind } => {
            &&& e is UnconstrainedSchema
            &&& e->UnconstrainedSchema_path@ == path
            &&& e->UnconstrainedSchema_schema_kind@ == schema_kind
            &&& e->UnconstrainedSchema_target == t
        },
    }
}

/// What one traversal of the audit observes below one node: its
/// advisory observations in visit order, and the deepest level at which
/// an object node stands.
pub ghost struct Audit {
    /// The observations, in visit order.
    pub errs: Seq<AdvisoryV>,
    /// Deepest level at which an object node stands.
    pub maxd: nat,
}

/// Observations of two parts of the schema, the first visited first.
pub open spec fn audit_plus(a: Audit, b: Audit) -> Audit {
    Audit {
        errs: a.errs + b.errs,
        maxd: if a.maxd >= b.maxd {
            a.maxd
        } else {
            b.maxd
        },
    }
}

/// No observation.
pub open spec fn audit_zero() -> Audit {
    Audit { errs: Seq::empty(), maxd: 0 }
}

/// The observations made at one object node itself: a mixed-enumeration
/// entry when its `enum` mixes types, then an unconstrained entry when
/// it is not the root and holds no content keyword.
pub open spec fn node_advisories(fs: Seq<(Seq<char>, JsonV)>, p: Seq<char>) -> Seq<AdvisoryV> {
    (match obj_get_v(fs, "enum"@) {
        Some(JsonV::Arr(vals)) => if enum_types_mixed(vals) {
            seq![AdvisoryV::Mixed { path: p, types_found: types_found_v(vals) }]
        } else {
            Seq::empty()
        },
        _ => Seq::empty(),
    }) + (if p != "#"@ && uncon_v(fs) {
        seq![AdvisoryV::Uncon { path: p, schema_kind: "empty"@ }]
    } else {
        Seq::empty()
    })
}

/// What the audit observes at and below a node standing at path `p` and
/// depth `d`.  A boolean schema is itself flagged; any other non-object
/// value is left alone.
pub open spec fn audit_v(j: JsonV, p: Seq<char>, d: nat) -> Audit
    decreases 101int - d, 3int, 0int,
{
    if d > 100 {
        audit_zero()
    } else {
        match j {
            JsonV::Obj(fs) => {
                let c = audit_children(fs, p, d);
                Audit {
                    errs: node_advisories(fs, p) + c.errs,
                    maxd: if d >= c.maxd {
                        d
                    } else {
                        c.maxd
                    },
                }
            },
            JsonV::Bool(b) => Audit {
                errs: seq![
                    AdvisoryV::Uncon {
                        path: p,
                        schema_kind: if b {
                            "boolean(true)"@
                        } else {
                            "boolean(false)"@
                        },
                    },
                ],
                maxd: 0,
            },
            _ => audit_zero(),
        }
    }
}

/// What the audit observes below one member of a node at path `p` and
/// depth `d`.  The schema positions are the traversal skeleton's:
/// maps of schemas, `items` (single or per-index), lists of schemas,
/// and single-schema keywords.
pub open spec fn audit_member(k: Seq<char>, v: JsonV, p: Seq<char>, d: nat) -> Audit
    decreases 101int - d, 1int, 0int,
{
    if d > 100 {
        audit_zero()
    } else if is_map_kw(k) && v is Obj {
        audit_map(v->Obj_0, joined(p, k), d)
    } else if k == "items"@ {
        if v is Obj || v is Bool {
            audit_v(v, joined(p, k), d + 1)
        } else if v is Arr {
            audit_list(v->Arr_0, joined(p, k), d)
        } else {
            audit_zero()
        }
    } else if is_list_kw(k) && v is Arr {
        audit_list(v->Arr_0, joined(p, k), d)
    } else if is_single_kw(k) && v is Obj {
        audit_v(v, joined(p, k), d + 1)
    } else {
        audit_zero()
    }
}

/// What the audit observes below all members of a node, in member order.
pub open spec fn audit_children(fs: Seq<(Seq<char>, JsonV)>, p: Seq<char>, d: nat) -> Audit
    decreases 101int - d, 2int, fs.len(),
{
    if d > 100 || fs.len() == 0 {
        audit_zero()
    } else {
        audit_plus(
            audit_children(fs.drop_last(), p, d),
            audit_member(fs.last().0, fs.last().1, p, d),
        )
    }
}

/// What the audit observes in the values of a map of schemas rooted at
/// `base`, each value a node at depth `d + 1`.
pub open spec fn audit_map(ms: Seq<(Seq<char>, JsonV)>, base: Seq<char>, d: nat) -> Audit
    decreases 101int - d, 0int, ms.len(),
{
    if d > 100 || ms.len() == 0 {
        audit_zero()
    } else {
        audit_plus(
            audit_map(ms.drop_last(), base, d),
            audit_v(ms.last().1, joined(base, ms.last().0), d + 1),
        )
    }
}

/// What the audit observes in the elements of a list of schemas rooted
/// at `base`, each element a node at depth `d + 1`.
pub open spec fn audit_list(es: Seq<JsonV>, base: Seq<char>, d: nat) -> Audit
    decreases 101int - d, 0int, es.len(),
{
    if d > 100 || es.len() == 0 {
        audit_zero()
    } else {
        audit_plus(
            audit_list(es.drop_last(), base, d),
            audit_v(es.last(), joined(base, dec_str((es.len() - 1) as nat)), d + 1),
        )
    }
}

/// That `news` extends `olds` by one recorded diagnostic per
/// observation, in order, each matching its observation, and nothing
/// else.
pub open spec fn appended(
    olds: Seq<ProviderCompatError>,
    news: Seq<ProviderCompatError>,
    advs: Seq<AdvisoryV>,
    t: Target,
) -> bool {
    &&& news.len() == olds.len() + advs.len()
    &&& forall|i: int| 0 <= i < olds.len() ==> news[i] == olds[i]
    &&& forall|i: int|
        0 <= i < advs.len() ==> advisory_matches(#[trigger] news[olds.len() + i], advs[i], t)
}

/// Appending nothing changes nothing.
pub proof fn lemma_appended_refl(errs: Seq<ProviderCompatError>, t: Target)
    ensures
        appended(errs, errs, Seq::empty(), t),
{
}

/// Two successive appends record the two observation runs in order.
pub proof fn lemma_appended_trans(
    a: Seq<ProviderCompatError>,
    b: Seq<ProviderCompatError>,
    c: Seq<ProviderCompatError>,
    x: Seq<AdvisoryV>,
    y: Seq<AdvisoryV>,
    t: Target,
)
    requires
        appended(a, b, x, t),
        appended(b, c, y, t),
    ensures
        appended(a, c, x + y, t),
{
    assert forall|i: int| 0 <= i < (x + y).len() implies advisory_matches(
        #[trigger] c[a.len() + i],
        (x + y)[i],
        t,
    ) by {
        if i < x.len() {
            assert(c[a.len() + i] == b[a.len() + i]);
            assert((x + y)[i] == x[i]);
        } else {
            assert(c[a.len() + i] == c[b.len() + (i - x.len())]);
            assert((x + y)[i] == y[i - x.len()]);
        }
    }
}

/// Emits one `MixedEnumTypes` diagnostic when the values of an `enum`
/// array mix JSON types, and nothing otherwise.
#[verifier::rlimit(50)]
pub fn check_enum_homogeneity(
    values: &Vec<Json>,
    path: &str,
    t: Target,
    errors: &mut Vec<ProviderCompatError>,
) -> (mixed: bool)
    ensures
        mixed == enum_types_mixed(elems_view(values@)),
        appended(
            old(errors)@,
            final(errors)@,
            if enum_types_mixed(elems_view(values@)) {
                (seq![
                    AdvisoryV::Mixed {
                        path: path@,
                        types_found: types_found_v(elems_view(values@)),
                    },
                ])
            } else {
                Seq::empty()
            },
            t,
        ),
{
    proof {
        lemma_elems_view(values@);
    }
    let ghost vv = elems_view(values@);
    if values.len() == 0 {
        proof {
            lemma_appended_refl(errors@, t);
        }
        return false;
    }
    let first_name = json_type_name(&values[0]);
    let mut mixed = false;
    let mut has_arr = false;
    let mut has_bool = false;
    let mut has_null = false;
    let mut has_num = false;
    let mut has_obj = false;
    let mut has_str = false;
    let mut i: usize = 0;
    while i < values.len()
        invariant
            i <= values@.len(),
            values@.len() == vv.len(),
            vv.len() > 0,
            vv == elems_view(values@),
            forall|k: int| 0 <= k < vv.len() ==> #[trigger] vv[k] == values@[k]@,
            first_name@ == type_name_v(vv[0]),
            mixed == exists|k: int|
                0 <= k < i && type_name_v(#[trigger] vv[k]) != type_name_v(vv[0]),
            has_arr == exists|k: int| 0 <= k < i && #[trigger] vv[k] is Arr,
            has_bool == exists|k: int| 0 <= k < i && #[trigger] vv[k] is Bool,
            has_null == exists|k: int| 0 <= k < i && #[trigger] vv[k] is Null,
            has_num == exists|k: int| 0 <= k < i && #[trigger] vv[k] is Num,
            has_obj == exists|k: int| 0 <= k < i && #[trigger] vv[k] is Obj,
            has_str == exists|k: int| 0 <= k < i && #[trigger] vv[k] is Str,
        decreases values@.len() - i,
    {
        let v = &values[i];
        proof {
            assert(vv[i as int] == values@[i as int]@);
        }
        if !str_eq(json_type_name(v), first_name) {
            mixed = true;
            proof {
                assert(type_name_v(vv[i as int]) != type_name_v(vv[0]));
            }
        } else {
            proof {
                assert(type_name_v(vv[i as int]) == type_name_v(vv[0]));
            }
        }
        match v {
            Json::Arr(_) => {
                has_arr = true;
                proof {
                    assert(vv[i as int] is Arr);
                }
            },
            Json::Bool(_) => {
                has_bool = true;
                proof {
                    assert(vv[i as int] is Bool);
                }
            },
            Json::Null => {
                has_null = true;
                proof {
                    assert(vv[i as int] is Null);
                }
            },
            Json::Num(_) => {
                has_num = true;
                proof {
                    assert(vv[i as int] is Num);
                }
            },
            Json::Obj(_) => {
                has_obj = true;
                proof {
                    assert(vv[i as int] is Obj);
                }
            },
            Json::Str(_) => {
                has_str = true;
                proof {
                    assert(vv[i as int] is Str);
                }
            },
        }
        i += 1;
    }
    if !mixed {
        proof {
            lemma_appended_refl(errors@, t);
        }
        return false;
    }
    let mut types_found: Vec<String> = Vec::new();
    if has_arr {
        types_found.push(String::from_str("array"));
    }
    if has_bool {
        types_found.push(String::from_str("boolean"));
    }
    if has_null {
        types_found.push(String::from_str("null"));
    }
    if has_num {
        types_found.push(String::from_str("number"));
    }
    if has_obj {
        types_found.push(String::from_str("object"));
    }
    if has_str {
        types_found.push(String::from_str("string"));
    }
    let ghost sp = types_found_v(vv);
    proof {
        assert(types_found@.len() == sp.len() && (forall|k: int|
            0 <= k < sp.len() ==> #[trigger] types_found@[k]@ == sp[k]));
    }
    proof {
        lemma_strs_view_index(types_found@);
        assert(strs_view(types_found@) =~= sp);
    }
    let e = ProviderCompatError::MixedEnumTypes {
        path: String::from_str(path),
        types_found,
        target: t,
        hint: String::from_str("all values of an enum must share one JSON type"),
    };
    proof {
        assert(advisory_matches(e, AdvisoryV::Mixed { path: path@, types_found: sp }, t));
    }
    errors.push(e);
    true
}

/// Whether a keyword map holds no content keyword at all.
pub fn is_unconstrained(fields: &Vec<(String, Json)>) -> (r: bool)
    ensures
        r == uncon_v(fields_view(fields@)),
{
    proof {
        lemma_fields_view(fields@);
    }
    let ghost fsv = fields_view(fields@);
    let mut i: usize = 0;
    while i < fields.len()
        invariant
            i <= fields@.len(),
            fsv == fields_view(fields@),
            fsv.len() == fields@.len(),
            forall|k: int|
                0 <= k < fsv.len() ==> #[trigger] fsv[k] == (fields@[k].0@, fields@[k].1@),
            forall|k: int| 0 <= k < i ==> !is_content_kw(#[trigger] fsv[k].0),
        decreases fields@.len() - i,
    {
        let k = fields[i].0.as_str();
        if str_eq(k, "type") || str_eq(k, "properties") || str_eq(k, "items") || str_eq(
            k,
            "prefixItems",
        ) || str_eq(k, "enum") || str_eq(k, "const") || str_eq(k, "anyOf") || str_eq(k, "oneOf")
            || str_eq(k, "allOf") || str_eq(k, "$ref") || str_eq(k, "not") || str_eq(k, "if")
            || str_eq(k, "then") || str_eq(k, "else") || str_eq(k, "pattern") || str_eq(
            k,
            "minimum",
        ) || str_eq(k, "maximum") || str_eq(k, "minLength") || str_eq(k, "maxLength") || str_eq(
            k,
            "minItems",
        ) || str_eq(k, "maxItems") || str_eq(k, "format") {
            proof {
                assert(fsv[i as int].0 == fields@[i as int].0@);
                assert(is_content_kw(fsv[i as int].0));
                assert(!uncon_v(fsv));
            }
            return false;
        }
        i += 1;
    }
    true
}

/// The JSON type name of a value.
pub fn json_type_name(v: &Json) -> (r: &'static str)
    ensures
        r@ == type_name_v(v@),
{
    match v {
        Json::Null => "null",
        Json::Bool(_) => "boolean",
        Json::Num(_) => "number",
        Json::Str(_) => "string",
        Json::Arr(_) => "array",
        Json::Obj(_) => "object",
    }
}

/// Visits one schema node and, through every schema position of the
/// traversal skeleton, its children: maps of schemas, `items` (single
/// or per-index), lists of schemas, and single-schema keywords.
/// Records one diagnostic per observation, in visit order, and returns
/// the deepest level at which an object node was seen.
pub fn visit(
    j: &Json,
    path: &str,
    depth: usize,
    t: Target,
    errors: &mut Vec<ProviderCompatError>,
) -> (maxd: usize)
    ensures
        appended(old(errors)@, final(errors)@, audit_v(j@, path@, depth as nat).errs, t),
        maxd == audit_v(j@, path@, depth as nat).maxd,
    decreases height_v(j@),
{
    let ghost a = audit_v(j@, path@, depth as nat);
    if depth > HARD_RECURSION_LIMIT {
        proof {
            lemma_appended_refl(errors@, t);
        }
        return 0;
    }
    match j {
        Json::Bool(b) => {
            let kind = if *b {
                String::from_str("boolean(true)")
            } else {
                String::from_str("boolean(false)")
            };
            let e = ProviderCompatError::UnconstrainedSchema {
                path: String::from_str(path),
                schema_kind: kind,
                target: t,
                hint: String::from_str("a boolean schema accepts or rejects every value"),
            };
            proof {
                assert(advisory_matches(
                    e,
                    AdvisoryV::Uncon {
                        path: path@,
                        schema_kind: if j->Bool_0 {
                            "boolean(true)"@
                        } else {
                            "boolean(false)"@
                        },
                    },
                    t,
                ));
            }
            errors.push(e);
            0
        },
        Json::Obj(fields) => {
            proof {
                lemma_fields_view(fields@);
                lemma_fields_height(fields_view(fields@));
            }
            let ghost fsv = fields_view(fields@);
            let ghost own = node_advisories(fsv, path@);
            let ghost own_mixed: Seq<AdvisoryV> = match obj_get_v(fsv, "enum"@) {
                Some(JsonV::Arr(vals)) => if enum_types_mixed(vals) {
                    seq![AdvisoryV::Mixed { path: path@, types_found: types_found_v(vals) }]
                } else {
                    Seq::empty()
                },
                _ => Seq::empty(),
            };
            let ghost own_unc: Seq<AdvisoryV> = if path@ != "#"@ && uncon_v(fsv) {
                seq![AdvisoryV::Uncon { path: path@, schema_kind: "empty"@ }]
            } else {
                Seq::empty()
            };
            let ghost errs0 = errors@;
            match obj_get(fields, "enum") {
                Some(ev) => {
                    match ev {
                        Json::Arr(vals) => {
                            proof {
                                lemma_elems_view(vals@);
                                assert(ev@ == JsonV::Arr(elems_view(vals@)));
                            }
                            let _ = check_enum_homogeneity(vals, path, t, errors);
                        },
                        _ => {
                            proof {
                                lemma_appended_refl(errors@, t);
                            }
                        },
                    }
                },
                None => {
                    proof {
                        lemma_appended_refl(errors@, t);
                    }
                },
            }
            let ghost errs_mid = errors@;
            let at_root = str_eq(path, "#");
            if !at_root && is_unconstrained(fields) {
                let e = ProviderCompatError::UnconstrainedSchema {
                    path: String::from_str(path),
                    schema_kind: String::from_str("empty"),
                    target: t,
                    hint: String::from_str(
                        "a schema without content keywords accepts every value",
                    ),
                };
                proof {
                    assert(advisory_matches(
                        e,
                        AdvisoryV::Uncon { path: path@, schema_kind: "empty"@ },
                        t,
                    ));
                }
                errors.push(e);
            }
            proof {
                assert(appended(errs0, errs_mid, own_mixed, t));
                assert(appended(errs_mid, errors@, own_unc, t));
                lemma_appended_trans(errs0, errs_mid, errors@, own_mixed, own_unc, t);
                assert(own == own_mixed + own_unc);
                assert(appended(errs0, errors@, own, t));
            }
            let ghost errs1 = errors@;
            let mut maxd: usize = depth;
            let mut i: usize = 0;
            while i < fields.len()
                invariant
                    j is Obj && *fields == j->Obj_0,
                    fsv == fields_view(fields@),
                    fsv.len() == fields@.len(),
                    forall|k: int|
                        0 <= k < fsv.len() ==> #[trigger] fsv[k] == (
                        fields@[k].0@,
                        fields@[k].1@,
                        ),
                    i <= fields@.len(),
                    depth <= 100,
                    appended(
                        errs1,
                        errors@,
                        audit_children(fsv.take(i as int), path@, depth as nat).errs,
                        t,
                    ),
                    maxd as nat == ({
                        let c = audit_children(fsv.take(i as int), path@, depth as nat);
                        if depth as nat >= c.maxd {
                            depth as nat
                        } else {
                            c.maxd
                        }
                    }),
                decreases fields@.len() - i,
            {
                let ghost am = audit_member(fsv[i as int].0, fsv[i as int].1, path@, depth as nat);
                let ghost errsi = errors@;
                proof {
                    lemma_fields_height(fsv);
                    assert(fsv[i as int] == (fields@[i as int].0@, fields@[i as int].1@));
                    assert(height_v(fsv[i as int].1) <= fields_height(fsv));
                    assert(height_v(j@) == 1 + fields_height(fsv));
                }
                let k = fields[i].0.as_str();
                let v = &fields[i].1;
                proof {
                    assert(v@ == fsv[i as int].1);
                    assert(k@ == fsv[i as int].0);
                }
                let kind_map = str_eq(k, "properties") || str_eq(k, "patternProperties") || str_eq(
                    k,
                    "$defs",
                ) || str_eq(k, "definitions") || str_eq(k, "dependentSchemas");
                let kind_items = str_eq(k, "items");
                let kind_list = str_eq(k, "prefixItems") || str_eq(k, "anyOf") || str_eq(k, "oneOf")
                    || str_eq(k, "allOf");
                let kind_single = str_eq(k, "additionalProperties") || str_eq(k, "contains")
                    || str_eq(k, "not") || str_eq(k, "if") || str_eq(k, "then") || str_eq(k, "else")
                    || str_eq(k, "propertyNames");
                let is_obj = match v {
                    Json::Obj(_) => true,
                    _ => false,
                };
                let is_bool = match v {
                    Json::Bool(_) => true,
                    _ => false,
                };
                let is_arr = match v {
                    Json::Arr(_) => true,
                    _ => false,
                };
                if kind_map && is_obj {
                    match v {
                        Json::Obj(ms) => {
                            proof {
                                lemma_fields_view(ms@);
                                lemma_fields_height(fields_view(ms@));
                            }
                            let ghost msv = fields_view(ms@);
                            proof {
                                assert(v@ == JsonV::Obj(msv));
                                assert(am == audit_map(msv, joined(path@, k@), depth as nat));
                            }
                            let base = path_join(path, k);
                            let ghost errs2 = errors@;
                            let ghost maxd0 = maxd;
                            let mut jj: usize = 0;
                            while jj < ms.len()
                                invariant
                                    is_map_kw(k@),
                                    v is Obj && *ms == v->Obj_0,
                                    msv == fields_view(ms@),
                                    msv.len() == ms@.len(),
                                    forall|q: int|
                                        0 <= q < msv.len() ==> #[trigger] msv[q] == (
                                        ms@[q].0@,
                                        ms@[q].1@,
                                        ),
                                    jj <= ms@.len(),
                                    depth <= 100,
                                    height_v(v@) < height_v(j@),
                                    base@ == joined(path@, k@),
                                    appended(
                                        errs2,
                                        errors@,
                                        audit_map(msv.take(jj as int), base@, depth as nat).errs,
                                        t,
                                    ),
                                    maxd as nat == ({
                                        let c = audit_map(msv.take(jj as int), base@, depth as nat);
                                        if maxd0 as nat >= c.maxd {
                                            maxd0 as nat
                                        } else {
                                            c.maxd
                                        }
                                    }),
                                decreases ms@.len() - jj,
                            {
                                proof {
                                    lemma_fields_height(msv);
                                    assert(msv[jj as int] == (ms@[jj as int].0@, ms@[jj as int].1@));
                                    assert(height_v(msv[jj as int].1) <= fields_height(msv));
                                    assert(height_v(v@) == 1 + fields_height(msv));
                                    assert(msv.take(jj + 1).drop_last() =~= msv.take(jj as int));
                                    assert(msv.take(jj + 1).last() == msv[jj as int]);
                                }
                                let cp = path_join(base.as_str(), ms[jj].0.as_str());
                                let ghost errs3 = errors@;
                                let r = visit(&ms[jj].1, cp.as_str(), depth + 1, t, errors);
                                proof {
                                    lemma_appended_trans(
                                        errs2,
                                        errs3,
                                        errors@,
                                        audit_map(msv.take(jj as int), base@, depth as nat).errs,
                                        audit_v(
                                            msv[jj as int].1,
                                            joined(base@, msv[jj as int].0),
                                            depth as nat + 1,
                                        ).errs,
                                        t,
                                    );
                                    assert(audit_map(msv.take(jj + 1), base@, depth as nat)
                                        == audit_plus(
                                        audit_map(msv.take(jj as int), base@, depth as nat),
                                        audit_v(
                                            msv[jj as int].1,
                                            joined(base@, msv[jj as int].0),
                                            depth as nat + 1,
                                        ),
                                    ));
                                }
                                if r > maxd {
                                    maxd = r;
                                }
                                jj += 1;
                            }
                            proof {
                                assert(msv.take(ms@.len() as int) =~= msv);
                                assert(appended(errsi, errors@, am.errs, t));
                            }
                        },
                        _ => {
                            proof {
                                lemma_appended_refl(errors@, t);
                            }
                        },
                    }
                } else if kind_items || (kind_list && is_arr) {
                    if kind_items && (is_obj || is_bool) {
                        let cp = path_join(path, k);
                        let r = visit(v, cp.as_str(), depth + 1, t, errors);
                        proof {
                            assert(am == audit_v(v@, joined(path@, k@), depth as nat + 1));
                        }
                        if r > maxd {
                            maxd = r;
                        }
                    } else if is_arr {
                        match v {
                            Json::Arr(es) => {
                                proof {
                                    lemma_elems_view(es@);
                                    lemma_elems_height(elems_view(es@));
                                }
                                let ghost esv = elems_view(es@);
                                proof {
                                    assert(v@ == JsonV::Arr(esv));
                                    assert(am == audit_list(esv, joined(path@, k@), depth as nat));
                                }
                                let base = path_join(path, k);
                                let ghost errs2 = errors@;
                                let ghost maxd0 = maxd;
                                let mut jj: usize = 0;
                                while jj < es.len()
                                    invariant
                                        k@ == "items"@ || is_list_kw(k@),
                                        v is Arr && *es == v->Arr_0,
                                        esv == elems_view(es@),
                                        esv.len() == es@.len(),
                                        forall|q: int|
                                            0 <= q < esv.len() ==> #[trigger] esv[q] == es@[q]@,
                                        jj <= es@.len(),
                                        depth <= 100,
                                        height_v(v@) < height_v(j@),
                                        base@ == joined(path@, k@),
                                        appended(
                                            errs2,
                                            errors@,
                                            audit_list(
                                                esv.take(jj as int),
                                                base@,
                                                depth as nat,
                                            ).errs,
                                            t,
                                        ),
                                        maxd as nat == ({
                                            let c = audit_list(
                                                esv.take(jj as int),
                                                base@,
                                                depth as nat,
                                            );
                                            if maxd0 as nat >= c.maxd {
                                                maxd0 as nat
                                            } else {
                                                c.maxd
                                            }
                                        }),
                                    decreases es@.len() - jj,
                                {
                                    proof {
                                        lemma_elems_height(esv);
                                        assert(esv[jj as int] == es@[jj as int]@);
                                        assert(height_v(esv[jj as int]) <= elems_height(esv));
                                        assert(height_v(v@) == 1 + elems_height(esv));
                                        assert(esv.take(jj + 1).drop_last() =~= esv.take(
                                            jj as int,
                                        ));
                                        assert(esv.take(jj + 1).last() == esv[jj as int]);
                                        assert((esv.take(jj + 1).len() - 1) as nat == jj as nat);
                                    }
                                    let cp = path_join_index(base.as_str(), jj);
                                    let ghost errs3 = errors@;
                                    let r = visit(&es[jj], cp.as_str(), depth + 1, t, errors);
                                    proof {
                                        lemma_appended_trans(
                                            errs2,
                                            errs3,
                                            errors@,
                                            audit_list(
                                                esv.take(jj as int),
                                                base@,
                                                depth as nat,
                                            ).errs,
                                            audit_v(
                                                esv[jj as int],
                                                joined(base@, dec_str(jj as nat)),
                                                depth as nat + 1,
                                            ).errs,
                                            t,
                                        );
                                        assert(audit_list(esv.take(jj + 1), base@, depth as nat)
                                            == audit_plus(
                                            audit_list(esv.take(jj as int), base@, depth as nat),
                                            audit_v(
                                                esv[jj as int],
                                                joined(base@, dec_str(jj as nat)),
                                                depth as nat + 1,
                                            ),
                                        ));
                                    }
                                    if r > maxd {
                                        maxd = r;
                                    }
                                    jj += 1;
                                }
                                proof {
                                    assert(esv.take(es@.len() as int) =~= esv);
                                    assert(appended(errsi, errors@, am.errs, t));
                                }
                            },
                            _ => {
                                proof {
                                    lemma_appended_refl(errors@, t);
                                }
                            },
                        }
                    } else {
                        proof {
                            lemma_appended_refl(errors@, t);
                            assert(am == audit_zero());
                        }
                    }
                } else if kind_single && is_obj {
                    let cp = path_join(path, k);
                    let r = visit(v, cp.as_str(), depth + 1, t, errors);
                    proof {
                        assert(am == audit_v(v@, joined(path@, k@), depth as nat + 1));
                    }
                    if r > maxd {
                        maxd = r;
                    }
                } else {
                    proof {
                        lemma_appended_refl(errors@, t);
                        assert(am == audit_zero());
                    }
                }
                proof {
                    lemma_appended_trans(
                        errs1,
                        errsi,
                        errors@,
                        audit_children(fsv.take(i as int), path@, depth as nat).errs,
                        am.errs,
                        t,
                    );
                    assert(fsv.take(i + 1).drop_last() =~= fsv.take(i as int));
                    assert(fsv.take(i + 1).last() == fsv[i as int]);
                    assert(audit_children(fsv.take(i + 1), path@, depth as nat) == audit_plus(
                        audit_children(fsv.take(i as int), path@, depth as nat),
                        am,
                    ));
                }
                i += 1;
            }
            proof {
                assert(fsv.take(fields@.len() as int) =~= fsv);
                lemma_appended_trans(
                    errs0,
                    errs1,
                    errors@,
                    own,
                    audit_children(fsv, path@, depth as nat).errs,
                    t,
                );
                assert(a.errs == own + audit_children(fsv, path@, depth as nat).errs);
            }
            maxd
        },
        _ => {
            proof {
                lemma_appended_refl(errors@, t);
            }
            0
        },
    }
}

/// The root `type` string of a schema, empty when absent or not a string.
pub open spec fn root_type_str(j: JsonV) -> Seq<char> {
    match j {
        JsonV::Obj(fs) => match obj_get_v(fs, "type"@) {
            Some(JsonV::Str(s)) => s,
            _ => Seq::empty(),
        },
        _ => Seq::empty(),
    }
}

/// Whether the root schema declares the object type.
pub open spec fn root_ok_v(j: JsonV) -> bool {
    root_type_str(j) == "object"@
}

/// The root type reported in diagnostics.
pub open spec fn actual_type_str(j: JsonV) -> Seq<char> {
    if root_type_str(j).len() == 0 {
        "unspecified"@
    } else {
        root_type_str(j)
    }
}

/// A non-object root wrapped in a sealed object with one required
/// property named `result`.
pub open spec fn wrapper_v(j: JsonV) -> JsonV {
    JsonV::Obj(
        seq![
            ("type"@, JsonV::Str("object"@)),
            ("properties"@, JsonV::Obj(seq![("result"@, j)])),
            ("required"@, JsonV::Arr(seq![JsonV::Str("result"@)])),
            ("additionalProperties"@, JsonV::Bool(false)),
        ],
    )
}

/// The schema after root type enforcement.
pub open spec fn root_wrapped_v(j: JsonV) -> JsonV {
    if root_ok_v(j) {
        j
    } else {
        wrapper_v(j)
    }
}

/// After root type enforcement the root always declares the object type:
/// a conforming root is kept, every other root is wrapped.
pub proof fn lemma_root_wrapped_is_object(j: JsonV)
    ensures
        root_ok_v(root_wrapped_v(j)),
        root_wrapped_v(j) is Obj,
{
    reveal_strlit("object");
    if root_ok_v(j) {
        assert(root_type_str(j).len() > 0);
        assert(j is Obj);
    } else {
        assert(obj_get_v(wrapper_v(j)->Obj_0, "type"@) == Some(JsonV::Str("object"@)));
    }
}

/// Wraps a non-object root in `{ type: object, properties: { result: .. } }`,
/// recording the transform and a root-type diagnostic; keeps object roots.
pub fn check_root_type(
    schema: &Json,
    t: Target,
    errors: &mut Vec<ProviderCompatError>,
    transforms: &mut Vec<Transform>,
) -> (r: Json)
    ensures
        r@ == root_wrapped_v(schema@),
        root_ok_v(schema@) ==> final(errors)@ == old(errors)@ && final(transforms)@ == old(
            transforms,
        )@,
        !root_ok_v(schema@) ==> {
            &&& final(errors)@.len() == old(errors)@.len() + 1
            &&& forall|i: int| 0 <= i < old(errors)@.len() ==> final(errors)@[i] == old(errors)@[i]
            &&& final(errors)@.last() is RootTypeIncompatible
            &&& final(errors)@.last()->RootTypeIncompatible_actual_type@ == actual_type_str(
                schema@,
            )
            &&& final(errors)@.last()->RootTypeIncompatible_target == t
            &&& final(transforms)@.len() == old(transforms)@.len() + 1
            &&& forall|i: int|
                0 <= i < old(transforms)@.len() ==> final(transforms)@[i] == old(transforms)@[i]
            &&& final(transforms)@.last() is RootObjectWrapper
            &&& final(transforms)@.last()->RootObjectWrapper_path@ == "#"@
            &&& final(transforms)@.last()->RootObjectWrapper_wrapper_key@ == "result"@
        },
{
    let mut type_ok = false;
    match schema {
        Json::Obj(fields) => {
            proof {
                lemma_fields_view(fields@);
            }
            match obj_get(fields, "type") {
                Some(tv) => {
                    match tv {
                        Json::Str(sv) => {
                            if str_eq(sv.as_str(), "object") {
                                type_ok = true;
                            }
                            proof {
                                assert(root_type_str(schema@) == sv@);
                            }
                        },
                        _ => {
                            proof {
                                reveal_strlit("object");
                                assert(root_type_str(schema@).len() == 0);
                            }
                        },
                    }
                },
                None => {
                    proof {
                        reveal_strlit("object");
                        assert(root_type_str(schema@).len() == 0);
                    }
                },
            }
        },
        _ => {
            proof {
                reveal_strlit("object");
                assert(root_type_str(schema@).len() == 0);
            }
        },
    }
    if type_ok {
        return schema.duplicate();
    }
    proof {
        reveal_strlit("object");
    }
    let actual: String = match schema {
        Json::Obj(fields) => {
            proof {
                lemma_fields_view(fields@);
            }
            match obj_get(fields, "type") {
                Some(tv) => {
                    match tv {
                        Json::Str(sv) => {
                            if sv.as_str().unicode_len() == 0 {
                                String::from_str("unspecified")
                            } else {
                                sv.clone()
                            }
                        },
                        _ => String::from_str("unspecified"),
                    }
                },
                None => String::from_str("unspecified"),
            }
        },
        _ => String::from_str("unspecified"),
    };
    proof {
        assert(actual@ == actual_type_str(schema@));
    }
    let e = ProviderCompatError::RootTypeIncompatible {
        actual_type: actual,
        target: t,
        hint: String::from_str("the root schema must describe an object; wrapping it"),
    };
    errors.push(e);
    transforms.push(
        Transform::RootObjectWrapper {
            path: String::from_str("#"),
            wrapper_key: String::from_str("result"),
        },
    );
    let mut props: Vec<(String, Json)> = Vec::new();
    props.push((String::from_str("result"), schema.duplicate()));
    let mut req: Vec<Json> = Vec::new();
    req.push(Json::Str(String::from_str("result")));
    let mut fields: Vec<(String, Json)> = Vec::new();
    fields.push((String::from_str("type"), Json::Str(String::from_str("object"))));
    fields.push((String::from_str("properties"), Json::Obj(props)));
    fields.push((String::from_str("required"), Json::Arr(req)));
    fields.push((String::from_str("additionalProperties"), Json::Bool(false)));
    let r = Json::Obj(fields);
    proof {
        lemma_fields_view(fields@);
        lemma_fields_view(props@);
        lemma_elems_view(req@);
        assert(fields_view(props@) =~= seq![("result"@, schema@)]);
        assert(elems_view(req@) =~= seq![JsonV::Str("result"@)]);
        assert(fields_view(fields@) =~= seq![
            ("type"@, JsonV::Str("object"@)),
            ("properties"@, JsonV::Obj(seq![("result"@, schema@)])),
            ("required"@, JsonV::Arr(seq![JsonV::Str("result"@)])),
            ("additionalProperties"@, JsonV::Bool(false)),
        ]);
        assert(r@ == wrapper_v(schema@));
    }
    r
}

/// Runs the provider compatibility audit.
///
/// For the strict OpenAI target in strict mode the root is made an
/// object, and the recorded diagnostics are, in order: one root-type
/// diagnostic naming the actual root type when the root was wrapped,
/// then one diagnostic per audit observation in visit order — every
/// enumeration mixing JSON types with its path and the type names
/// found, every unconstrained or boolean sub-schema with its path and
/// kind — and one aggregated diagnostic with the observed depth last,
/// when the schema nests deeper than the provider accepts.  For every
/// other target or mode the schema passes through untouched.
pub fn check_provider_compat(schema: &Json, config: &ConvertOptions) -> (r: ProviderCompatResult)
    ensures
        ({
            let strict = config.target == Target::OpenaiStrict && config.mode == Mode::Strict;
            let w = root_wrapped_v(schema@);
            let a = audit_v(w, "#"@, 0);
            let base: int = if root_ok_v(schema@) {
                0int
            } else {
                1int
            };
            let dep: int = if a.maxd > OPENAI_MAX_DEPTH as nat {
                1int
            } else {
                0int
            };
            &&& !strict ==> r.schema@ == schema@ && r.transforms@.len() == 0 && r.errors@.len()
                == 0
            &&& strict ==> {
                &&& r.schema@ == w
                &&& root_ok_v(r.schema@)
                &&& r.schema@ is Obj
                &&& (root_ok_v(schema@) ==> r.transforms@.len() == 0)
                &&& (!root_ok_v(schema@) ==> r.transforms@.len() == 1 && r.transforms@[0]
                    is RootObjectWrapper && r.transforms@[0]->RootObjectWrapper_path@ == "#"@
                    && r.transforms@[0]->RootObjectWrapper_wrapper_key@ == "result"@)
                &&& r.errors@.len() == base + a.errs.len() + dep
                &&& (!root_ok_v(schema@) ==> r.errors@[0] is RootTypeIncompatible && r.errors@[0]
                    ->RootTypeIncompatible_actual_type@ == actual_type_str(schema@) && r.errors@[0]
                    ->RootTypeIncompatible_target == config.target)
                &&& (forall|q: int|
                    0 <= q < a.errs.len() ==> advisory_matches(
                        #[trigger] r.errors@[base + q],
                        a.errs[q],
                        config.target,
                    ))
                &&& (a.maxd > OPENAI_MAX_DEPTH as nat ==> r.errors@.last() is DepthBudgetExceeded
                    && r.errors@.last()->DepthBudgetExceeded_actual_depth == a.maxd
                    && r.errors@.last()->DepthBudgetExceeded_max_depth == OPENAI_MAX_DEPTH
                    && r.errors@.last()->DepthBudgetExceeded_target == config.target)
            }
            &&& is_schema_node(schema@) ==> is_schema_node(r.schema@)
        }),
{
    if !(config.target == Target::OpenaiStrict && config.mode == Mode::Strict) {
        return ProviderCompatResult {
            schema: schema.duplicate(),
            transforms: Vec::new(),
            errors: Vec::new(),
        };
    }
    let mut errors: Vec<ProviderCompatError> = Vec::new();
    let mut transforms: Vec<Transform> = Vec::new();
    let wrapped = check_root_type(schema, config.target, &mut errors, &mut transforms);
    proof {
        lemma_root_wrapped_is_object(schema@);
    }
    let ghost errs_root = errors@;
    let maxd = visit(&wrapped, "#", 0, config.target, &mut errors);
    let ghost errs_visit = errors@;
    if maxd > OPENAI_MAX_DEPTH {
        let e = ProviderCompatError::DepthBudgetExceeded {
            actual_depth: maxd,
            max_depth: OPENAI_MAX_DEPTH,
            target: config.target,
            hint: String::from_str("the schema nests deeper than the provider accepts"),
        };
        errors.push(e);
        proof {
            assert(forall|q: int|
                0 <= q < errs_visit.len() ==> #[trigger] errors@[q] == errs_visit[q]);
        }
    }
    ProviderCompatResult { schema: wrapped, transforms, errors }
}

} // verus!
