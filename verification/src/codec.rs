//! Codec entries and the error taxonomy.
//!
//! The codec is the audit record of the pipeline: every rewrite appends an
//! entry, and advisory diagnostics accumulate beside the transforms, so a
//! decoder can explain every divergence from the input schema.

use vstd::prelude::*;

use crate::json::{
    elems_view, fields_view, lemma_elems_view, lemma_fields_view, lemma_strs_view_index, obj_get,
    obj_get_v, str_eq, strs_view, Json, JsonV,
};
use crate::options::Target;
use crate::path::{dec_str, parse_dec, lemma_dec_round_trip, usize_to_string};

verus! {

/// A keyword removed from the schema; the original value is preserved
/// for audit.
#[derive(Debug)]
pub struct DroppedConstraint {
    /// Pointer-shaped location of the node the keyword was removed from.
    pub path: String,
    /// The removed keyword.
    pub constraint: String,
    /// The value the keyword had before removal.
    pub value: Json,
    /// Why the keyword was removed.
    pub reason: String,
}

/// A structural rewrite performed by a pass.
#[derive(Debug)]
pub enum Transform {
    /// An input shape was coerced into the canonical form.
    Normalized { path: String, kind: String },
    /// A local reference was replaced by its target.
    RefInlined { path: String, ref_source: String },
    /// A composition keyword was merged into its parent.
    CompositionFlattened { path: String, kind: String },
    /// A constant was rewritten into a one-element enumeration.
    ConstToEnum { path: String },
    /// An enumeration was reordered to put the default value first.
    EnumReordered { path: String, original_order: Vec<Json> },
    /// A non-object root was wrapped in an object with one property.
    RootObjectWrapper { path: String, wrapper_key: String },
}

/// A fatal pipeline error; no schema is produced.
#[derive(Debug)]
pub enum ConvertError {
    /// Traversal went past the configured depth limit.
    DepthExceeded { hint: String },
    /// A reference chain reached itself.
    ReferenceCycle { hint: String },
    /// Inlining references would grow the schema past its bound.
    RefExpansionTooLarge { hint: String },
    /// A reference points outside the document.
    UnsupportedRef { hint: String },
    /// Composition branches cannot be merged.
    CompositionMerge { hint: String },
    /// A JSON object was required where none was found.
    MalformedSchema { hint: String },
    /// A pass broke one of the pipeline's own invariants.
    InternalInvariantViolated { hint: String },
}

/// An advisory diagnostic: recorded in the codec, never fatal.
#[derive(Debug)]
pub enum ProviderCompatError {
    /// The root schema does not describe an object.
    RootTypeIncompatible { actual_type: String, target: Target, hint: String },
    /// The schema nests deeper than the provider accepts.
    DepthBudgetExceeded { actual_depth: usize, max_depth: usize, target: Target, hint: String },
    /// An enumeration mixes values of different JSON types.
    MixedEnumTypes { path: String, types_found: Vec<String>, target: Target, hint: String },
    /// A sub-schema places no constraint on its values.
    UnconstrainedSchema { path: String, schema_kind: String, target: Target, hint: String },
}


/// The member names and kind tags of serialized codec entries are
/// pairwise distinct.
pub proof fn lemma_codec_literals()
    ensures
        ("kind")@ != ("path")@,
        ("kind")@ != ("constraint")@,
        ("kind")@ != ("value")@,
        ("kind")@ != ("reason")@,
        ("kind")@ != ("ref_source")@,
        ("kind")@ != ("wrapper_key")@,
        ("kind")@ != ("original_order")@,
        ("path")@ != ("constraint")@,
        ("path")@ != ("value")@,
        ("path")@ != ("reason")@,
        ("path")@ != ("ref_source")@,
        ("path")@ != ("wrapper_key")@,
        ("path")@ != ("original_order")@,
        ("constraint")@ != ("value")@,
        ("constraint")@ != ("reason")@,
        ("constraint")@ != ("ref_source")@,
        ("constraint")@ != ("wrapper_key")@,
        ("constraint")@ != ("original_order")@,
        ("value")@ != ("reason")@,
        ("value")@ != ("ref_source")@,
        ("value")@ != ("wrapper_key")@,
        ("value")@ != ("original_order")@,
        ("reason")@ != ("ref_source")@,
        ("reason")@ != ("wrapper_key")@,
        ("reason")@ != ("original_order")@,
        ("ref_source")@ != ("wrapper_key")@,
        ("ref_source")@ != ("original_order")@,
        ("wrapper_key")@ != ("original_order")@,
        ("DroppedConstraint")@ != ("Normalized")@,
        ("DroppedConstraint")@ != ("RefInlined")@,
        ("DroppedConstraint")@ != ("CompositionFlattened")@,
        ("DroppedConstraint")@ != ("ConstToEnum")@,
        ("DroppedConstraint")@ != ("EnumReordered")@,
        ("DroppedConstraint")@ != ("RootObjectWrapper")@,
        ("Normalized")@ != ("RefInlined")@,
        ("Normalized")@ != ("CompositionFlattened")@,
        ("Normalized")@ != ("ConstToEnum")@,
        ("Normalized")@ != ("EnumReordered")@,
        ("Normalized")@ != ("RootObjectWrapper")@,
        ("RefInlined")@ != ("CompositionFlattened")@,
        ("RefInlined")@ != ("ConstToEnum")@,
        ("RefInlined")@ != ("EnumReordered")@,
        ("RefInlined")@ != ("RootObjectWrapper")@,
        ("CompositionFlattened")@ != ("ConstToEnum")@,
        ("CompositionFlattened")@ != ("EnumReordered")@,
        ("CompositionFlattened")@ != ("RootObjectWrapper")@,
        ("ConstToEnum")@ != ("EnumReordered")@,
        ("ConstToEnum")@ != ("RootObjectWrapper")@,
        ("EnumReordered")@ != ("RootObjectWrapper")@,
{
    reveal_strlit("CompositionFlattened");
    reveal_strlit("ConstToEnum");
    reveal_strlit("DroppedConstraint");
    reveal_strlit("EnumReordered");
    reveal_strlit("Normalized");
    reveal_strlit("RefInlined");
    reveal_strlit("RootObjectWrapper");
    reveal_strlit("constraint");
    reveal_strlit("kind");
    reveal_strlit("original_order");
    reveal_strlit("path");
    reveal_strlit("reason");
    reveal_strlit("ref_source");
    reveal_strlit("value");
    reveal_strlit("wrapper_key");
    assert(("kind")@ != ("path")@) by {
        assert(("kind")@[0] == 'k');
        assert(("path")@[0] == 'p');
    }
    assert(("kind")@ != ("constraint")@) by {
        assert(("kind")@.len() == 4);
        assert(("constraint")@.len() == 10);
    }
    assert(("kind")@ != ("value")@) by {
        assert(("kind")@.len() == 4);
        assert(("value")@.len() == 5);
    }
    assert(("kind")@ != ("reason")@) by {
        assert(("kind")@.len() == 4);
        assert(("reason")@.len() == 6);
    }
    assert(("kind")@ != ("ref_source")@) by {
        assert(("kind")@.len() == 4);
        assert(("ref_source")@.len() == 10);
    }
    assert(("kind")@ != ("wrapper_key")@) by {
        assert(("kind")@.len() == 4);
        assert(("wrapper_key")@.len() == 11);
    }
    assert(("kind")@ != ("original_order")@) by {
        assert(("kind")@.len() == 4);
        assert(("original_order")@.len() == 14);
    }
    assert(("path")@ != ("constraint")@) by {
        assert(("path")@.len() == 4);
        assert(("constraint")@.len() == 10);
    }
    assert(("path")@ != ("value")@) by {
        assert(("path")@.len() == 4);
        assert(("value")@.len() == 5);
    }
    assert(("path")@ != ("reason")@) by {
        assert(("path")@.len() == 4);
        assert(("reason")@.len() == 6);
    }
    assert(("path")@ != ("ref_source")@) by {
        assert(("path")@.len() == 4);
        assert(("ref_source")@.len() == 10);
    }
    assert(("path")@ != ("wrapper_key")@) by {
        assert(("path")@.len() == 4);
        assert(("wrapper_key")@.len() == 11);
    }
    assert(("path")@ != ("original_order")@) by {
        assert(("path")@.len() == 4);
        assert(("original_order")@.len() == 14);
    }
    assert(("constraint")@ != ("value")@) by {
        assert(("constraint")@.len() == 10);
        assert(("value")@.len() == 5);
    }
    assert(("constraint")@ != ("reason")@) by {
        assert(("constraint")@.len() == 10);
        assert(("reason")@.len() == 6);
    }
    assert(("constraint")@ != ("ref_source")@) by {
        assert(("constraint")@[0] == 'c');
        assert(("ref_source")@[0] == 'r');
    }
    assert(("constraint")@ != ("wrapper_key")@) by {
        assert(("constraint")@.len() == 10);
        assert(("wrapper_key")@.len() == 11);
    }
    assert(("constraint")@ != ("original_order")@) by {
        assert(("constraint")@.len() == 10);
        assert(("original_order")@.len() == 14);
    }
    assert(("value")@ != ("reason")@) by {
        assert(("value")@.len() == 5);
        assert(("reason")@.len() == 6);
    }
    assert(("value")@ != ("ref_source")@) by {
        assert(("value")@.len() == 5);
        assert(("ref_source")@.len() == 10);
    }
    assert(("value")@ != ("wrapper_key")@) by {
        assert(("value")@.len() == 5);
        assert(("wrapper_key")@.len() == 11);
    }
    assert(("value")@ != ("original_order")@) by {
        assert(("value")@.len() == 5);
        assert(("original_order")@.len() == 14);
    }
    assert(("reason")@ != ("ref_source")@) by {
        assert(("reason")@.len() == 6);
        assert(("ref_source")@.len() == 10);
    }
    assert(("reason")@ != ("wrapper_key")@) by {
        assert(("reason")@.len() == 6);
        assert(("wrapper_key")@.len() == 11);
    }
    assert(("reason")@ != ("original_order")@) by {
        assert(("reason")@.len() == 6);
        assert(("original_order")@.len() == 14);
    }
    assert(("ref_source")@ != ("wrapper_key")@) by {
        assert(("ref_source")@.len() == 10);
        assert(("wrapper_key")@.len() == 11);
    }
    assert(("ref_source")@ != ("original_order")@) by {
        assert(("ref_source")@.len() == 10);
        assert(("original_order")@.len() == 14);
    }
    assert(("wrapper_key")@ != ("original_order")@) by {
        assert(("wrapper_key")@.len() == 11);
        assert(("original_order")@.len() == 14);
    }
    assert(("DroppedConstraint")@ != ("Normalized")@) by {
        assert(("DroppedConstraint")@.len() == 17);
        assert(("Normalized")@.len() == 10);
    }
    assert(("DroppedConstraint")@ != ("RefInlined")@) by {
        assert(("DroppedConstraint")@.len() == 17);
        assert(("RefInlined")@.len() == 10);
    }
    assert(("DroppedConstraint")@ != ("CompositionFlattened")@) by {
        assert(("DroppedConstraint")@.len() == 17);
        assert(("CompositionFlattened")@.len() == 20);
    }
    assert(("DroppedConstraint")@ != ("ConstToEnum")@) by {
        assert(("DroppedConstraint")@.len() == 17);
        assert(("ConstToEnum")@.len() == 11);
    }
    assert(("DroppedConstraint")@ != ("EnumReordered")@) by {
        assert(("DroppedConstraint")@.len() == 17);
        assert(("EnumReordered")@.len() == 13);
    }
    assert(("DroppedConstraint")@ != ("RootObjectWrapper")@) by {
        assert(("DroppedConstraint")@[0] == 'D');
        assert(("RootObjectWrapper")@[0] == 'R');
    }
    assert(("Normalized")@ != ("RefInlined")@) by {
        assert(("Normalized")@[0] == 'N');
        assert(("RefInlined")@[0] == 'R');
    }
    assert(("Normalized")@ != ("CompositionFlattened")@) by {
        assert(("Normalized")@.len() == 10);
        assert(("CompositionFlattened")@.len() == 20);
    }
    assert(("Normalized")@ != ("ConstToEnum")@) by {
        assert(("Normalized")@.len() == 10);
        assert(("ConstToEnum")@.len() == 11);
    }
    assert(("Normalized")@ != ("EnumReordered")@) by {
        assert(("Normalized")@.len() == 10);
        assert(("EnumReordered")@.len() == 13);
    }
    assert(("Normalized")@ != ("RootObjectWrapper")@) by {
        assert(("Normalized")@.len() == 10);
        assert(("RootObjectWrapper")@.len() == 17);
    }
    assert(("RefInlined")@ != ("CompositionFlattened")@) by {
        assert(("RefInlined")@.len() == 10);
        assert(("CompositionFlattened")@.len() == 20);
    }
    assert(("RefInlined")@ != ("ConstToEnum")@) by {
        assert(("RefInlined")@.len() == 10);
        assert(("ConstToEnum")@.len() == 11);
    }
    assert(("RefInlined")@ != ("EnumReordered")@) by {
        assert(("RefInlined")@.len() == 10);
        assert(("EnumReordered")@.len() == 13);
    }
    assert(("RefInlined")@ != ("RootObjectWrapper")@) by {
        assert(("RefInlined")@.len() == 10);
        assert(("RootObjectWrapper")@.len() == 17);
    }
    assert(("CompositionFlattened")@ != ("ConstToEnum")@) by {
        assert(("CompositionFlattened")@.len() == 20);
        assert(("ConstToEnum")@.len() == 11);
    }
    assert(("CompositionFlattened")@ != ("EnumReordered")@) by {
        assert(("CompositionFlattened")@.len() == 20);
        assert(("EnumReordered")@.len() == 13);
    }
    assert(("CompositionFlattened")@ != ("RootObjectWrapper")@) by {
        assert(("CompositionFlattened")@.len() == 20);
        assert(("RootObjectWrapper")@.len() == 17);
    }
    assert(("ConstToEnum")@ != ("EnumReordered")@) by {
        assert(("ConstToEnum")@.len() == 11);
        assert(("EnumReordered")@.len() == 13);
    }
    assert(("ConstToEnum")@ != ("RootObjectWrapper")@) by {
        assert(("ConstToEnum")@.len() == 11);
        assert(("RootObjectWrapper")@.len() == 17);
    }
    assert(("EnumReordered")@ != ("RootObjectWrapper")@) by {
        assert(("EnumReordered")@.len() == 13);
        assert(("RootObjectWrapper")@.len() == 17);
    }
}

/// A dropped-constraint record as a tagged JSON object.
pub open spec fn dropped_json_v(
    path: Seq<char>,
    constraint: Seq<char>,
    value: JsonV,
    reason: Seq<char>,
) -> JsonV {
    JsonV::Obj(
        seq![
            ("kind"@, JsonV::Str("DroppedConstraint"@)),
            ("path"@, JsonV::Str(path)),
            ("constraint"@, JsonV::Str(constraint)),
            ("value"@, value),
            ("reason"@, JsonV::Str(reason)),
        ],
    )
}

/// A transform as a tagged JSON object.
pub open spec fn transform_json_v(t: Transform) -> JsonV {
    match t {
        Transform::Normalized { path, kind } => JsonV::Obj(
            seq![
                ("kind"@, JsonV::Str("Normalized"@)),
                ("path"@, JsonV::Str(path@)),
                ("normalized_kind"@, JsonV::Str(kind@)),
            ],
        ),
        Transform::RefInlined { path, ref_source } => JsonV::Obj(
            seq![
                ("kind"@, JsonV::Str("RefInlined"@)),
                ("path"@, JsonV::Str(path@)),
                ("ref_source"@, JsonV::Str(ref_source@)),
            ],
        ),
        Transform::CompositionFlattened { path, kind } => JsonV::Obj(
            seq![
                ("kind"@, JsonV::Str("CompositionFlattened"@)),
                ("path"@, JsonV::Str(path@)),
                ("normalized_kind"@, JsonV::Str(kind@)),
            ],
        ),
        Transform::ConstToEnum { path } => JsonV::Obj(
            seq![("kind"@, JsonV::Str("ConstToEnum"@)), ("path"@, JsonV::Str(path@))],
        ),
        Transform::EnumReordered { path, original_order } => JsonV::Obj(
            seq![
                ("kind"@, JsonV::Str("EnumReordered"@)),
                ("path"@, JsonV::Str(path@)),
                ("original_order"@, JsonV::Arr(elems_view(original_order@))),
            ],
        ),
        Transform::RootObjectWrapper { path, wrapper_key } => JsonV::Obj(
            seq![
                ("kind"@, JsonV::Str("RootObjectWrapper"@)),
                ("path"@, JsonV::Str(path@)),
                ("wrapper_key"@, JsonV::Str(wrapper_key@)),
            ],
        ),
    }
}

/// The parse of a serialized dropped-constraint record: the fields of
/// the record, when the object is tagged and shaped as one.
pub open spec fn dropped_parse_v(j: JsonV) -> Option<(Seq<char>, Seq<char>, JsonV, Seq<char>)> {
    match j {
        JsonV::Obj(fs) => {
            if obj_get_v(fs, "kind"@) == Some(JsonV::Str("DroppedConstraint"@)) {
                match (
                    obj_get_v(fs, "path"@),
                    obj_get_v(fs, "constraint"@),
                    obj_get_v(fs, "value"@),
                    obj_get_v(fs, "reason"@),
                ) {
                    (
                        Some(JsonV::Str(p)),
                        Some(JsonV::Str(c)),
                        Some(v),
                        Some(JsonV::Str(r)),
                    ) => Some((p, c, v, r)),
                    _ => None,
                }
            } else {
                None
            }
        },
        _ => None,
    }
}

/// Law: serializing a dropped-constraint record and parsing it back
/// yields the identical record.
pub proof fn lemma_dropped_round_trip(
    path: Seq<char>,
    constraint: Seq<char>,
    value: JsonV,
    reason: Seq<char>,
)
    ensures
        dropped_parse_v(dropped_json_v(path, constraint, value, reason)) == Some(
            (path, constraint, value, reason),
        ),
{
    lemma_codec_literals();
    reveal_with_fuel(obj_get_v, 7);
}

/// Serializes a dropped-constraint record.
pub fn dropped_to_json(d: &DroppedConstraint) -> (r: Json)
    ensures
        r@ == dropped_json_v(d.path@, d.constraint@, d.value@, d.reason@),
{
    let mut fields: Vec<(String, Json)> = Vec::new();
    fields.push((String::from_str("kind"), Json::Str(String::from_str("DroppedConstraint"))));
    fields.push((String::from_str("path"), Json::Str(d.path.clone())));
    fields.push((String::from_str("constraint"), Json::Str(d.constraint.clone())));
    fields.push((String::from_str("value"), d.value.duplicate()));
    fields.push((String::from_str("reason"), Json::Str(d.reason.clone())));
    let r = Json::Obj(fields);
    proof {
        lemma_fields_view(fields@);
        assert(fields_view(fields@) =~= seq![
            ("kind"@, JsonV::Str("DroppedConstraint"@)),
            ("path"@, JsonV::Str(d.path@)),
            ("constraint"@, JsonV::Str(d.constraint@)),
            ("value"@, d.value@),
            ("reason"@, JsonV::Str(d.reason@)),
        ]);
    }
    r
}

/// Parses a serialized dropped-constraint record.
pub fn dropped_from_json(j: &Json) -> (r: Option<DroppedConstraint>)
    ensures
        match r {
            Some(d) => dropped_parse_v(j@) == Some((d.path@, d.constraint@, d.value@, d.reason@)),
            None => dropped_parse_v(j@) is None,
        },
{
    let fields = match j {
        Json::Obj(fields) => fields,
        _ => {
            return None;
        },
    };
    proof {
        lemma_fields_view(fields@);
    }
    let kind_ok = match obj_get(fields, "kind") {
        Some(Json::Str(s)) => str_eq(s.as_str(), "DroppedConstraint"),
        _ => false,
    };
    if !kind_ok {
        return None;
    }
    let path = match obj_get(fields, "path") {
        Some(Json::Str(s)) => s.clone(),
        _ => {
            return None;
        },
    };
    let constraint = match obj_get(fields, "constraint") {
        Some(Json::Str(s)) => s.clone(),
        _ => {
            return None;
        },
    };
    let value = match obj_get(fields, "value") {
        Some(v) => v.duplicate(),
        None => {
            return None;
        },
    };
    let reason = match obj_get(fields, "reason") {
        Some(Json::Str(s)) => s.clone(),
        _ => {
            return None;
        },
    };
    Some(DroppedConstraint { path, constraint, value, reason })
}

/// Serializes a transform.
pub fn transform_to_json(t: &Transform) -> (r: Json)
    ensures
        r@ == transform_json_v(*t),
{
    let mut fields: Vec<(String, Json)> = Vec::new();
    match t {
        Transform::Normalized { path, kind } => {
            fields.push((String::from_str("kind"), Json::Str(String::from_str("Normalized"))));
            fields.push((String::from_str("path"), Json::Str(path.clone())));
            fields.push((String::from_str("normalized_kind"), Json::Str(kind.clone())));
            let r = Json::Obj(fields);
            proof {
                lemma_fields_view(r->Obj_0@);
                assert(fields_view(r->Obj_0@) =~= seq![
                    ("kind"@, JsonV::Str("Normalized"@)),
                    ("path"@, JsonV::Str(path@)),
                    ("normalized_kind"@, JsonV::Str(kind@)),
                ]);
            }
            r
        },
        Transform::RefInlined { path, ref_source } => {
            fields.push((String::from_str("kind"), Json::Str(String::from_str("RefInlined"))));
            fields.push((String::from_str("path"), Json::Str(path.clone())));
            fields.push((String::from_str("ref_source"), Json::Str(ref_source.clone())));
            let r = Json::Obj(fields);
            proof {
                lemma_fields_view(r->Obj_0@);
                assert(fields_view(r->Obj_0@) =~= seq![
                    ("kind"@, JsonV::Str("RefInlined"@)),
                    ("path"@, JsonV::Str(path@)),
                    ("ref_source"@, JsonV::Str(ref_source@)),
                ]);
            }
            r
        },
        Transform::CompositionFlattened { path, kind } => {
            fields.push((
                String::from_str("kind"),
                Json::Str(String::from_str("CompositionFlattened")),
            ));
            fields.push((String::from_str("path"), Json::Str(path.clone())));
            fields.push((String::from_str("normalized_kind"), Json::Str(kind.clone())));
            let r = Json::Obj(fields);
            proof {
                lemma_fields_view(r->Obj_0@);
                assert(fields_view(r->Obj_0@) =~= seq![
                    ("kind"@, JsonV::Str("CompositionFlattened"@)),
                    ("path"@, JsonV::Str(path@)),
                    ("normalized_kind"@, JsonV::Str(kind@)),
                ]);
            }
            r
        },
        Transform::ConstToEnum { path } => {
            fields.push((String::from_str("kind"), Json::Str(String::from_str("ConstToEnum"))));
            fields.push((String::from_str("path"), Json::Str(path.clone())));
            let r = Json::Obj(fields);
            proof {
                lemma_fields_view(r->Obj_0@);
                assert(fields_view(r->Obj_0@) =~= seq![
                    ("kind"@, JsonV::Str("ConstToEnum"@)),
                    ("path"@, JsonV::Str(path@)),
                ]);
            }
            r
        },
        Transform::EnumReordered { path, original_order } => {
            fields.push((String::from_str("kind"), Json::Str(String::from_str("EnumReordered"))));
            fields.push((String::from_str("path"), Json::Str(path.clone())));
            let mut order: Vec<Json> = Vec::new();
            let mut i: usize = 0;
            while i < original_order.len()
                invariant
                    i <= original_order@.len(),
                    order@.len() == i,
                    forall|q: int|
                        0 <= q < i ==> #[trigger] order@[q]@ == original_order@[q]@,
                decreases original_order@.len() - i,
            {
                let d = original_order[i].duplicate();
                order.push(d);
                i += 1;
            }
            proof {
                lemma_elems_view(order@);
                lemma_elems_view(original_order@);
                assert(elems_view(order@) =~= elems_view(original_order@));
            }
            fields.push((String::from_str("original_order"), Json::Arr(order)));
            let r = Json::Obj(fields);
            proof {
                lemma_fields_view(r->Obj_0@);
                assert(fields_view(r->Obj_0@) =~= seq![
                    ("kind"@, JsonV::Str("EnumReordered"@)),
                    ("path"@, JsonV::Str(path@)),
                    ("original_order"@, JsonV::Arr(elems_view(original_order@))),
                ]);
            }
            r
        },
        Transform::RootObjectWrapper { path, wrapper_key } => {
            fields.push((
                String::from_str("kind"),
                Json::Str(String::from_str("RootObjectWrapper")),
            ));
            fields.push((String::from_str("path"), Json::Str(path.clone())));
            fields.push((String::from_str("wrapper_key"), Json::Str(wrapper_key.clone())));
            let r = Json::Obj(fields);
            proof {
                lemma_fields_view(r->Obj_0@);
                assert(fields_view(r->Obj_0@) =~= seq![
                    ("kind"@, JsonV::Str("RootObjectWrapper"@)),
                    ("path"@, JsonV::Str(path@)),
                    ("wrapper_key"@, JsonV::Str(wrapper_key@)),
                ]);
            }
            r
        },
    }
}

/// Model of a transform: the view of [`Transform`].
pub ghost enum TransformV {
    Normalized { path: Seq<char>, kind: Seq<char> },
    RefInlined { path: Seq<char>, ref_source: Seq<char> },
    CompositionFlattened { path: Seq<char>, kind: Seq<char> },
    ConstToEnum { path: Seq<char> },
    EnumReordered { path: Seq<char>, original_order: Seq<JsonV> },
    RootObjectWrapper { path: Seq<char>, wrapper_key: Seq<char> },
}

impl View for Transform {
    type V = TransformV;

    open spec fn view(&self) -> TransformV {
        match self {
            Transform::Normalized { path, kind } => TransformV::Normalized {
                path: path@,
                kind: kind@,
            },
            Transform::RefInlined { path, ref_source } => TransformV::RefInlined {
                path: path@,
                ref_source: ref_source@,
            },
            Transform::CompositionFlattened { path, kind } => TransformV::CompositionFlattened {
                path: path@,
                kind: kind@,
            },
            Transform::ConstToEnum { path } => TransformV::ConstToEnum { path: path@ },
            Transform::EnumReordered { path, original_order } => TransformV::EnumReordered {
                path: path@,
                original_order: elems_view(original_order@),
            },
            Transform::RootObjectWrapper { path, wrapper_key } => TransformV::RootObjectWrapper {
                path: path@,
                wrapper_key: wrapper_key@,
            },
        }
    }
}

/// The parse of a serialized transform: the transform's model, when the
/// object carries a known tag and the members that tag requires.
pub open spec fn transform_parse_v(j: JsonV) -> Option<TransformV> {
    match j {
        JsonV::Obj(fs) => match obj_get_v(fs, "kind"@) {
            Some(JsonV::Str(tag)) => {
                if tag == "Normalized"@ {
                    match (obj_get_v(fs, "path"@), obj_get_v(fs, "normalized_kind"@)) {
                        (Some(JsonV::Str(p)), Some(JsonV::Str(k))) => Some(
                            TransformV::Normalized { path: p, kind: k },
                        ),
                        _ => None,
                    }
                } else if tag == "RefInlined"@ {
                    match (obj_get_v(fs, "path"@), obj_get_v(fs, "ref_source"@)) {
                        (Some(JsonV::Str(p)), Some(JsonV::Str(r))) => Some(
                            TransformV::RefInlined { path: p, ref_source: r },
                        ),
                        _ => None,
                    }
                } else if tag == "CompositionFlattened"@ {
                    match (obj_get_v(fs, "path"@), obj_get_v(fs, "normalized_kind"@)) {
                        (Some(JsonV::Str(p)), Some(JsonV::Str(k))) => Some(
                            TransformV::CompositionFlattened { path: p, kind: k },
                        ),
                        _ => None,
                    }
                } else if tag == "ConstToEnum"@ {
                    match obj_get_v(fs, "path"@) {
                        Some(JsonV::Str(p)) => Some(TransformV::ConstToEnum { path: p }),
                        _ => None,
                    }
                } else if tag == "EnumReordered"@ {
                    match (obj_get_v(fs, "path"@), obj_get_v(fs, "original_order"@)) {
                        (Some(JsonV::Str(p)), Some(JsonV::Arr(es))) => Some(
                            TransformV::EnumReordered { path: p, original_order: es },
                        ),
                        _ => None,
                    }
                } else if tag == "RootObjectWrapper"@ {
                    match (obj_get_v(fs, "path"@), obj_get_v(fs, "wrapper_key"@)) {
                        (Some(JsonV::Str(p)), Some(JsonV::Str(w))) => Some(
                            TransformV::RootObjectWrapper { path: p, wrapper_key: w },
                        ),
                        _ => None,
                    }
                } else {
                    None
                }
            },
            _ => None,
        },
        _ => None,
    }
}

/// Law: serializing a transform and parsing it back yields the
/// identical transform.
pub proof fn lemma_transform_round_trip(t: Transform)
    ensures
        transform_parse_v(transform_json_v(t)) == Some(t@),
{
    lemma_codec_literals();
    lemma_normalized_kind_literal();
    reveal_with_fuel(obj_get_v, 5);
}

/// The member name holding a normalization kind is no other member name.
pub proof fn lemma_normalized_kind_literal()
    ensures
        ("kind")@ != ("normalized_kind")@,
        ("path")@ != ("normalized_kind")@,
{
    reveal_strlit("kind");
    reveal_strlit("path");
    reveal_strlit("normalized_kind");
    assert(("kind")@ != ("normalized_kind")@) by {
        assert(("kind")@.len() == 4);
        assert(("normalized_kind")@.len() == 15);
    }
    assert(("path")@ != ("normalized_kind")@) by {
        assert(("path")@.len() == 4);
        assert(("normalized_kind")@.len() == 15);
    }
}

/// Parses a serialized transform.
pub fn transform_from_json(j: &Json) -> (r: Option<Transform>)
    ensures
        match r {
            Some(t) => transform_parse_v(j@) == Some(t@),
            None => transform_parse_v(j@) is None,
        },
{
    let fields = match j {
        Json::Obj(fields) => fields,
        _ => {
            return None;
        },
    };
    proof {
        lemma_fields_view(fields@);
    }
    let tag = match obj_get(fields, "kind") {
        Some(Json::Str(s)) => s.as_str(),
        _ => {
            return None;
        },
    };
    let path = match obj_get(fields, "path") {
        Some(Json::Str(s)) => s.clone(),
        _ => {
            return None;
        },
    };
    if str_eq(tag, "Normalized") {
        match obj_get(fields, "normalized_kind") {
            Some(Json::Str(k)) => Some(Transform::Normalized { path, kind: k.clone() }),
            _ => None,
        }
    } else if str_eq(tag, "RefInlined") {
        match obj_get(fields, "ref_source") {
            Some(Json::Str(rs)) => Some(Transform::RefInlined { path, ref_source: rs.clone() }),
            _ => None,
        }
    } else if str_eq(tag, "CompositionFlattened") {
        match obj_get(fields, "normalized_kind") {
            Some(Json::Str(k)) => Some(Transform::CompositionFlattened { path, kind: k.clone() }),
            _ => None,
        }
    } else if str_eq(tag, "ConstToEnum") {
        Some(Transform::ConstToEnum { path })
    } else if str_eq(tag, "EnumReordered") {
        match obj_get(fields, "original_order") {
            Some(Json::Arr(es)) => {
                let mut order: Vec<Json> = Vec::new();
                let mut i: usize = 0;
                while i < es.len()
                    invariant
                        i <= es@.len(),
                        order@.len() == i,
                        forall|q: int| 0 <= q < i ==> #[trigger] order@[q]@ == es@[q]@,
                    decreases es@.len() - i,
                {
                    let d = es[i].duplicate();
                    order.push(d);
                    i += 1;
                }
                proof {
                    lemma_elems_view(order@);
                    lemma_elems_view(es@);
                    assert(elems_view(order@) =~= elems_view(es@));
                }
                Some(Transform::EnumReordered { path, original_order: order })
            },
            _ => None,
        }
    } else if str_eq(tag, "RootObjectWrapper") {
        match obj_get(fields, "wrapper_key") {
            Some(Json::Str(w)) => Some(
                Transform::RootObjectWrapper { path, wrapper_key: w.clone() },
            ),
            _ => None,
        }
    } else {
        None
    }
}


/// The member names, kind tags and target names of serialized advisory
/// diagnostics are pairwise distinct.
pub proof fn lemma_advisory_literals()
    ensures
        ("kind")@ != ("path")@,
        ("kind")@ != ("actual_type")@,
        ("kind")@ != ("target")@,
        ("kind")@ != ("hint")@,
        ("kind")@ != ("actual_depth")@,
        ("kind")@ != ("max_depth")@,
        ("kind")@ != ("types_found")@,
        ("kind")@ != ("schema_kind")@,
        ("path")@ != ("actual_type")@,
        ("path")@ != ("target")@,
        ("path")@ != ("hint")@,
        ("path")@ != ("actual_depth")@,
        ("path")@ != ("max_depth")@,
        ("path")@ != ("types_found")@,
        ("path")@ != ("schema_kind")@,
        ("actual_type")@ != ("target")@,
        ("actual_type")@ != ("hint")@,
        ("actual_type")@ != ("actual_depth")@,
        ("actual_type")@ != ("max_depth")@,
        ("actual_type")@ != ("types_found")@,
        ("actual_type")@ != ("schema_kind")@,
        ("target")@ != ("hint")@,
        ("target")@ != ("actual_depth")@,
        ("target")@ != ("max_depth")@,
        ("target")@ != ("types_found")@,
        ("target")@ != ("schema_kind")@,
        ("hint")@ != ("actual_depth")@,
        ("hint")@ != ("max_depth")@,
        ("hint")@ != ("types_found")@,
        ("hint")@ != ("schema_kind")@,
        ("actual_depth")@ != ("max_depth")@,
        ("actual_depth")@ != ("types_found")@,
        ("actual_depth")@ != ("schema_kind")@,
        ("max_depth")@ != ("types_found")@,
        ("max_depth")@ != ("schema_kind")@,
        ("types_found")@ != ("schema_kind")@,
        ("RootTypeIncompatible")@ != ("DepthBudgetExceeded")@,
        ("RootTypeIncompatible")@ != ("MixedEnumTypes")@,
        ("RootTypeIncompatible")@ != ("UnconstrainedSchema")@,
        ("DepthBudgetExceeded")@ != ("MixedEnumTypes")@,
        ("DepthBudgetExceeded")@ != ("UnconstrainedSchema")@,
        ("MixedEnumTypes")@ != ("UnconstrainedSchema")@,
        ("openai_strict")@ != ("anthropic")@,
        ("openai_strict")@ != ("google")@,
        ("anthropic")@ != ("google")@,
{
    reveal_strlit("DepthBudgetExceeded");
    reveal_strlit("MixedEnumTypes");
    reveal_strlit("RootTypeIncompatible");
    reveal_strlit("UnconstrainedSchema");
    reveal_strlit("actual_depth");
    reveal_strlit("actual_type");
    reveal_strlit("anthropic");
    reveal_strlit("google");
    reveal_strlit("hint");
    reveal_strlit("kind");
    reveal_strlit("max_depth");
    reveal_strlit("openai_strict");
    reveal_strlit("path");
    reveal_strlit("schema_kind");
    reveal_strlit("target");
    reveal_strlit("types_found");
    assert(("kind")@ != ("path")@) by {
        assert(("kind")@[0] == 'k');
        assert(("path")@[0] == 'p');
    }
    assert(("kind")@ != ("actual_type")@) by {
        assert(("kind")@.len() == 4);
        assert(("actual_type")@.len() == 11);
    }
    assert(("kind")@ != ("target")@) by {
        assert(("kind")@.len() == 4);
        assert(("target")@.len() == 6);
    }
    assert(("kind")@ != ("hint")@) by {
        assert(("kind")@[0] == 'k');
        assert(("hint")@[0] == 'h');
    }
    assert(("kind")@ != ("actual_depth")@) by {
        assert(("kind")@.len() == 4);
        assert(("actual_depth")@.len() == 12);
    }
    assert(("kind")@ != ("max_depth")@) by {
        assert(("kind")@.len() == 4);
        assert(("max_depth")@.len() == 9);
    }
    assert(("kind")@ != ("types_found")@) by {
        assert(("kind")@.len() == 4);
        assert(("types_found")@.len() == 11);
    }
    assert(("kind")@ != ("schema_kind")@) by {
        assert(("kind")@.len() == 4);
        assert(("schema_kind")@.len() == 11);
    }
    assert(("path")@ != ("actual_type")@) by {
        assert(("path")@.len() == 4);
        assert(("actual_type")@.len() == 11);
    }
    assert(("path")@ != ("target")@) by {
        assert(("path")@.len() == 4);
        assert(("target")@.len() == 6);
    }
    assert(("path")@ != ("hint")@) by {
        assert(("path")@[0] == 'p');
        assert(("hint")@[0] == 'h');
    }
    assert(("path")@ != ("actual_depth")@) by {
        assert(("path")@.len() == 4);
        assert(("actual_depth")@.len() == 12);
    }
    assert(("path")@ != ("max_depth")@) by {
        assert(("path")@.len() == 4);
        assert(("max_depth")@.len() == 9);
    }
    assert(("path")@ != ("types_found")@) by {
        assert(("path")@.len() == 4);
        assert(("types_found")@.len() == 11);
    }
    assert(("path")@ != ("schema_kind")@) by {
        assert(("path")@.len() == 4);
        assert(("schema_kind")@.len() == 11);
    }
    assert(("actual_type")@ != ("target")@) by {
        assert(("actual_type")@.len() == 11);
        assert(("target")@.len() == 6);
    }
    assert(("actual_type")@ != ("hint")@) by {
        assert(("actual_type")@.len() == 11);
        assert(("hint")@.len() == 4);
    }
    assert(("actual_type")@ != ("actual_depth")@) by {
        assert(("actual_type")@.len() == 11);
        assert(("actual_depth")@.len() == 12);
    }
    assert(("actual_type")@ != ("max_depth")@) by {
        assert(("actual_type")@.len() == 11);
        assert(("max_depth")@.len() == 9);
    }
    assert(("actual_type")@ != ("types_found")@) by {
        assert(("actual_type")@[0] == 'a');
        assert(("types_found")@[0] == 't');
    }
    assert(("actual_type")@ != ("schema_kind")@) by {
        assert(("actual_type")@[0] == 'a');
        assert(("schema_kind")@[0] == 's');
    }
    assert(("target")@ != ("hint")@) by {
        assert(("target")@.len() == 6);
        assert(("hint")@.len() == 4);
    }
    assert(("target")@ != ("actual_depth")@) by {
        assert(("target")@.len() == 6);
        assert(("actual_depth")@.len() == 12);
    }
    assert(("target")@ != ("max_depth")@) by {
        assert(("target")@.len() == 6);
        assert(("max_depth")@.len() == 9);
    }
    assert(("target")@ != ("types_found")@) by {
        assert(("target")@.len() == 6);
        assert(("types_found")@.len() == 11);
    }
    assert(("target")@ != ("schema_kind")@) by {
        assert(("target")@.len() == 6);
        assert(("schema_kind")@.len() == 11);
    }
    assert(("hint")@ != ("actual_depth")@) by {
        assert(("hint")@.len() == 4);
        assert(("actual_depth")@.len() == 12);
    }
    assert(("hint")@ != ("max_depth")@) by {
        assert(("hint")@.len() == 4);
        assert(("max_depth")@.len() == 9);
    }
    assert(("hint")@ != ("types_found")@) by {
        assert(("hint")@.len() == 4);
        assert(("types_found")@.len() == 11);
    }
    assert(("hint")@ != ("schema_kind")@) by {
        assert(("hint")@.len() == 4);
        assert(("schema_kind")@.len() == 11);
    }
    assert(("actual_depth")@ != ("max_depth")@) by {
        assert(("actual_depth")@.len() == 12);
        assert(("max_depth")@.len() == 9);
    }
    assert(("actual_depth")@ != ("types_found")@) by {
        assert(("actual_depth")@.len() == 12);
        assert(("types_found")@.len() == 11);
    }
    assert(("actual_depth")@ != ("schema_kind")@) by {
        assert(("actual_depth")@.len() == 12);
        assert(("schema_kind")@.len() == 11);
    }
    assert(("max_depth")@ != ("types_found")@) by {
        assert(("max_depth")@.len() == 9);
        assert(("types_found")@.len() == 11);
    }
    assert(("max_depth")@ != ("schema_kind")@) by {
        assert(("max_depth")@.len() == 9);
        assert(("schema_kind")@.len() == 11);
    }
    assert(("types_found")@ != ("schema_kind")@) by {
        assert(("types_found")@[0] == 't');
        assert(("schema_kind")@[0] == 's');
    }
    assert(("RootTypeIncompatible")@ != ("DepthBudgetExceeded")@) by {
        assert(("RootTypeIncompatible")@.len() == 20);
        assert(("DepthBudgetExceeded")@.len() == 19);
    }
    assert(("RootTypeIncompatible")@ != ("MixedEnumTypes")@) by {
        assert(("RootTypeIncompatible")@.len() == 20);
        assert(("MixedEnumTypes")@.len() == 14);
    }
    assert(("RootTypeIncompatible")@ != ("UnconstrainedSchema")@) by {
        assert(("RootTypeIncompatible")@.len() == 20);
        assert(("UnconstrainedSchema")@.len() == 19);
    }
    assert(("DepthBudgetExceeded")@ != ("MixedEnumTypes")@) by {
        assert(("DepthBudgetExceeded")@.len() == 19);
        assert(("MixedEnumTypes")@.len() == 14);
    }
    assert(("DepthBudgetExceeded")@ != ("UnconstrainedSchema")@) by {
        assert(("DepthBudgetExceeded")@[0] == 'D');
        assert(("UnconstrainedSchema")@[0] == 'U');
    }
    assert(("MixedEnumTypes")@ != ("UnconstrainedSchema")@) by {
        assert(("MixedEnumTypes")@.len() == 14);
        assert(("UnconstrainedSchema")@.len() == 19);
    }
    assert(("openai_strict")@ != ("anthropic")@) by {
        assert(("openai_strict")@.len() == 13);
        assert(("anthropic")@.len() == 9);
    }
    assert(("openai_strict")@ != ("google")@) by {
        assert(("openai_strict")@.len() == 13);
        assert(("google")@.len() == 6);
    }
    assert(("anthropic")@ != ("google")@) by {
        assert(("anthropic")@.len() == 9);
        assert(("google")@.len() == 6);
    }
}

/// Model of an advisory diagnostic; the view of [`ProviderCompatError`].
pub ghost enum ProviderCompatErrorV {
    RootTypeIncompatible { actual_type: Seq<char>, target: Target, hint: Seq<char> },
    DepthBudgetExceeded { actual_depth: nat, max_depth: nat, target: Target, hint: Seq<char> },
    MixedEnumTypes {
        path: Seq<char>,
        types_found: Seq<Seq<char>>,
        target: Target,
        hint: Seq<char>,
    },
    UnconstrainedSchema {
        path: Seq<char>,
        schema_kind: Seq<char>,
        target: Target,
        hint: Seq<char>,
    },
}

impl View for ProviderCompatError {
    type V = ProviderCompatErrorV;

    open spec fn view(&self) -> ProviderCompatErrorV {
        match self {
            ProviderCompatError::RootTypeIncompatible { actual_type, target, hint } => {
                ProviderCompatErrorV::RootTypeIncompatible {
                    actual_type: actual_type@,
                    target: *target,
                    hint: hint@,
                }
            },
            ProviderCompatError::DepthBudgetExceeded {
                actual_depth,
                max_depth,
                target,
                hint,
            } => ProviderCompatErrorV::DepthBudgetExceeded {
                actual_depth: *actual_depth as nat,
                max_depth: *max_depth as nat,
                target: *target,
                hint: hint@,
            },
            ProviderCompatError::MixedEnumTypes { path, types_found, target, hint } => {
                ProviderCompatErrorV::MixedEnumTypes {
                    path: path@,
                    types_found: strs_view(types_found@),
                    target: *target,
                    hint: hint@,
                }
            },
            ProviderCompatError::UnconstrainedSchema { path, schema_kind, target, hint } => {
                ProviderCompatErrorV::UnconstrainedSchema {
                    path: path@,
                    schema_kind: schema_kind@,
                    target: *target,
                    hint: hint@,
                }
            },
        }
    }
}

/// The name of a target in serialized form.
pub open spec fn target_str(t: Target) -> Seq<char> {
    match t {
        Target::OpenaiStrict => "openai_strict"@,
        Target::Claude => "anthropic"@,
        Target::Gemini => "google"@,
    }
}

/// The target a serialized name denotes.
pub open spec fn target_parse(s: Seq<char>) -> Option<Target> {
    if s == "openai_strict"@ {
        Some(Target::OpenaiStrict)
    } else if s == "anthropic"@ {
        Some(Target::Claude)
    } else if s == "google"@ {
        Some(Target::Gemini)
    } else {
        None
    }
}

/// A list of strings as a JSON array of strings.
pub open spec fn strs_json(ss: Seq<Seq<char>>) -> Seq<JsonV> {
    Seq::new(
        ss.len(),
        |i: int|
            if 0 <= i < ss.len() {
                JsonV::Str(ss[i])
            } else {
                JsonV::Null
            },
    )
}

/// The strings a JSON array denotes, if every element is a string.
pub open spec fn strs_parse(es: Seq<JsonV>) -> Option<Seq<Seq<char>>>
    decreases es,
{
    if es.len() == 0 {
        Some(Seq::empty())
    } else {
        match (strs_parse(es.drop_last()), es.last()) {
            (Some(ss), JsonV::Str(s)) => Some(ss.push(s)),
            _ => None,
        }
    }
}

/// Law: a serialized list of strings parses back to the same list.
pub proof fn lemma_strs_round_trip(ss: Seq<Seq<char>>)
    ensures
        strs_parse(strs_json(ss)) == Some(ss),
    decreases ss,
{
    if ss.len() == 0 {
        assert(strs_json(ss) =~= Seq::empty());
    } else {
        lemma_strs_round_trip(ss.drop_last());
        assert(strs_json(ss).drop_last() =~= strs_json(ss.drop_last()));
        assert(strs_json(ss).last() == JsonV::Str(ss.last()));
        assert(ss.drop_last().push(ss.last()) =~= ss);
    }
}

/// An advisory diagnostic as a tagged JSON object.
pub open spec fn advisory_json_v(e: ProviderCompatError) -> JsonV {
    match e@ {
        ProviderCompatErrorV::RootTypeIncompatible { actual_type, target, hint } => JsonV::Obj(
            seq![
                ("kind"@, JsonV::Str("RootTypeIncompatible"@)),
                ("actual_type"@, JsonV::Str(actual_type)),
                ("target"@, JsonV::Str(target_str(target))),
                ("hint"@, JsonV::Str(hint)),
            ],
        ),
        ProviderCompatErrorV::DepthBudgetExceeded { actual_depth, max_depth, target, hint } => {
            JsonV::Obj(
                seq![
                    ("kind"@, JsonV::Str("DepthBudgetExceeded"@)),
                    ("actual_depth"@, JsonV::Num(dec_str(actual_depth))),
                    ("max_depth"@, JsonV::Num(dec_str(max_depth))),
                    ("target"@, JsonV::Str(target_str(target))),
                    ("hint"@, JsonV::Str(hint)),
                ],
            )
        },
        ProviderCompatErrorV::MixedEnumTypes { path, types_found, target, hint } => JsonV::Obj(
            seq![
                ("kind"@, JsonV::Str("MixedEnumTypes"@)),
                ("path"@, JsonV::Str(path)),
                ("types_found"@, JsonV::Arr(strs_json(types_found))),
                ("target"@, JsonV::Str(target_str(target))),
                ("hint"@, JsonV::Str(hint)),
            ],
        ),
        ProviderCompatErrorV::UnconstrainedSchema { path, schema_kind, target, hint } => JsonV::Obj(
            seq![
                ("kind"@, JsonV::Str("UnconstrainedSchema"@)),
                ("path"@, JsonV::Str(path)),
                ("schema_kind"@, JsonV::Str(schema_kind)),
                ("target"@, JsonV::Str(target_str(target))),
                ("hint"@, JsonV::Str(hint)),
            ],
        ),
    }
}

/// The parse of a serialized advisory diagnostic.
pub open spec fn advisory_parse_v(j: JsonV) -> Option<ProviderCompatErrorV> {
    match j {
        JsonV::Obj(fs) => match obj_get_v(fs, "kind"@) {
            Some(JsonV::Str(tag)) => {
                if tag == "RootTypeIncompatible"@ {
                    match (
                        obj_get_v(fs, "actual_type"@),
                        obj_get_v(fs, "target"@),
                        obj_get_v(fs, "hint"@),
                    ) {
                        (Some(JsonV::Str(a)), Some(JsonV::Str(ts)), Some(JsonV::Str(h))) => {
                            match target_parse(ts) {
                                Some(t) => Some(
                                    ProviderCompatErrorV::RootTypeIncompatible {
                                        actual_type: a,
                                        target: t,
                                        hint: h,
                                    },
                                ),
                                None => None,
                            }
                        },
                        _ => None,
                    }
                } else if tag == "DepthBudgetExceeded"@ {
                    match (
                        obj_get_v(fs, "actual_depth"@),
                        obj_get_v(fs, "max_depth"@),
                        obj_get_v(fs, "target"@),
                        obj_get_v(fs, "hint"@),
                    ) {
                        (
                            Some(JsonV::Num(an)),
                            Some(JsonV::Num(mn)),
                            Some(JsonV::Str(ts)),
                            Some(JsonV::Str(h)),
                        ) => {
                            match (parse_dec(an), parse_dec(mn), target_parse(ts)) {
                                (Some(a), Some(m), Some(t)) => Some(
                                    ProviderCompatErrorV::DepthBudgetExceeded {
                                        actual_depth: a,
                                        max_depth: m,
                                        target: t,
                                        hint: h,
                                    },
                                ),
                                _ => None,
                            }
                        },
                        _ => None,
                    }
                } else if tag == "MixedEnumTypes"@ {
                    match (
                        obj_get_v(fs, "path"@),
                        obj_get_v(fs, "types_found"@),
                        obj_get_v(fs, "target"@),
                        obj_get_v(fs, "hint"@),
                    ) {
                        (
                            Some(JsonV::Str(p)),
                            Some(JsonV::Arr(es)),
                            Some(JsonV::Str(ts)),
                            Some(JsonV::Str(h)),
                        ) => {
                            match (strs_parse(es), target_parse(ts)) {
                                (Some(tf), Some(t)) => Some(
                                    ProviderCompatErrorV::MixedEnumTypes {
                                        path: p,
                                        types_found: tf,
                                        target: t,
                                        hint: h,
                                    },
                                ),
                                _ => None,
                            }
                        },
                        _ => None,
                    }
                } else if tag == "UnconstrainedSchema"@ {
                    match (
                        obj_get_v(fs, "path"@),
                        obj_get_v(fs, "schema_kind"@),
                        obj_get_v(fs, "target"@),
                        obj_get_v(fs, "hint"@),
                    ) {
                        (
                            Some(JsonV::Str(p)),
                            Some(JsonV::Str(sk)),
                            Some(JsonV::Str(ts)),
                            Some(JsonV::Str(h)),
                        ) => {
                            match target_parse(ts) {
                                Some(t) => Some(
                                    ProviderCompatErrorV::UnconstrainedSchema {
                                        path: p,
                                        schema_kind: sk,
                                        target: t,
                                        hint: h,
                                    },
                                ),
                                None => None,
                            }
                        },
                        _ => None,
                    }
                } else {
                    None
                }
            },
            _ => None,
        },
        _ => None,
    }
}

/// Law: serializing an advisory diagnostic and parsing it back yields
/// the identical diagnostic.
pub proof fn lemma_advisory_round_trip(e: ProviderCompatError)
    ensures
        advisory_parse_v(advisory_json_v(e)) == Some(e@),
{
    lemma_codec_literals();
    lemma_advisory_literals();
    reveal_with_fuel(obj_get_v, 6);
    match e@ {
        ProviderCompatErrorV::DepthBudgetExceeded { actual_depth, max_depth, target, hint } => {
            lemma_dec_round_trip(actual_depth);
            lemma_dec_round_trip(max_depth);
        },
        ProviderCompatErrorV::MixedEnumTypes { path, types_found, target, hint } => {
            lemma_strs_round_trip(types_found);
        },
        _ => {},
    }
}

/// Serializes an advisory diagnostic.
pub fn advisory_to_json(e: &ProviderCompatError) -> (r: Json)
    ensures
        r@ == advisory_json_v(*e),
{
    let mut fields: Vec<(String, Json)> = Vec::new();
    match e {
        ProviderCompatError::RootTypeIncompatible { actual_type, target, hint } => {
            fields.push((
                String::from_str("kind"),
                Json::Str(String::from_str("RootTypeIncompatible")),
            ));
            fields.push((String::from_str("actual_type"), Json::Str(actual_type.clone())));
            fields.push((String::from_str("target"), Json::Str(target_to_string(*target))));
            fields.push((String::from_str("hint"), Json::Str(hint.clone())));
            let r = Json::Obj(fields);
            proof {
                lemma_fields_view(r->Obj_0@);
                assert(fields_view(r->Obj_0@) =~= seq![
                    ("kind"@, JsonV::Str("RootTypeIncompatible"@)),
                    ("actual_type"@, JsonV::Str(actual_type@)),
                    ("target"@, JsonV::Str(target_str(*target))),
                    ("hint"@, JsonV::Str(hint@)),
                ]);
            }
            r
        },
        ProviderCompatError::DepthBudgetExceeded { actual_depth, max_depth, target, hint } => {
            fields.push((
                String::from_str("kind"),
                Json::Str(String::from_str("DepthBudgetExceeded")),
            ));
            fields.push((String::from_str("actual_depth"), Json::Num(usize_to_string(*actual_depth))));
            fields.push((String::from_str("max_depth"), Json::Num(usize_to_string(*max_depth))));
            fields.push((String::from_str("target"), Json::Str(target_to_string(*target))));
            fields.push((String::from_str("hint"), Json::Str(hint.clone())));
            let r = Json::Obj(fields);
            proof {
                lemma_fields_view(r->Obj_0@);
                assert(fields_view(r->Obj_0@) =~= seq![
                    ("kind"@, JsonV::Str("DepthBudgetExceeded"@)),
                    ("actual_depth"@, JsonV::Num(dec_str(*actual_depth as nat))),
                    ("max_depth"@, JsonV::Num(dec_str(*max_depth as nat))),
                    ("target"@, JsonV::Str(target_str(*target))),
                    ("hint"@, JsonV::Str(hint@)),
                ]);
            }
            r
        },
        ProviderCompatError::MixedEnumTypes { path, types_found, target, hint } => {
            fields.push((
                String::from_str("kind"),
                Json::Str(String::from_str("MixedEnumTypes")),
            ));
            fields.push((String::from_str("path"), Json::Str(path.clone())));
            let mut tf: Vec<Json> = Vec::new();
            let mut i: usize = 0;
            proof {
                lemma_strs_view_index(types_found@);
            }
            while i < types_found.len()
                invariant
                    i <= types_found@.len(),
                    tf@.len() == i,
                    strs_view(types_found@).len() == types_found@.len(),
                    forall|q: int|
                        0 <= q < types_found@.len() ==> #[trigger] strs_view(types_found@)[q]
                            == types_found@[q]@,
                    forall|q: int|
                        0 <= q < i ==> #[trigger] tf@[q]@ == JsonV::Str(types_found@[q]@),
                decreases types_found@.len() - i,
            {
                let p = types_found[i].clone();
                tf.push(Json::Str(p));
                i += 1;
            }
            proof {
                lemma_elems_view(tf@);
                assert(elems_view(tf@) =~= strs_json(strs_view(types_found@)));
            }
            fields.push((String::from_str("types_found"), Json::Arr(tf)));
            fields.push((String::from_str("target"), Json::Str(target_to_string(*target))));
            fields.push((String::from_str("hint"), Json::Str(hint.clone())));
            let r = Json::Obj(fields);
            proof {
                lemma_fields_view(r->Obj_0@);
                assert(fields_view(r->Obj_0@) =~= seq![
                    ("kind"@, JsonV::Str("MixedEnumTypes"@)),
                    ("path"@, JsonV::Str(path@)),
                    ("types_found"@, JsonV::Arr(strs_json(strs_view(types_found@)))),
                    ("target"@, JsonV::Str(target_str(*target))),
                    ("hint"@, JsonV::Str(hint@)),
                ]);
            }
            r
        },
        ProviderCompatError::UnconstrainedSchema { path, schema_kind, target, hint } => {
            fields.push((
                String::from_str("kind"),
                Json::Str(String::from_str("UnconstrainedSchema")),
            ));
            fields.push((String::from_str("path"), Json::Str(path.clone())));
            fields.push((String::from_str("schema_kind"), Json::Str(schema_kind.clone())));
            fields.push((String::from_str("target"), Json::Str(target_to_string(*target))));
            fields.push((String::from_str("hint"), Json::Str(hint.clone())));
            let r = Json::Obj(fields);
            proof {
                lemma_fields_view(r->Obj_0@);
                assert(fields_view(r->Obj_0@) =~= seq![
                    ("kind"@, JsonV::Str("UnconstrainedSchema"@)),
                    ("path"@, JsonV::Str(path@)),
                    ("schema_kind"@, JsonV::Str(schema_kind@)),
                    ("target"@, JsonV::Str(target_str(*target))),
                    ("hint"@, JsonV::Str(hint@)),
                ]);
            }
            r
        },
    }
}

/// The serialized name of a target.
pub fn target_to_string(t: Target) -> (r: String)
    ensures
        r@ == target_str(t),
{
    match t {
        Target::OpenaiStrict => String::from_str("openai_strict"),
        Target::Claude => String::from_str("anthropic"),
        Target::Gemini => String::from_str("google"),
    }
}

} // verus!
