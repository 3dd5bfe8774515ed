//! An owned model of JSON values.
//!
//! Schemas are JSON documents, so every pass works on [`Json`].  Objects keep
//! their members in insertion order as a vector of key/value pairs; numbers
//! carry their decimal literal unchanged, so no precision is ever lost.

use vstd::prelude::*;

verus! {

/// Mathematical model of a JSON value; the view of [`Json`].
#[verifier::ext_equal]
pub ghost enum JsonV {
    Null,
    Bool(bool),
    Num(Seq<char>),
    Str(Seq<char>),
    Arr(Seq<JsonV>),
    Obj(Seq<(Seq<char>, JsonV)>),
}

/// An owned JSON value.  Object members keep insertion order; a number is
/// kept as its decimal literal so that its exact value survives every pass.
#[derive(Debug, PartialEq, Eq)]
pub enum Json {
    Null,
    Bool(bool),
    Num(String),
    Str(String),
    Arr(Vec<Json>),
    Obj(Vec<(String, Json)>),
}

/// Model of a member list: each key as a sequence of characters, each value
/// as its model.
pub open spec fn fields_view(fields: Seq<(String, Json)>) -> Seq<(Seq<char>, JsonV)>
    decreases fields,
{
    if fields.len() == 0 {
        Seq::empty()
    } else {
        fields_view(fields.drop_last()).push((fields.last().0@, fields.last().1@))
    }
}

/// Model of an element list.
pub open spec fn elems_view(elems: Seq<Json>) -> Seq<JsonV>
    decreases elems,
{
    if elems.len() == 0 {
        Seq::empty()
    } else {
        elems_view(elems.drop_last()).push(elems.last()@)
    }
}

impl View for Json {
    type V = JsonV;

    open spec fn view(&self) -> JsonV
        decreases self,
    {
        match self {
            Json::Null => JsonV::Null,
            Json::Bool(b) => JsonV::Bool(*b),
            Json::Num(s) => JsonV::Num(s@),
            Json::Str(s) => JsonV::Str(s@),
            Json::Arr(elems) => JsonV::Arr(elems_view(elems@)),
            Json::Obj(fields) => JsonV::Obj(fields_view(fields@)),
        }
    }
}

/// Structural height of a JSON value, used as a termination measure.
pub open spec fn height_v(j: JsonV) -> nat
    decreases j,
{
    match j {
        JsonV::Obj(fs) => 1 + fields_height(fs),
        JsonV::Arr(es) => 1 + elems_height(es),
        _ => 0,
    }
}

/// Largest height among the values of a member list.
pub open spec fn fields_height(fs: Seq<(Seq<char>, JsonV)>) -> nat
    decreases fs,
{
    if fs.len() == 0 {
        0
    } else if fields_height(fs.drop_last()) >= height_v(fs.last().1) {
        fields_height(fs.drop_last())
    } else {
        height_v(fs.last().1)
    }
}

/// Largest height among the elements of a list.
pub open spec fn elems_height(es: Seq<JsonV>) -> nat
    decreases es,
{
    if es.len() == 0 {
        0
    } else if elems_height(es.drop_last()) >= height_v(es.last()) {
        elems_height(es.drop_last())
    } else {
        height_v(es.last())
    }
}

/// Every member value is at most as high as the member list.
pub proof fn lemma_fields_height(fs: Seq<(Seq<char>, JsonV)>)
    ensures
        forall|i: int| 0 <= i < fs.len() ==> height_v(#[trigger] fs[i].1) <= fields_height(fs),
    decreases fs,
{
    if fs.len() > 0 {
        lemma_fields_height(fs.drop_last());
        assert forall|i: int| 0 <= i < fs.len() implies height_v(#[trigger] fs[i].1)
            <= fields_height(fs) by {
            if i < fs.len() - 1 {
                assert(fs.drop_last()[i] == fs[i]);
                assert(height_v(fs.drop_last()[i].1) <= fields_height(fs.drop_last()));
            } else {
                assert(fs[i] == fs.last());
            }
        }
    }
}

/// Every element is at most as high as the list.
pub proof fn lemma_elems_height(es: Seq<JsonV>)
    ensures
        forall|i: int| 0 <= i < es.len() ==> height_v(#[trigger] es[i]) <= elems_height(es),
    decreases es,
{
    if es.len() > 0 {
        lemma_elems_height(es.drop_last());
        assert forall|i: int| 0 <= i < es.len() implies height_v(#[trigger] es[i]) <= elems_height(
            es,
        ) by {
            if i < es.len() - 1 {
                assert(es.drop_last()[i] == es[i]);
                assert(height_v(es.drop_last()[i]) <= elems_height(es.drop_last()));
            } else {
                assert(es[i] == es.last());
            }
        }
    }
}

/// First value bound to a key in a member list, if any.
pub open spec fn obj_get_v(fields: Seq<(Seq<char>, JsonV)>, key: Seq<char>) -> Option<JsonV>
    decreases fields,
{
    if fields.len() == 0 {
        None
    } else if fields.first().0 == key {
        Some(fields.first().1)
    } else {
        obj_get_v(fields.drop_first(), key)
    }
}

/// Whether a member list binds a key.
pub open spec fn has_key_v(fields: Seq<(Seq<char>, JsonV)>, key: Seq<char>) -> bool {
    obj_get_v(fields, key) is Some
}

/// A schema node is a JSON object (a keyword map) or a boolean.
pub open spec fn is_schema_node(j: JsonV) -> bool {
    j is Obj || j is Bool
}

/// Character-wise string equality, proved against the string views.
pub fn str_eq(a: &str, b: &str) -> (r: bool)
    ensures
        r == (a@ == b@),
{
    let alen = a.unicode_len();
    let blen = b.unicode_len();
    if alen != blen {
        assert(a@ != b@) by {
            assert(a@.len() != b@.len());
        }
        return false;
    }
    let mut i: usize = 0;
    while i < alen
        invariant
            i <= alen,
            alen == a@.len() && alen == b@.len(),
            forall|k: int| 0 <= k < i ==> a@[k] == b@[k],
        decreases alen - i,
    {
        if a.get_char(i) != b.get_char(i) {
            return false;
        }
        i += 1;
    }
    proof {
        assert(a@ =~= b@);
    }
    true
}

impl Json {
    /// A structurally identical copy.
    pub fn duplicate(&self) -> (r: Json)
        ensures
            r@ == self@,
        decreases height_v(self@),
    {
        match self {
            Json::Null => Json::Null,
            Json::Bool(b) => Json::Bool(*b),
            Json::Num(s) => Json::Num(s.clone()),
            Json::Str(s) => Json::Str(s.clone()),
            Json::Arr(elems) => {
                let mut out: Vec<Json> = Vec::new();
                let mut i: usize = 0;
                while i < elems.len()
                    invariant
                        self is Arr && *elems == self->Arr_0,
                        i <= elems.len(),
                        out@.len() == i,
                        forall|k: int| 0 <= k < i ==> #[trigger] out@[k]@ == elems@[k]@,
                    decreases elems.len() - i,
                {
                    proof {
                        lemma_elems_view(elems@);
                        lemma_elems_height(elems_view(elems@));
                        assert(self@ == JsonV::Arr(elems_view(elems@)));
                        assert(elems_view(elems@)[i as int] == elems@[i as int]@);
                        assert(height_v(elems@[i as int]@) <= elems_height(elems_view(elems@)));
                    }
                    let d = elems[i].duplicate();
                    out.push(d);
                    i += 1;
                }
                proof {
                    lemma_elems_view(out@);
                    lemma_elems_view(elems@);
                    assert(elems_view(out@) =~= elems_view(elems@));
                }
                Json::Arr(out)
            },
            Json::Obj(fields) => {
                let mut out: Vec<(String, Json)> = Vec::new();
                let mut i: usize = 0;
                while i < fields.len()
                    invariant
                        self is Obj && *fields == self->Obj_0,
                        i <= fields.len(),
                        out@.len() == i,
                        forall|k: int|
                            0 <= k < i ==> #[trigger] out@[k].0@ == fields@[k].0@ && out@[k].1@
                                == fields@[k].1@,
                    decreases fields.len() - i,
                {
                    proof {
                        lemma_fields_view(fields@);
                        lemma_fields_height(fields_view(fields@));
                        assert(self@ == JsonV::Obj(fields_view(fields@)));
                        assert(fields_view(fields@)[i as int].1 == fields@[i as int].1@);
                        assert(height_v(fields@[i as int].1@) <= fields_height(fields_view(fields@)));
                    }
                    let key = fields[i].0.clone();
                    let d = fields[i].1.duplicate();
                    out.push((key, d));
                    i += 1;
                }
                proof {
                    lemma_fields_view(out@);
                    lemma_fields_view(fields@);
                    assert(fields_view(out@) =~= fields_view(fields@));
                }
                Json::Obj(out)
            },
        }
    }
}

/// First value bound to a key, matching [`obj_get_v`] on the views.
pub fn obj_get<'a>(fields: &'a Vec<(String, Json)>, key: &str) -> (r: Option<&'a Json>)
    ensures
        match r {
            Some(v) => obj_get_v(fields_view(fields@), key@) == Some(v@),
            None => obj_get_v(fields_view(fields@), key@) is None,
        },
{
    proof {
        lemma_fields_view(fields@);
        assert(fields_view(fields@).skip(0) =~= fields_view(fields@));
    }
    let mut i: usize = 0;
    while i < fields.len()
        invariant
            i <= fields@.len(),
            fields_view(fields@).len() == fields@.len(),
            forall|k: int|
                0 <= k < fields@.len() ==> #[trigger] fields_view(fields@)[k] == (
                fields@[k].0@,
                fields@[k].1@,
                ),
            forall|k: int| 0 <= k < i ==> #[trigger] fields@[k].0@ != key@,
            obj_get_v(fields_view(fields@), key@) == obj_get_v(
                fields_view(fields@).skip(i as int),
                key@,
            ),
        decreases fields@.len() - i,
    {
        if str_eq(fields[i].0.as_str(), key) {
            proof {
                assert(fields_view(fields@).skip(i as int).first() == (
                    fields@[i as int].0@,
                    fields@[i as int].1@,
                ));
            }
            return Some(&fields[i].1);
        }
        proof {
            assert(fields_view(fields@).skip(i as int).drop_first() =~= fields_view(
                fields@,
            ).skip(i + 1));
        }
        i += 1;
    }
    proof {
        assert(fields_view(fields@).skip(i as int).len() == 0);
    }
    None
}

/// The view of a member list has the same length and views each pair.
pub proof fn lemma_fields_view(fields: Seq<(String, Json)>)
    ensures
        fields_view(fields).len() == fields.len(),
        forall|i: int|
            0 <= i < fields.len() ==> #[trigger] fields_view(fields)[i] == (
            fields[i].0@,
            fields[i].1@,
            ),
    decreases fields,
{
    if fields.len() > 0 {
        lemma_fields_view(fields.drop_last());
        assert forall|i: int|
            0 <= i < fields.len() implies #[trigger] fields_view(fields)[i] == (
        fields[i].0@,
        fields[i].1@,
        ) by {
            assert(fields_view(fields) == fields_view(fields.drop_last()).push((
                fields.last().0@,
                fields.last().1@,
            )));
            if i < fields.len() - 1 {
                assert(fields.drop_last()[i] == fields[i]);
                assert(fields_view(fields)[i] == fields_view(fields.drop_last())[i]);
            } else {
                assert(fields[i] == fields.last());
            }
        }
    }
}

/// The view of an element list has the same length and views each element.
pub proof fn lemma_elems_view(elems: Seq<Json>)
    ensures
        elems_view(elems).len() == elems.len(),
        forall|i: int| 0 <= i < elems.len() ==> #[trigger] elems_view(elems)[i] == elems[i]@,
    decreases elems,
{
    if elems.len() > 0 {
        lemma_elems_view(elems.drop_last());
        assert(elems_view(elems) == elems_view(elems.drop_last()).push(elems.last()@));
        assert(elems_view(elems).len() == elems.len());
        assert forall|i: int|
            0 <= i < elems.len() implies #[trigger] elems_view(elems)[i] == elems[i]@ by {
            assert(elems_view(elems) == elems_view(elems.drop_last()).push(elems.last()@));
            if i < elems.len() - 1 {
                assert(elems.drop_last()[i] == elems[i]);
                assert(elems_view(elems)[i] == elems_view(elems.drop_last())[i]);
            } else {
                assert(elems[i] == elems.last());
            }
        }
    }
}


/// Structural equality of JSON values, decided against the views.
pub fn json_eq(a: &Json, b: &Json) -> (r: bool)
    ensures
        r == (a@ == b@),
    decreases height_v(a@),
{
    match (a, b) {
        (Json::Null, Json::Null) => true,
        (Json::Bool(x), Json::Bool(y)) => x == y,
        (Json::Num(x), Json::Num(y)) => str_eq(x.as_str(), y.as_str()),
        (Json::Str(x), Json::Str(y)) => str_eq(x.as_str(), y.as_str()),
        (Json::Arr(xs), Json::Arr(ys)) => {
            proof {
                lemma_elems_view(xs@);
                lemma_elems_view(ys@);
            }
            if xs.len() != ys.len() {
                proof {
                    assert(elems_view(xs@).len() != elems_view(ys@).len());
                }
                return false;
            }
            let mut i: usize = 0;
            while i < xs.len()
                invariant
                    a is Arr && *xs == a->Arr_0,
                    b is Arr && *ys == b->Arr_0,
                    i <= xs@.len(),
                    xs@.len() == ys@.len(),
                    elems_view(xs@).len() == xs@.len(),
                    elems_view(ys@).len() == ys@.len(),
                    forall|q: int| 0 <= q < xs@.len() ==> #[trigger] elems_view(xs@)[q] == xs@[q]@,
                    forall|q: int| 0 <= q < ys@.len() ==> #[trigger] elems_view(ys@)[q] == ys@[q]@,
                    forall|q: int| 0 <= q < i ==> #[trigger] xs@[q]@ == ys@[q]@,
                decreases xs@.len() - i,
            {
                proof {
                    lemma_elems_height(elems_view(xs@));
                    assert(a@ == JsonV::Arr(elems_view(xs@)));
                    assert(elems_view(xs@)[i as int] == xs@[i as int]@);
                    assert(height_v(xs@[i as int]@) <= elems_height(elems_view(xs@)));
                }
                if !json_eq(&xs[i], &ys[i]) {
                    proof {
                        assert(elems_view(xs@)[i as int] != elems_view(ys@)[i as int]);
                    }
                    return false;
                }
                i += 1;
            }
            proof {
                assert(elems_view(xs@) =~= elems_view(ys@));
            }
            true
        },
        (Json::Obj(xs), Json::Obj(ys)) => {
            proof {
                lemma_fields_view(xs@);
                lemma_fields_view(ys@);
            }
            if xs.len() != ys.len() {
                proof {
                    assert(fields_view(xs@).len() != fields_view(ys@).len());
                }
                return false;
            }
            let mut i: usize = 0;
            while i < xs.len()
                invariant
                    a is Obj && *xs == a->Obj_0,
                    b is Obj && *ys == b->Obj_0,
                    i <= xs@.len(),
                    xs@.len() == ys@.len(),
                    fields_view(xs@).len() == xs@.len(),
                    fields_view(ys@).len() == ys@.len(),
                    forall|q: int|
                        0 <= q < xs@.len() ==> #[trigger] fields_view(xs@)[q] == (
                        xs@[q].0@,
                        xs@[q].1@,
                        ),
                    forall|q: int|
                        0 <= q < ys@.len() ==> #[trigger] fields_view(ys@)[q] == (
                        ys@[q].0@,
                        ys@[q].1@,
                        ),
                    forall|q: int| #![trigger xs@[q]]
                        0 <= q < i ==> xs@[q].0@ == ys@[q].0@ && xs@[q].1@ == ys@[q].1@,
                decreases xs@.len() - i,
            {
                proof {
                    lemma_fields_height(fields_view(xs@));
                    assert(a@ == JsonV::Obj(fields_view(xs@)));
                    assert(fields_view(xs@)[i as int] == (xs@[i as int].0@, xs@[i as int].1@));
                    assert(fields_view(xs@)[i as int].1 == xs@[i as int].1@);
                    assert(height_v(fields_view(xs@)[i as int].1) <= fields_height(
                        fields_view(xs@),
                    ));
                    assert(height_v(xs@[i as int].1@) <= fields_height(fields_view(xs@)));
                }
                if !str_eq(xs[i].0.as_str(), ys[i].0.as_str()) {
                    proof {
                        assert(fields_view(xs@)[i as int].0 != fields_view(ys@)[i as int].0);
                    }
                    return false;
                }
                if !json_eq(&xs[i].1, &ys[i].1) {
                    proof {
                        assert(fields_view(xs@)[i as int].1 != fields_view(ys@)[i as int].1);
                    }
                    return false;
                }
                proof {
                    assert(xs@[i as int].0@ == ys@[i as int].0@);
                    assert(xs@[i as int].1@ == ys@[i as int].1@);
                }
                i += 1;
            }
            proof {
                assert(fields_view(xs@) =~= fields_view(ys@));
            }
            true
        },
        _ => {
            proof {
                assert(a@ != b@);
            }
            false
        },
    }
}


/// How one appended member changes a first-match lookup.
#[verifier::spinoff_prover]
pub proof fn lemma_obj_get_push(fs: Seq<(Seq<char>, JsonV)>, e: (Seq<char>, JsonV), k: Seq<char>)
    ensures
        obj_get_v(fs.push(e), k) == (if obj_get_v(fs, k) is Some {
            obj_get_v(fs, k)
        } else if e.0 == k {
            Some(e.1)
        } else {
            None
        }),
    decreases fs,
{
    reveal_with_fuel(obj_get_v, 2);
    if fs.len() == 0 {
        assert(fs.push(e).first() == e);
        assert(fs.push(e).drop_first() =~= Seq::empty());
        assert(obj_get_v(fs, k) is None);
    } else {
        let rest = fs.drop_first();
        assert(fs.push(e).len() == fs.len() + 1);
        assert(fs.push(e).first() == fs.first());
        assert(fs.push(e).drop_first() =~= rest.push(e));
        lemma_obj_get_push(rest, e, k);
        assert(obj_get_v(fs.push(e), k) == (if fs.first().0 == k {
            Some(fs.first().1)
        } else {
            obj_get_v(rest.push(e), k)
        }));
        assert(obj_get_v(fs, k) == (if fs.first().0 == k {
            Some(fs.first().1)
        } else {
            obj_get_v(rest, k)
        }));
    }
}

/// Keywords whose value is a map of schemas.
pub open spec fn is_map_kw(k: Seq<char>) -> bool {
    ||| k == "properties"@
    ||| k == "patternProperties"@
    ||| k == "$defs"@
    ||| k == "definitions"@
    ||| k == "dependentSchemas"@
}

/// Keywords whose value is a list of schemas.
pub open spec fn is_list_kw(k: Seq<char>) -> bool {
    ||| k == "prefixItems"@
    ||| k == "anyOf"@
    ||| k == "oneOf"@
    ||| k == "allOf"@
}

/// Keywords whose value is a single schema.
pub open spec fn is_single_kw(k: Seq<char>) -> bool {
    ||| k == "additionalProperties"@
    ||| k == "contains"@
    ||| k == "not"@
    ||| k == "if"@
    ||| k == "then"@
    ||| k == "else"@
    ||| k == "propertyNames"@
}


/// Model of a list of strings.
pub open spec fn strs_view(ss: Seq<String>) -> Seq<Seq<char>>
    decreases ss,
{
    if ss.len() == 0 {
        Seq::empty()
    } else {
        strs_view(ss.drop_last()).push(ss.last()@)
    }
}

/// The view of a string list views each string.
pub proof fn lemma_strs_view_index(ss: Seq<String>)
    ensures
        strs_view(ss).len() == ss.len(),
        forall|q: int| 0 <= q < ss.len() ==> #[trigger] strs_view(ss)[q] == ss[q]@,
    decreases ss,
{
    if ss.len() > 0 {
        lemma_strs_view_index(ss.drop_last());
        assert forall|q: int| 0 <= q < ss.len() implies #[trigger] strs_view(ss)[q] == ss[q]@ by {
            if q < ss.len() - 1 {
                assert(strs_view(ss.drop_last())[q] == ss.drop_last()[q]@);
                assert(ss.drop_last()[q] == ss[q]);
            } else {
                assert(ss[q] == ss.last());
            }
        }
    }
}


} // verus!
