use jsonschema_llm::codec::{
    advisory_to_json, dropped_from_json, dropped_to_json, transform_from_json, transform_to_json,
    DroppedConstraint, ProviderCompatError, Transform,
};
use jsonschema_llm::constraints::prune_constraints;
use jsonschema_llm::json::Json;
use jsonschema_llm::options::{ConvertOptions, Mode, Target};
use jsonschema_llm::provider_compat::check_provider_compat;

fn s(x: &str) -> String {
    x.to_string()
}

fn num(x: &str) -> Json {
    Json::Num(s(x))
}

fn st(x: &str) -> Json {
    Json::Str(s(x))
}

fn obj(fields: Vec<(&str, Json)>) -> Json {
    Json::Obj(fields.into_iter().map(|(k, v)| (s(k), v)).collect())
}

fn get<'a>(j: &'a Json, key: &str) -> Option<&'a Json> {
    match j {
        Json::Obj(fields) => fields.iter().find(|(k, _)| k == key).map(|(_, v)| v),
        _ => None,
    }
}

/// Follows a `#`-rooted pointer path through object members.
fn resolve<'a>(j: &'a Json, path: &str) -> Option<&'a Json> {
    let mut cur = j;
    for seg in path.split('/').skip(1) {
        let seg = seg.replace("~1", "/").replace("~0", "~");
        cur = get(cur, &seg)?;
    }
    Some(cur)
}

fn nested_input() -> Json {
    obj(vec![
        ("type", st("object")),
        ("minProperties", num("1")),
        (
            "properties",
            obj(vec![
                (
                    "name",
                    obj(vec![
                        ("type", st("string")),
                        ("minLength", num("1")),
                        ("pattern", st("^[a-z]+$")),
                    ]),
                ),
                (
                    "count",
                    obj(vec![
                        ("type", st("integer")),
                        ("minimum", num("0")),
                        ("default", num("2")),
                    ]),
                ),
            ]),
        ),
        ("not", obj(vec![("type", st("null"))])),
    ])
}

#[test]
fn dropped_keyword_absent_at_recorded_path() {
    let config = ConvertOptions { target: Target::Claude, ..ConvertOptions::default() };
    let result = prune_constraints(&nested_input(), &config).unwrap();
    assert!(!result.dropped_constraints.is_empty());
    for d in &result.dropped_constraints {
        let node = resolve(&result.schema, &d.path);
        match node {
            Some(n) => assert!(
                get(n, &d.constraint).is_none(),
                "keyword {} still present at {}",
                d.constraint,
                d.path
            ),
            // the node itself was removed together with its parent keyword
            None => {}
        }
    }
}

#[test]
fn pruning_twice_changes_nothing() {
    for target in [Target::OpenaiStrict, Target::Claude, Target::Gemini] {
        let config = ConvertOptions { target, ..ConvertOptions::default() };
        let once = prune_constraints(&nested_input(), &config).unwrap();
        let twice = prune_constraints(&once.schema, &config).unwrap();
        assert_eq!(twice.schema, once.schema);
        assert_eq!(twice.dropped_constraints.len(), 0);
        assert_eq!(twice.transforms.len(), 0);
    }
}

#[test]
fn audit_twice_adds_nothing() {
    let config = ConvertOptions {
        target: Target::OpenaiStrict,
        mode: Mode::Strict,
        ..ConvertOptions::default()
    };
    let once = check_provider_compat(&obj(vec![("type", st("array"))]), &config);
    let twice = check_provider_compat(&once.schema, &config);
    assert_eq!(twice.schema, once.schema);
    assert!(twice.transforms.is_empty());
}

#[test]
fn output_stays_a_schema_node() {
    let config = ConvertOptions { target: Target::OpenaiStrict, ..ConvertOptions::default() };
    let pruned = prune_constraints(&Json::Bool(false), &config).unwrap();
    assert!(matches!(pruned.schema, Json::Bool(false)));

    let strict = ConvertOptions {
        target: Target::OpenaiStrict,
        mode: Mode::Strict,
        ..ConvertOptions::default()
    };
    let audited = check_provider_compat(&Json::Bool(true), &strict);
    assert!(matches!(audited.schema, Json::Obj(_)));
    assert_eq!(get(&audited.schema, "type"), Some(&st("object")));
}

#[test]
fn dropped_record_round_trips_through_json() {
    let record = DroppedConstraint {
        path: s("#/properties/count"),
        constraint: s("minimum"),
        value: num("0"),
        reason: s("unsupported by target"),
    };
    let encoded = dropped_to_json(&record);
    assert_eq!(get(&encoded, "kind"), Some(&st("DroppedConstraint")));
    let decoded = dropped_from_json(&encoded).unwrap();
    assert_eq!(decoded.path, record.path);
    assert_eq!(decoded.constraint, record.constraint);
    assert_eq!(decoded.value, record.value);
    assert_eq!(decoded.reason, record.reason);
}

#[test]
fn transforms_serialize_to_tagged_objects() {
    let t1 = Transform::ConstToEnum { path: s("#") };
    let e1 = transform_to_json(&t1);
    assert_eq!(get(&e1, "kind"), Some(&st("ConstToEnum")));
    assert_eq!(get(&e1, "path"), Some(&st("#")));

    let t2 = Transform::EnumReordered {
        path: s("#/properties/c"),
        original_order: vec![st("a"), st("b")],
    };
    let e2 = transform_to_json(&t2);
    assert_eq!(get(&e2, "kind"), Some(&st("EnumReordered")));
    assert_eq!(get(&e2, "original_order"), Some(&Json::Arr(vec![st("a"), st("b")])));

    let t3 = Transform::RootObjectWrapper { path: s("#"), wrapper_key: s("result") };
    let e3 = transform_to_json(&t3);
    assert_eq!(get(&e3, "kind"), Some(&st("RootObjectWrapper")));
    assert_eq!(get(&e3, "wrapper_key"), Some(&st("result")));
}

#[test]
fn transforms_round_trip_through_json() {
    let cases = vec![
        Transform::Normalized { path: s("#"), kind: s("boolean_schema") },
        Transform::RefInlined { path: s("#/a"), ref_source: s("#/$defs/a") },
        Transform::CompositionFlattened { path: s("#"), kind: s("allOf") },
        Transform::ConstToEnum { path: s("#/properties/x") },
        Transform::EnumReordered { path: s("#"), original_order: vec![st("a"), num("1")] },
        Transform::RootObjectWrapper { path: s("#"), wrapper_key: s("result") },
    ];
    for t in &cases {
        let decoded = transform_from_json(&transform_to_json(t)).unwrap();
        match (t, &decoded) {
            (
                Transform::Normalized { path: a, kind: b },
                Transform::Normalized { path: c, kind: d },
            ) => {
                assert_eq!(a, c);
                assert_eq!(b, d);
            }
            (
                Transform::RefInlined { path: a, ref_source: b },
                Transform::RefInlined { path: c, ref_source: d },
            ) => {
                assert_eq!(a, c);
                assert_eq!(b, d);
            }
            (
                Transform::CompositionFlattened { path: a, kind: b },
                Transform::CompositionFlattened { path: c, kind: d },
            ) => {
                assert_eq!(a, c);
                assert_eq!(b, d);
            }
            (Transform::ConstToEnum { path: a }, Transform::ConstToEnum { path: c }) => {
                assert_eq!(a, c);
            }
            (
                Transform::EnumReordered { path: a, original_order: b },
                Transform::EnumReordered { path: c, original_order: d },
            ) => {
                assert_eq!(a, c);
                assert_eq!(b, d);
            }
            (
                Transform::RootObjectWrapper { path: a, wrapper_key: b },
                Transform::RootObjectWrapper { path: c, wrapper_key: d },
            ) => {
                assert_eq!(a, c);
                assert_eq!(b, d);
            }
            _ => panic!("decoded into a different transform kind"),
        }
    }
}

#[test]
fn decode_rejects_untagged_objects() {
    assert!(dropped_from_json(&obj(vec![("path", st("#"))])).is_none());
    assert!(dropped_from_json(&st("DroppedConstraint")).is_none());
}

#[test]
fn advisories_serialize_to_tagged_objects() {
    let e = ProviderCompatError::DepthBudgetExceeded {
        actual_depth: 7,
        max_depth: 5,
        target: Target::OpenaiStrict,
        hint: s("too deep"),
    };
    let j = advisory_to_json(&e);
    assert_eq!(get(&j, "kind"), Some(&st("DepthBudgetExceeded")));
    assert_eq!(get(&j, "actual_depth"), Some(&num("7")));
    assert_eq!(get(&j, "max_depth"), Some(&num("5")));
    assert_eq!(get(&j, "target"), Some(&st("openai_strict")));

    let m = ProviderCompatError::MixedEnumTypes {
        path: s("#/properties/c"),
        types_found: vec![s("number"), s("string")],
        target: Target::OpenaiStrict,
        hint: s("mixed"),
    };
    let jm = advisory_to_json(&m);
    assert_eq!(get(&jm, "kind"), Some(&st("MixedEnumTypes")));
    assert_eq!(get(&jm, "types_found"), Some(&Json::Arr(vec![st("number"), st("string")])));
}
