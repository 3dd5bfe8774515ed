use jsonschema_llm::codec::{ProviderCompatError, Transform};
use jsonschema_llm::json::Json;
use jsonschema_llm::options::{ConvertOptions, Mode, Target};
use jsonschema_llm::provider_compat::{check_provider_compat, ProviderCompatResult};

fn s(x: &str) -> String {
    x.to_string()
}

fn num(x: &str) -> Json {
    Json::Num(s(x))
}

fn st(x: &str) -> Json {
    Json::Str(s(x))
}

fn obj(fields: Vec<(&str, Json)>) -> Json {
    Json::Obj(fields.into_iter().map(|(k, v)| (s(k), v)).collect())
}

fn get<'a>(j: &'a Json, key: &str) -> Option<&'a Json> {
    match j {
        Json::Obj(fields) => fields.iter().find(|(k, _)| k == key).map(|(_, v)| v),
        _ => None,
    }
}

fn opts() -> ConvertOptions {
    ConvertOptions { target: Target::OpenaiStrict, mode: Mode::Strict, ..ConvertOptions::default() }
}

#[test]
fn object_root_unchanged() {
    let schema = obj(vec![
        ("type", st("object")),
        ("properties", obj(vec![("x", obj(vec![("type", st("string"))]))])),
    ]);
    let r = check_provider_compat(&schema, &opts());
    assert!(r.transforms.is_empty());
    assert!(r.errors.iter().all(|e| !matches!(e, ProviderCompatError::RootTypeIncompatible { .. })));
}

#[test]
fn array_root_wrapped() {
    let schema = obj(vec![("type", st("array")), ("items", obj(vec![("type", st("string"))]))]);
    let r = check_provider_compat(&schema, &opts());
    assert_eq!(r.transforms.len(), 1);
    assert_eq!(get(&r.schema, "type"), Some(&st("object")));
    let result_prop = get(get(&r.schema, "properties").unwrap(), "result").unwrap();
    assert_eq!(get(result_prop, "type"), Some(&st("array")));
}

#[test]
fn string_root_wrapped() {
    let schema = obj(vec![("type", st("string"))]);
    let r = check_provider_compat(&schema, &opts());
    assert_eq!(r.transforms.len(), 1);
    let result_prop = get(get(&r.schema, "properties").unwrap(), "result").unwrap();
    assert_eq!(get(result_prop, "type"), Some(&st("string")));
}

#[test]
fn missing_type_wrapped() {
    let schema = obj(vec![("description", st("no type"))]);
    let r = check_provider_compat(&schema, &opts());
    assert_eq!(r.transforms.len(), 1);
    assert_eq!(get(&r.schema, "type"), Some(&st("object")));
}

#[test]
fn shallow_no_error() {
    let schema = obj(vec![
        ("type", st("object")),
        ("properties", obj(vec![("a", obj(vec![("type", st("string"))]))])),
    ]);
    let r = check_provider_compat(&schema, &opts());
    assert!(r.errors.iter().all(|e| !matches!(e, ProviderCompatError::DepthBudgetExceeded { .. })));
}

#[test]
fn deep_emits_error() {
    let mut inner = obj(vec![("type", st("string"))]);
    for i in (0..7).rev() {
        inner = obj(vec![
            ("type", st("object")),
            ("properties", Json::Obj(vec![(format!("l{i}"), inner)])),
        ]);
    }
    let r = check_provider_compat(&inner, &opts());
    let depth_errs: Vec<_> = r
        .errors
        .iter()
        .filter(|e| matches!(e, ProviderCompatError::DepthBudgetExceeded { .. }))
        .collect();
    assert!(!depth_errs.is_empty(), "should have at least one depth error");
}

#[test]
fn homo_enum_clean() {
    let schema = obj(vec![
        ("type", st("object")),
        ("properties", obj(vec![("c", obj(vec![("enum", Json::Arr(vec![st("a"), st("b")]))]))])),
    ]);
    let r = check_provider_compat(&schema, &opts());
    assert!(r.errors.iter().all(|e| !matches!(e, ProviderCompatError::MixedEnumTypes { .. })));
}

#[test]
fn mixed_enum_error() {
    let schema = obj(vec![
        ("type", st("object")),
        ("properties", obj(vec![("c", obj(vec![("enum", Json::Arr(vec![st("a"), num("1")]))]))])),
    ]);
    let r = check_provider_compat(&schema, &opts());
    let enum_errs: Vec<_> = r
        .errors
        .iter()
        .filter(|e| matches!(e, ProviderCompatError::MixedEnumTypes { .. }))
        .collect();
    assert_eq!(enum_errs.len(), 1);
}

#[test]
fn typed_no_unconstrained() {
    let schema = obj(vec![
        ("type", st("object")),
        ("properties", obj(vec![("x", obj(vec![("type", st("string"))]))])),
    ]);
    let r = check_provider_compat(&schema, &opts());
    assert!(r.errors.iter().all(|e| !matches!(e, ProviderCompatError::UnconstrainedSchema { .. })));
}

#[test]
fn empty_sub_schema_flagged() {
    let schema = obj(vec![("type", st("object")), ("properties", obj(vec![("x", obj(vec![]))]))]);
    let r = check_provider_compat(&schema, &opts());
    let uc_errs: Vec<_> = r
        .errors
        .iter()
        .filter(|e| matches!(e, ProviderCompatError::UnconstrainedSchema { .. }))
        .collect();
    assert!(!uc_errs.is_empty());
}

#[test]
fn gemini_passthrough() {
    let schema = obj(vec![("type", st("array"))]);
    let mut o = opts();
    o.target = Target::Gemini;
    let r = check_provider_compat(&schema, &o);
    assert!(r.errors.is_empty());
    assert!(r.transforms.is_empty());
}

#[test]
fn root_wrapping_full_shape() {
    let schema = obj(vec![("type", st("array")), ("items", obj(vec![("type", st("string"))]))]);
    let r = check_provider_compat(&schema, &opts());
    let expected = obj(vec![
        ("type", st("object")),
        (
            "properties",
            obj(vec![(
                "result",
                obj(vec![("type", st("array")), ("items", obj(vec![("type", st("string"))]))]),
            )]),
        ),
        ("required", Json::Arr(vec![st("result")])),
        ("additionalProperties", Json::Bool(false)),
    ]);
    assert_eq!(r.schema, expected);
    assert!(matches!(
        &r.transforms[0],
        Transform::RootObjectWrapper { path, wrapper_key } if path == "#" && wrapper_key == "result"
    ));
    assert!(r.errors.iter().any(|e| matches!(e, ProviderCompatError::RootTypeIncompatible { .. })));
}

#[test]
fn depth_budget_reports_deepest_level() {
    let mut inner = obj(vec![("type", st("string"))]);
    for _ in 0..7 {
        inner = obj(vec![
            ("type", st("object")),
            ("properties", Json::Obj(vec![(s("a"), inner)])),
        ]);
    }
    let r = check_provider_compat(&inner, &opts());
    let depth_errs: Vec<_> = r
        .errors
        .iter()
        .filter(|e| matches!(e, ProviderCompatError::DepthBudgetExceeded { .. }))
        .collect();
    assert_eq!(depth_errs.len(), 1);
    match depth_errs[0] {
        ProviderCompatError::DepthBudgetExceeded { actual_depth, max_depth, .. } => {
            assert_eq!(*actual_depth, 7);
            assert_eq!(*max_depth, 5);
        }
        _ => unreachable!(),
    }
}

#[test]
fn mixed_enum_reports_path_and_types() {
    let schema = obj(vec![
        ("type", st("object")),
        ("properties", obj(vec![("c", obj(vec![("enum", Json::Arr(vec![st("a"), num("1")]))]))])),
    ]);
    let r = check_provider_compat(&schema, &opts());
    let enum_errs: Vec<_> = r
        .errors
        .iter()
        .filter(|e| matches!(e, ProviderCompatError::MixedEnumTypes { .. }))
        .collect();
    assert_eq!(enum_errs.len(), 1);
    match enum_errs[0] {
        ProviderCompatError::MixedEnumTypes { path, types_found, .. } => {
            assert_eq!(path, "#/properties/c");
            assert_eq!(types_found, &vec![s("number"), s("string")]);
        }
        _ => unreachable!(),
    }
}

#[test]
fn unconstrained_reports_path() {
    let schema = obj(vec![("type", st("object")), ("properties", obj(vec![("x", obj(vec![]))]))]);
    let r = check_provider_compat(&schema, &opts());
    let uc_errs: Vec<_> = r
        .errors
        .iter()
        .filter(|e| matches!(e, ProviderCompatError::UnconstrainedSchema { .. }))
        .collect();
    assert_eq!(uc_errs.len(), 1);
    match uc_errs[0] {
        ProviderCompatError::UnconstrainedSchema { path, schema_kind, .. } => {
            assert_eq!(path, "#/properties/x");
            assert_eq!(schema_kind, "empty");
        }
        _ => unreachable!(),
    }
}

#[test]
fn boolean_sub_schema_flagged() {
    let schema = obj(vec![
        ("type", st("object")),
        ("properties", obj(vec![("x", obj(vec![("type", st("array")), ("items", Json::Bool(true))]))])),
    ]);
    let r = check_provider_compat(&schema, &opts());
    let uc_errs: Vec<_> = r
        .errors
        .iter()
        .filter(|e| matches!(e, ProviderCompatError::UnconstrainedSchema { .. }))
        .collect();
    assert_eq!(uc_errs.len(), 1);
    match uc_errs[0] {
        ProviderCompatError::UnconstrainedSchema { schema_kind, .. } => {
            assert_eq!(schema_kind, "boolean(true)");
        }
        _ => unreachable!(),
    }
}

#[test]
fn lenient_mode_is_passthrough() {
    let schema = obj(vec![("type", st("array"))]);
    let mut o = opts();
    o.mode = Mode::Lenient;
    let r: ProviderCompatResult = check_provider_compat(&schema, &o);
    assert_eq!(r.schema, schema);
    assert!(r.errors.is_empty());
    assert!(r.transforms.is_empty());
}

#[test]
fn root_type_diagnostic_names_actual_type() {
    let schema = obj(vec![("type", st("array"))]);
    let r = check_provider_compat(&schema, &opts());
    let root_errs: Vec<_> = r
        .errors
        .iter()
        .filter(|e| matches!(e, ProviderCompatError::RootTypeIncompatible { .. }))
        .collect();
    assert_eq!(root_errs.len(), 1);
    match root_errs[0] {
        ProviderCompatError::RootTypeIncompatible { actual_type, .. } => {
            assert_eq!(actual_type, "array");
        }
        _ => unreachable!(),
    }

    let untyped = obj(vec![("description", st("no type"))]);
    let r2 = check_provider_compat(&untyped, &opts());
    match r2
        .errors
        .iter()
        .find(|e| matches!(e, ProviderCompatError::RootTypeIncompatible { .. }))
        .unwrap()
    {
        ProviderCompatError::RootTypeIncompatible { actual_type, .. } => {
            assert_eq!(actual_type, "unspecified");
        }
        _ => unreachable!(),
    }
}

#[test]
fn pattern_properties_are_audited() {
    let schema = obj(vec![
        ("type", st("object")),
        (
            "patternProperties",
            obj(vec![("^x-", obj(vec![("enum", Json::Arr(vec![st("a"), num("1")]))]))]),
        ),
    ]);
    let r = check_provider_compat(&schema, &opts());
    let enum_errs: Vec<_> = r
        .errors
        .iter()
        .filter(|e| matches!(e, ProviderCompatError::MixedEnumTypes { .. }))
        .collect();
    assert_eq!(enum_errs.len(), 1);
    match enum_errs[0] {
        ProviderCompatError::MixedEnumTypes { path, .. } => {
            assert_eq!(path, "#/patternProperties/^x-");
        }
        _ => unreachable!(),
    }
}

#[test]
fn conditional_keywords_are_audited() {
    let schema = obj(vec![
        ("type", st("object")),
        ("not", obj(vec![("contains", obj(vec![]))])),
        ("propertyNames", obj(vec![])),
        ("dependentSchemas", obj(vec![("a", obj(vec![]))])),
    ]);
    let r = check_provider_compat(&schema, &opts());
    let uc_paths: Vec<&str> = r
        .errors
        .iter()
        .filter_map(|e| match e {
            ProviderCompatError::UnconstrainedSchema { path, .. } => Some(path.as_str()),
            _ => None,
        })
        .collect();
    assert!(uc_paths.contains(&"#/not/contains"));
    assert!(uc_paths.contains(&"#/propertyNames"));
    assert!(uc_paths.contains(&"#/dependentSchemas/a"));
}

#[test]
fn per_index_items_are_audited() {
    let schema = obj(vec![
        ("type", st("object")),
        (
            "properties",
            obj(vec![(
                "tuple",
                obj(vec![
                    ("type", st("array")),
                    ("items", Json::Arr(vec![obj(vec![("type", st("string"))]), obj(vec![])])),
                ]),
            )]),
        ),
    ]);
    let r = check_provider_compat(&schema, &opts());
    let uc_paths: Vec<&str> = r
        .errors
        .iter()
        .filter_map(|e| match e {
            ProviderCompatError::UnconstrainedSchema { path, .. } => Some(path.as_str()),
            _ => None,
        })
        .collect();
    assert_eq!(uc_paths, vec!["#/properties/tuple/items/1"]);
}

#[test]
fn error_order_is_root_then_visit_then_depth() {
    let mut inner = obj(vec![("enum", Json::Arr(vec![st("a"), num("1")]))]);
    for _ in 0..7 {
        inner = obj(vec![
            ("type", st("object")),
            ("properties", Json::Obj(vec![(s("a"), inner)])),
        ]);
    }
    let schema = obj(vec![("type", st("array")), ("items", inner)]);
    let r = check_provider_compat(&schema, &opts());
    assert!(matches!(&r.errors[0], ProviderCompatError::RootTypeIncompatible { .. }));
    assert!(matches!(
        r.errors.last().unwrap(),
        ProviderCompatError::DepthBudgetExceeded { .. }
    ));
    assert!(r.errors.len() >= 3);
}
