use jsonschema_llm::capability::{capability, Capability};
use jsonschema_llm::codec::{DroppedConstraint, Transform};
use jsonschema_llm::constraints::prune_constraints;
use jsonschema_llm::json::Json;
use jsonschema_llm::options::{ConvertOptions, Target};

fn s(x: &str) -> String {
    x.to_string()
}

fn num(x: &str) -> Json {
    Json::Num(s(x))
}

fn st(x: &str) -> Json {
    Json::Str(s(x))
}

fn obj(fields: Vec<(&str, Json)>) -> Json {
    Json::Obj(fields.into_iter().map(|(k, v)| (s(k), v)).collect())
}

fn get<'a>(j: &'a Json, key: &str) -> Option<&'a Json> {
    match j {
        Json::Obj(fields) => fields.iter().find(|(k, _)| k == key).map(|(_, v)| v),
        _ => None,
    }
}

fn run(schema: Json, target: Target) -> (Json, Vec<DroppedConstraint>) {
    let config = ConvertOptions { target, ..ConvertOptions::default() };
    let result = prune_constraints(&schema, &config).unwrap();
    (result.schema, result.dropped_constraints)
}

fn run_openai(schema: Json) -> (Json, Vec<DroppedConstraint>) {
    run(schema, Target::OpenaiStrict)
}

#[test]
fn test_drop_minmax_openai_preserve_gemini() {
    let input = obj(vec![("type", st("integer")), ("minimum", num("0")), ("maximum", num("100"))]);

    let (openai_out, openai_dropped) = run(input.duplicate(), Target::OpenaiStrict);
    assert!(get(&openai_out, "minimum").is_none(), "minimum should be dropped for OpenAI");
    assert!(get(&openai_out, "maximum").is_none(), "maximum should be dropped for OpenAI");
    assert_eq!(openai_dropped.len(), 2);

    let (gemini_out, gemini_dropped) = run(input, Target::Gemini);
    assert_eq!(get(&gemini_out, "minimum"), Some(&num("0")), "minimum should be preserved for Gemini");
    assert_eq!(get(&gemini_out, "maximum"), Some(&num("100")), "maximum should be preserved for Gemini");
    assert_eq!(gemini_dropped.len(), 0);
}

#[test]
fn test_const_to_enum_normalization() {
    let input = obj(vec![("type", st("string")), ("const", st("active"))]);

    let (openai_out, _) = run(input.duplicate(), Target::OpenaiStrict);
    assert_eq!(get(&openai_out, "enum"), Some(&Json::Arr(vec![st("active")])));
    assert!(get(&openai_out, "const").is_none());

    let (claude_out, _) = run(input.duplicate(), Target::Claude);
    assert_eq!(get(&claude_out, "enum"), Some(&Json::Arr(vec![st("active")])));
    assert!(get(&claude_out, "const").is_none());

    let (gemini_out, _) = run(input, Target::Gemini);
    assert_eq!(get(&gemini_out, "const"), Some(&st("active")));
}

#[test]
fn test_enum_default_first_sorting() {
    let input = obj(vec![
        ("type", st("string")),
        ("enum", Json::Arr(vec![st("alpha"), st("beta"), st("gamma")])),
        ("default", st("beta")),
    ]);

    let (out, dropped) = run_openai(input);

    assert_eq!(get(&out, "enum"), Some(&Json::Arr(vec![st("beta"), st("alpha"), st("gamma")])));

    assert!(get(&out, "default").is_none());

    let default_dropped = dropped.iter().find(|d| d.constraint == "default");
    assert!(default_dropped.is_some(), "default must be in dropped_constraints");
    assert_eq!(default_dropped.unwrap().value, st("beta"));
}

#[test]
fn test_drop_not_if_then_else() {
    let input = obj(vec![
        ("type", st("string")),
        ("not", obj(vec![("enum", Json::Arr(vec![st("bad")]))])),
        ("if", obj(vec![("minLength", num("5"))])),
        ("then", obj(vec![("pattern", st("^[A-Z]"))])),
        ("else", obj(vec![("pattern", st("^[a-z]"))])),
    ]);

    let (out, dropped) = run_openai(input);

    assert!(get(&out, "not").is_none());
    assert!(get(&out, "if").is_none());
    assert!(get(&out, "then").is_none());
    assert!(get(&out, "else").is_none());

    assert_eq!(dropped.len(), 4);
    let dropped_names: Vec<&str> = dropped.iter().map(|d| d.constraint.as_str()).collect();
    assert!(dropped_names.contains(&"not"));
    assert!(dropped_names.contains(&"if"));
    assert!(dropped_names.contains(&"then"));
    assert!(dropped_names.contains(&"else"));
}

#[test]
fn test_pattern_openai_vs_claude() {
    let input = obj(vec![("type", st("string")), ("pattern", st("^[A-Z]+"))]);

    let (openai_out, openai_dropped) = run(input.duplicate(), Target::OpenaiStrict);
    assert_eq!(get(&openai_out, "pattern"), Some(&st("^[A-Z]+")));
    assert_eq!(openai_dropped.len(), 0);

    let (claude_out, claude_dropped) = run(input, Target::Claude);
    assert!(get(&claude_out, "pattern").is_none());
    assert_eq!(claude_dropped.len(), 1);
    assert_eq!(claude_dropped[0].constraint, "pattern");
}

#[test]
fn test_multiple_constraints_same_node() {
    let input = obj(vec![
        ("type", st("integer")),
        ("minimum", num("0")),
        ("maximum", num("100")),
        ("default", num("50")),
        ("multipleOf", num("5")),
        ("exclusiveMinimum", num("0")),
    ]);

    let (out, dropped) = run_openai(input);

    assert!(get(&out, "minimum").is_none());
    assert!(get(&out, "maximum").is_none());
    assert!(get(&out, "default").is_none());
    assert!(get(&out, "multipleOf").is_none());
    assert!(get(&out, "exclusiveMinimum").is_none());

    assert_eq!(get(&out, "type"), Some(&st("integer")));

    assert_eq!(dropped.len(), 5);
}

#[test]
fn test_nested_recursion() {
    let input = obj(vec![
        ("type", st("object")),
        (
            "properties",
            obj(vec![
                (
                    "name",
                    obj(vec![
                        ("type", st("string")),
                        ("minLength", num("1")),
                        ("maxLength", num("100")),
                    ]),
                ),
                (
                    "items",
                    obj(vec![
                        ("type", st("array")),
                        ("items", obj(vec![("type", st("integer")), ("minimum", num("0"))])),
                        ("minItems", num("1")),
                    ]),
                ),
            ]),
        ),
    ]);

    let (out, dropped) = run_openai(input);

    let props = get(&out, "properties").unwrap();
    let name = get(props, "name").unwrap();
    assert!(get(name, "minLength").is_none());
    assert!(get(name, "maxLength").is_none());

    let items_prop = get(props, "items").unwrap();
    let inner_items = get(items_prop, "items").unwrap();
    assert!(get(inner_items, "minimum").is_none());

    assert!(get(items_prop, "minItems").is_none());

    assert_eq!(dropped.len(), 4);
}

#[test]
fn test_depth_guard() {
    let input = obj(vec![
        ("type", st("object")),
        (
            "properties",
            obj(vec![(
                "nested",
                obj(vec![
                    ("type", st("object")),
                    (
                        "properties",
                        obj(vec![(
                            "deep",
                            obj(vec![("type", st("string")), ("minLength", num("1"))]),
                        )]),
                    ),
                ]),
            )]),
        ),
    ]);

    let config = ConvertOptions { max_depth: 1, ..ConvertOptions::default() };

    let result = prune_constraints(&input, &config);
    assert!(result.is_err(), "should fail on depth exceeded");
}

#[test]
fn test_empty_schema_passthrough() {
    let input = st("string");
    let (out, dropped) = run_openai(input.duplicate());
    assert_eq!(out, input);
    assert_eq!(dropped.len(), 0);

    let input_bool = Json::Bool(true);
    let (out_bool, dropped_bool) = run_openai(input_bool.duplicate());
    assert_eq!(out_bool, input_bool);
    assert_eq!(dropped_bool.len(), 0);
}

#[test]
fn const_rewrite_records_transform() {
    let input = obj(vec![("type", st("string")), ("const", st("active"))]);
    let config = ConvertOptions { target: Target::OpenaiStrict, ..ConvertOptions::default() };
    let result = prune_constraints(&input, &config).unwrap();
    let c2e: Vec<&Transform> = result
        .transforms
        .iter()
        .filter(|t| matches!(t, Transform::ConstToEnum { .. }))
        .collect();
    assert_eq!(c2e.len(), 1);
    match c2e[0] {
        Transform::ConstToEnum { path } => assert_eq!(path, "#"),
        _ => unreachable!(),
    }
}

#[test]
fn enum_reorder_records_transform() {
    let input = obj(vec![
        ("type", st("string")),
        ("enum", Json::Arr(vec![st("alpha"), st("beta"), st("gamma")])),
        ("default", st("beta")),
    ]);
    let config = ConvertOptions { target: Target::OpenaiStrict, ..ConvertOptions::default() };
    let result = prune_constraints(&input, &config).unwrap();
    let reord: Vec<&Transform> = result
        .transforms
        .iter()
        .filter(|t| matches!(t, Transform::EnumReordered { .. }))
        .collect();
    assert_eq!(reord.len(), 1);
    match reord[0] {
        Transform::EnumReordered { path, original_order } => {
            assert_eq!(path, "#");
            assert_eq!(original_order, &vec![st("alpha"), st("beta"), st("gamma")]);
        }
        _ => unreachable!(),
    }
}

#[test]
fn default_absent_leaves_enum_alone() {
    let input = obj(vec![
        ("type", st("string")),
        ("enum", Json::Arr(vec![st("alpha"), st("beta"), st("gamma")])),
    ]);
    let (out, dropped) = run_openai(input);
    assert_eq!(get(&out, "enum"), Some(&Json::Arr(vec![st("alpha"), st("beta"), st("gamma")])));
    assert_eq!(dropped.len(), 0);
}

#[test]
fn default_already_first_keeps_order() {
    let input = obj(vec![
        ("type", st("string")),
        ("enum", Json::Arr(vec![st("beta"), st("alpha")])),
        ("default", st("beta")),
    ]);
    let config = ConvertOptions { target: Target::OpenaiStrict, ..ConvertOptions::default() };
    let result = prune_constraints(&input, &config).unwrap();
    assert_eq!(get(&result.schema, "enum"), Some(&Json::Arr(vec![st("beta"), st("alpha")])));
    assert!(result.transforms.iter().all(|t| !matches!(t, Transform::EnumReordered { .. })));
}

#[test]
fn dropped_value_preserved_for_audit() {
    let input = obj(vec![("type", st("integer")), ("minimum", num("3"))]);
    let (_, dropped) = run_openai(input);
    assert_eq!(dropped.len(), 1);
    assert_eq!(dropped[0].constraint, "minimum");
    assert_eq!(dropped[0].value, num("3"));
    assert_eq!(dropped[0].path, "#");
}

#[test]
fn gemini_drops_ref() {
    let input = obj(vec![("$ref", st("#/$defs/a"))]);
    let (out, dropped) = run(input.duplicate(), Target::Gemini);
    assert!(get(&out, "$ref").is_none());
    assert_eq!(dropped.len(), 1);
    assert_eq!(dropped[0].constraint, "$ref");

    let (openai_out, openai_dropped) = run(input, Target::OpenaiStrict);
    assert_eq!(get(&openai_out, "$ref"), Some(&st("#/$defs/a")));
    assert_eq!(openai_dropped.len(), 0);
}

#[test]
fn capability_matrix_spot_checks() {
    assert_eq!(capability(Target::OpenaiStrict, "pattern"), Capability::Supported);
    assert_eq!(capability(Target::Claude, "pattern"), Capability::Drop);
    assert_eq!(capability(Target::Gemini, "pattern"), Capability::Drop);
    assert_eq!(capability(Target::OpenaiStrict, "const"), Capability::Rewrite);
    assert_eq!(capability(Target::Gemini, "const"), Capability::Supported);
    assert_eq!(capability(Target::Gemini, "minimum"), Capability::Supported);
    assert_eq!(capability(Target::Claude, "default"), Capability::Drop);
    assert_eq!(capability(Target::OpenaiStrict, "type"), Capability::Supported);
}

#[test]
fn nested_rewrites_record_nested_paths() {
    let input = obj(vec![
        ("type", st("object")),
        (
            "properties",
            obj(vec![(
                "state",
                obj(vec![("type", st("string")), ("const", st("active"))]),
            )]),
        ),
    ]);
    let config = ConvertOptions { target: Target::OpenaiStrict, ..ConvertOptions::default() };
    let result = prune_constraints(&input, &config).unwrap();
    let c2e: Vec<&Transform> = result
        .transforms
        .iter()
        .filter(|t| matches!(t, Transform::ConstToEnum { .. }))
        .collect();
    assert_eq!(c2e.len(), 1);
    match c2e[0] {
        Transform::ConstToEnum { path } => assert_eq!(path, "#/properties/state"),
        _ => unreachable!(),
    }
}

#[test]
fn nested_drops_record_nested_paths() {
    let input = obj(vec![
        ("type", st("object")),
        (
            "properties",
            obj(vec![(
                "name",
                obj(vec![("type", st("string")), ("minLength", num("1"))]),
            )]),
        ),
    ]);
    let (_, dropped) = run_openai(input);
    assert_eq!(dropped.len(), 1);
    assert_eq!(dropped[0].path, "#/properties/name");
    assert_eq!(dropped[0].constraint, "minLength");
    assert_eq!(dropped[0].reason, "unsupported by target");
}
