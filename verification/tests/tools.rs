//! Tool definitions.

use codex_core::error::CodexErr;
use codex_core::json::Json;
use codex_core::tools::anthropic_tools::create_tools_json_for_anthropic_api;
use codex_core::tools::nemotron_tools::{create_tools_for_nemotron, flatten_schema};
use codex_core::tools::spec::{ResponsesApiTool, ToolSpec};

fn string(s: &str) -> Json {
    Json::String(s.to_string())
}

fn object(members: Vec<(&str, Json)>) -> Json {
    Json::Object(
        members
            .into_iter()
            .map(|(k, v)| (k.to_string(), v))
            .collect(),
    )
}

fn typed(kind: &str) -> Json {
    object(vec![("type", string(kind))])
}

fn find<'a>(json: &'a Json, key: &str) -> Option<&'a Json> {
    match json {
        Json::Object(members) => members.iter().find(|m| m.0 == key).map(|m| &m.1),
        _ => None,
    }
}

fn get<'a>(json: &'a Json, key: &str) -> &'a Json {
    find(json, key).unwrap()
}

fn flattened(mut schema: Json) -> Json {
    flatten_schema(&mut schema);
    schema
}

fn function(name: &str, parameters: Result<Json, String>) -> ToolSpec {
    ToolSpec::Function(ResponsesApiTool {
        name: name.to_string(),
        description: format!("does {name}"),
        parameters,
    })
}

#[test]
fn test_flatten_one_of() {
    let mut schema = object(vec![
        ("type", string("object")),
        (
            "properties",
            object(vec![(
                "value",
                object(vec![
                    ("description", string("A flexible value")),
                    ("oneOf", Json::Array(vec![typed("string"), typed("integer")])),
                ]),
            )]),
        ),
    ]);
    flatten_schema(&mut schema);
    let props = get(get(&schema, "properties"), "value");
    assert_eq!(get(props, "type"), &string("string"));
    assert_eq!(get(props, "description"), &string("A flexible value"));
    assert!(find(props, "oneOf").is_none());
}

#[test]
fn test_flatten_any_of() {
    let mut schema = object(vec![
        ("type", string("object")),
        (
            "properties",
            object(vec![(
                "data",
                object(vec![(
                    "anyOf",
                    Json::Array(vec![
                        object(vec![
                            ("type", string("number")),
                            ("description", string("inner desc")),
                        ]),
                        typed("null"),
                    ]),
                )]),
            )]),
        ),
    ]);
    flatten_schema(&mut schema);
    let props = get(get(&schema, "properties"), "data");
    assert_eq!(get(props, "type"), &string("number"));
    assert_eq!(get(props, "description"), &string("inner desc"));
    assert!(find(props, "anyOf").is_none());
}

#[test]
fn test_flatten_nested_items() {
    let mut schema = object(vec![
        ("type", string("array")),
        (
            "items",
            object(vec![(
                "oneOf",
                Json::Array(vec![typed("string"), typed("boolean")]),
            )]),
        ),
    ]);
    flatten_schema(&mut schema);
    assert_eq!(get(get(&schema, "items"), "type"), &string("string"));
}

#[test]
fn test_flatten_no_op_on_simple_schema() {
    let mut schema = object(vec![
        ("type", string("object")),
        (
            "properties",
            object(vec![("name", typed("string"))]),
        ),
    ]);
    let original = schema.duplicate();
    flatten_schema(&mut schema);
    assert_eq!(schema, original);
}

#[test]
fn one_of_goes_before_any_of() {
    let schema = object(vec![
        ("anyOf", Json::Array(vec![typed("integer")])),
        ("oneOf", Json::Array(vec![typed("string")])),
    ]);
    assert_eq!(flattened(schema), typed("string"));
}

#[test]
fn an_empty_union_or_no_list_is_left_as_it_is() {
    for union in [Json::Array(vec![]), Json::Null, string("x"), typed("x")] {
        let schema = object(vec![("oneOf", union)]);
        let original = schema.duplicate();
        assert_eq!(flattened(schema), original);
    }
    // An empty `oneOf` does not stand in the way of an `anyOf`.
    let schema = object(vec![
        ("oneOf", Json::Array(vec![])),
        ("anyOf", Json::Array(vec![typed("string")])),
    ]);
    assert_eq!(flattened(schema), typed("string"));
}

#[test]
fn the_outer_description_goes_through_nested_unions() {
    let schema = object(vec![
        ("description", string("outer")),
        (
            "oneOf",
            Json::Array(vec![object(vec![(
                "anyOf",
                Json::Array(vec![typed("string")]),
            )])]),
        ),
    ]);
    assert_eq!(
        flattened(schema),
        object(vec![
            ("type", string("string")),
            ("description", string("outer"))
        ])
    );
}

#[test]
fn a_first_variant_that_is_no_object_takes_no_description() {
    let schema = object(vec![
        ("description", string("lost")),
        ("oneOf", Json::Array(vec![Json::Bool(true)])),
    ]);
    assert_eq!(flattened(schema), Json::Bool(true));
    assert_eq!(flattened(Json::Null), Json::Null);
}

#[test]
fn unions_are_flattened_wherever_a_schema_stands() {
    let union = || object(vec![("anyOf", Json::Array(vec![typed("string"), typed("null")]))]);
    assert_eq!(
        flattened(object(vec![
            ("type", string("object")),
            ("additionalProperties", union()),
        ])),
        object(vec![
            ("type", string("object")),
            ("additionalProperties", typed("string")),
        ])
    );
    for key in [
        "items",
        "prefixItems",
        "additionalItems",
        "unevaluatedItems",
        "contains",
        "additionalProperties",
        "unevaluatedProperties",
        "propertyNames",
        "contentSchema",
        "allOf",
        "not",
        "if",
        "then",
        "else",
    ] {
        assert_eq!(
            flattened(object(vec![(key, union())])),
            object(vec![(key, typed("string"))])
        );
        assert_eq!(
            flattened(object(vec![(key, Json::Array(vec![union(), union()]))])),
            object(vec![(
                key,
                Json::Array(vec![typed("string"), typed("string")])
            )])
        );
    }
    for key in [
        "properties",
        "patternProperties",
        "dependentSchemas",
        "dependencies",
        "$defs",
        "definitions",
    ] {
        assert_eq!(
            flattened(object(vec![(
                key,
                object(vec![("a", union()), ("b", typed("x"))])
            )])),
            object(vec![(
                key,
                object(vec![("a", typed("string")), ("b", typed("x"))])
            )])
        );
    }
    assert_eq!(
        flattened(object(vec![(
            "additionalProperties",
            object(vec![("items", object(vec![("allOf", Json::Array(vec![union()]))]))])
        )])),
        object(vec![(
            "additionalProperties",
            object(vec![(
                "items",
                object(vec![("allOf", Json::Array(vec![typed("string")]))])
            )])
        )])
    );
}

#[test]
fn what_is_no_schema_is_left() {
    // Values and names are data, whatever they look like.
    let union = || object(vec![("oneOf", Json::Array(vec![typed("string")]))]);
    for key in ["default", "const", "enum", "examples", "x-note"] {
        assert_eq!(
            flattened(object(vec![(key, union())])),
            object(vec![(key, union())])
        );
    }
    assert_eq!(
        flattened(object(vec![("dependencies", object(vec![("a", Json::Array(vec![string("b")]))]))])),
        object(vec![("dependencies", object(vec![("a", Json::Array(vec![string("b")]))]))])
    );
    // A property may be named like a keyword.
    assert_eq!(
        flattened(object(vec![("properties", object(vec![("oneOf", union())]))])),
        object(vec![("properties", object(vec![("oneOf", typed("string"))]))])
    );
}

#[test]
fn flattening_twice_is_flattening_once() {
    let schema = object(vec![(
        "properties",
        object(vec![
            (
                "a",
                object(vec![(
                    "anyOf",
                    Json::Array(vec![object(vec![(
                        "items",
                        object(vec![("oneOf", Json::Array(vec![typed("integer")]))]),
                    )])]),
                )]),
            ),
            ("b", typed("string")),
        ]),
    )]);
    let once = flattened(schema);
    let copy = once.duplicate();
    assert_eq!(flattened(once), copy);
    assert_eq!(
        copy,
        object(vec![(
            "properties",
            object(vec![
                ("a", object(vec![("items", typed("integer"))])),
                ("b", typed("string")),
            ])
        )])
    );
}

#[test]
fn only_function_tools_are_offered() {
    let schema = || object(vec![("oneOf", Json::Array(vec![typed("string")]))]);
    let tools = [
        ToolSpec::ToolSearch,
        function("f", Ok(schema())),
        ToolSpec::LocalShell,
        ToolSpec::ImageGeneration,
        function("g", Ok(typed("object"))),
        ToolSpec::WebSearch,
        ToolSpec::Freeform,
    ];
    let anthropic = create_tools_json_for_anthropic_api(&tools).unwrap();
    assert_eq!(anthropic.len(), 2);
    assert_eq!(anthropic[0].name, "f");
    assert_eq!(anthropic[0].description, "does f");
    assert_eq!(anthropic[0].input_schema, schema());
    assert_eq!(anthropic[1].name, "g");
    let nemotron = create_tools_for_nemotron(&tools).unwrap();
    assert_eq!(nemotron.len(), 2);
    assert_eq!(nemotron[0].kind, "function");
    assert_eq!(nemotron[0].function.name, "f");
    assert_eq!(nemotron[0].function.description, "does f");
    assert_eq!(nemotron[0].function.parameters, typed("string"));
    assert_eq!(nemotron[1].function.parameters, typed("object"));
    assert_eq!(create_tools_json_for_anthropic_api(&[]), Ok(vec![]));
    assert_eq!(create_tools_for_nemotron(&[]), Ok(vec![]));
}

#[test]
fn the_first_unusable_schema_is_complained_about() {
    let tools = [
        function("f", Ok(Json::Null)),
        function("g", Err("first".to_string())),
        function("h", Err("second".to_string())),
    ];
    let expected = CodexErr::Json("first".to_string());
    assert_eq!(
        create_tools_json_for_anthropic_api(&tools),
        Err(CodexErr::Json("first".to_string()))
    );
    assert_eq!(create_tools_for_nemotron(&tools), Err(expected));
}
