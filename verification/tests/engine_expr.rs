use json_path_like_value_retrieval as jpl;
use jpl::JsonValue;

/// Returns a sample JSON string for testing.
fn sample_json() -> &'static str {
    r#"
        {
          "otel": {
            "client_id": [1131109258, 1919201358, 556614944, 1080005413],
            "resourceSpans": [{
              "resource": {
                "attributes": [
                  { "key": "service.name", "value": "nexa-agent-server" },
                  { "key": "service.version", "value": "0.0.3" },
                  { "key": "environment", "value": "production" }
                ]
              }
            }]
          }
        }
        "#
}

/// Tests evaluating a full expression string.
#[test]
fn eval_entire_expression() {
    let expr = format!(
        "first(from_json('{}', \"$.otel.resourceSpans[*].resource.attributes[?(@.key=='service.name')].value\"))",
        sample_json().replace('"', "\\\"")
    );
    let out = jpl::engine::eval_expr(&expr);
    assert_eq!(out, JsonValue::Str("nexa-agent-server".to_string()));
}

/// Tests unique and or_default functions.
#[test]
fn unique_and_default() {
    let json = r#"{"a":[1,1,2,2,3]}"#;
    let expr = format!(
        "unique(from_json('{}', '$.a[*]'))",
        json.replace('"', "\\\"")
    );
    let out = jpl::engine::eval_expr(&expr);
    assert_eq!(
        out,
        JsonValue::Arr(vec![
            JsonValue::from_int(1),
            JsonValue::from_int(2),
            JsonValue::from_int(3)
        ])
    );

    let expr2 = "or_default(from_json('{\"a\":1}', '$.missing'), '{\"fallback\":true}')";
    let out2 = jpl::engine::eval_expr(expr2);
    assert_eq!(
        out2,
        JsonValue::Obj(vec![("fallback".to_string(), JsonValue::Bool(true))])
    );
}
