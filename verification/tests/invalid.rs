use json_path_like_value_retrieval as jpl;
use jpl::JsonValue;

// Invalid path slice number: uses a non-numeric token in a slice component to
// trigger the slice parser's `bad slice number` error path. Path parsing errors
// inside from_json are coerced to a null value (they do not bubble as
// EvalError), so we assert null.
#[test]
fn test_invalid_jsonpath_slice_bad_number() {
    // $.a[1:x] -> 'x' cannot be parsed as an integer, so the slice is a syntax error.
    let expr = r#"from_json("{\"a\":[0,1,2,3]}", "$.a[1:x]")"#;
    let out = jpl::eval(expr).unwrap();
    assert!(
        matches!(out, JsonValue::Null),
        "Expected Null result for invalid slice number, got: {out:?}"
    );
}
