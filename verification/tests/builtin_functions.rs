use json_path_like_value_retrieval as jpl;
use jpl::JsonValue;

#[test]
fn test_builtin_first() {
    let v = JsonValue::Arr(vec![JsonValue::from_int(10), JsonValue::from_int(20)]);
    assert_eq!(jpl::first(&v), JsonValue::from_int(10));
}

#[test]
fn test_builtin_unique() {
    let v = JsonValue::Arr(vec![
        JsonValue::from_int(1),
        JsonValue::from_int(1),
        JsonValue::from_int(2),
        JsonValue::from_int(2),
        JsonValue::from_int(3),
    ]);
    let expected = JsonValue::Arr(vec![
        JsonValue::from_int(1),
        JsonValue::from_int(2),
        JsonValue::from_int(3),
    ]);
    assert_eq!(jpl::unique(&v), expected);
}

#[test]
fn test_builtin_or_default() {
    let expected = JsonValue::Obj(vec![("x".to_string(), JsonValue::from_int(1))]);
    assert_eq!(jpl::or_default(&JsonValue::Null, "{\"x\":1}"), expected);
}

// Property: unique is idempotent (already single assertion)
#[test]
fn unique_idempotent_smoke() {
    let v = JsonValue::Arr(vec![
        JsonValue::from_int(1),
        JsonValue::from_int(1),
        JsonValue::from_int(2),
        JsonValue::from_int(3),
        JsonValue::from_int(3),
    ]);
    let once = jpl::unique(&v);
    let twice = jpl::unique(&once);
    assert_eq!(once, twice);
}
