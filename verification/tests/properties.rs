use json_path_like_value_retrieval as jpl;
use jpl::JsonValue;
use jpl::comparison::CmpMode;
use jpl::context::Context;
use jpl::engine::from_json;
use jpl::jsonpath::evaluate_path;
use jpl::jsonpath::from_value_with;
use jpl::jsonpath::parse_path;

fn s(x: &str) -> JsonValue {
    JsonValue::Str(x.to_string())
}

fn n(i: i64) -> JsonValue {
    JsonValue::from_int(i)
}

fn obj(pairs: Vec<(&str, JsonValue)>) -> JsonValue {
    JsonValue::Obj(pairs.into_iter().map(|(k, v)| (k.to_string(), v)).collect())
}

fn arr(elems: Vec<JsonValue>) -> JsonValue {
    JsonValue::Arr(elems)
}

// The root path matches exactly the document itself.
#[test]
fn root_path_yields_document() {
    let doc = obj(vec![("a", n(1))]);
    let path = parse_path("$").unwrap();
    let ctx = Context::new();
    let matches = evaluate_path(&doc, &path, &ctx);
    assert_eq!(matches, vec![obj(vec![("a", n(1))])]);
}

// A reversing slice walks the whole array backward.
#[test]
fn slice_negative_step_reverses() {
    let out = from_json("{\"a\":[0,1,2,3,4]}", "$.a[::-1]");
    assert_eq!(out, arr(vec![n(4), n(3), n(2), n(1), n(0)]));
}

// A negative index is a defined no-match, never an error.
#[test]
fn negative_index_yields_empty() {
    let out = from_json("{\"a\":[1,2,3]}", "$.a[-1]");
    assert_eq!(out, JsonValue::Null);
}

// A filter keeps exactly the elements whose key matches.
#[test]
fn filter_round_trip_key_value() {
    let doc = "{\"items\":[{\"key\":\"service.name\",\"value\":\"X\"},{\"key\":\"other\",\"value\":\"Y\"}]}";
    let out = from_json(doc, "$.items[?(@.key==\"service.name\")].value");
    assert_eq!(out, arr(vec![s("X")]));
}

// Under the lower-case fold mode, an upper-case literal matches a stored
// lower-case value.
#[test]
fn case_fold_lower_matches() {
    let doc = obj(vec![(
        "items",
        arr(vec![obj(vec![("key", s("service.name")), ("value", s("X"))])]),
    )]);
    let ctx = Context { mode: CmpMode::CaseFoldLower, default: None };
    let out = from_value_with(&doc, "$.items[?(@.key==\"SERVICE.NAME\")].value", &ctx);
    assert_eq!(out, arr(vec![s("X")]));
    // under the case-sensitive default the same query matches nothing
    let out2 = from_value_with(&doc, "$.items[?(@.key==\"SERVICE.NAME\")].value", &Context::new());
    assert_eq!(out2, JsonValue::Null);
}

// Under the upper-case fold mode, a lower-case literal matches a stored
// upper-case value.
#[test]
fn case_fold_upper_matches() {
    let doc = obj(vec![(
        "items",
        arr(vec![obj(vec![("key", s("SERVICE.NAME")), ("value", s("X"))])]),
    )]);
    let ctx = Context { mode: CmpMode::CaseFoldUpper, default: None };
    let out = from_value_with(&doc, "$.items[?(@.key==\"service.name\")].value", &ctx);
    assert_eq!(out, arr(vec![s("X")]));
}

// An invalid slice component fails the parse and the query yields the
// configured default.
#[test]
fn invalid_slice_yields_configured_default() {
    let doc = obj(vec![("a", arr(vec![n(0), n(1), n(2), n(3)]))]);
    let ctx = Context { mode: CmpMode::CaseSensitive, default: Some(n(42)) };
    let out = from_value_with(&doc, "$.a[1:x]", &ctx);
    assert_eq!(out, n(42));
}

// Logical composition selects exactly the matching elements, whatever
// their order of declaration.
#[test]
fn logical_composition_selects_matching() {
    let doc = "{\"attrs\":[\
        {\"key\":\"environment\",\"value\":\"production\"},\
        {\"key\":\"team\",\"value\":\"ai-platform\"},\
        {\"key\":\"environment\",\"value\":\"staging\"}\
    ]}";
    let path = "$.attrs[?((@.key==\"environment\" && @.value==\"production\") || (@.key==\"team\" && @.value==\"ai-platform\"))].key";
    let out = from_json(doc, path);
    assert_eq!(out, arr(vec![s("environment"), s("team")]));
}

// Recursive descent with a bare key finds keys at every depth, in
// pre-order.
#[test]
fn recursive_descent_depths() {
    let doc = "{\"name\":\"top\",\"child\":{\"name\":\"mid\",\"child\":{\"name\":\"leaf\"}}}";
    let out = from_json(doc, "$..name");
    assert_eq!(out, arr(vec![s("top"), s("mid"), s("leaf")]));
}

// Quoted bracket keys accept escapes; the stored key is the unescaped text.
#[test]
fn quoted_key_with_escape() {
    let out = from_json("{\"a\\nb\":1}", "$['a\\nb']");
    assert_eq!(out, arr(vec![n(1)]));
}

// Wildcards walk both array elements and object member values.
#[test]
fn wildcard_object_values() {
    let out = from_json("{\"a\":{\"x\":1,\"y\":2}}", "$.a.*");
    assert_eq!(out, arr(vec![n(1), n(2)]));
}

// A number stored with a fraction keeps its nano-unit value.
#[test]
fn decimal_number_value() {
    let out = from_json("{\"a\":1.5}", "$.a");
    assert_eq!(out, arr(vec![JsonValue::Num(1_500_000_000)]));
}

// A number written in scientific notation is read by its value.
#[test]
fn scientific_number_value() {
    let out = from_json("{\"a\":1e2}", "$.a");
    assert_eq!(out, arr(vec![n(100)]));
}

// A number compares numerically against a string that reads as a number.
#[test]
fn number_string_comparison() {
    let doc = "{\"items\":[{\"a\":1.5},{\"a\":2.5}]}";
    let out = from_json(doc, "$.items[?(@.a==\"1.5\")].a");
    assert_eq!(out, arr(vec![JsonValue::Num(1_500_000_000)]));
}

// lower() folds a string operand before comparing; the match fails if the
// fold returns its argument unchanged.
#[test]
fn lower_transform_folds() {
    let out = from_json("{\"a\":\"XYZ\"}", "$[?(lower(@.a)==\"xyz\")].a");
    assert_eq!(out, arr(vec![s("XYZ")]));
}

// upper() folds the other way.
#[test]
fn upper_transform_folds() {
    let out = from_json("{\"a\":\"xyz\"}", "$[?(upper(@.a)==\"XYZ\")].a");
    assert_eq!(out, arr(vec![s("xyz")]));
}

// length() counts characters of a string and elements of an array.
#[test]
fn length_transform_counts() {
    let out = from_json("{\"a\":\"abc\"}", "$[?(length(@.a)==3)].a");
    assert_eq!(out, arr(vec![s("abc")]));
    let out2 = from_json("{\"a\":[1,2]}", "$[?(length(@.a)==2)].a");
    assert_eq!(out2, arr(vec![n(1), n(2)]));
}

// Negation and truthiness: an empty string is false, a non-empty one true.
#[test]
fn truthy_and_not() {
    let doc = "{\"items\":[{\"a\":\"\",\"k\":1},{\"a\":\"x\",\"k\":2}]}";
    let out = from_json(doc, "$.items[?(!@.a)].k");
    assert_eq!(out, arr(vec![n(1)]));
    let out2 = from_json(doc, "$.items[?(@.a)].k");
    assert_eq!(out2, arr(vec![n(2)]));
}

// Ordering comparisons on numbers.
#[test]
fn numeric_ordering_filters() {
    let doc = "{\"items\":[{\"age\":29},{\"age\":34},{\"age\":41}]}";
    let out = from_json(doc, "$.items[?(@.age>30 && @.age<=41)].age");
    assert_eq!(out, arr(vec![n(34), n(41)]));
}

// A path that does not start with `$` fails to parse.
#[test]
fn path_must_start_with_root() {
    assert!(parse_path("a.b").is_err());
    assert!(parse_path("$.a").is_ok());
}

// A failed expression parse is reported as a parse error.
#[test]
fn expression_parse_error() {
    assert!(jpl::eval("first(").is_err());
    assert!(jpl::eval("").is_err());
}

// An unknown function name evaluates to null.
#[test]
fn unknown_function_is_null() {
    let out = jpl::eval("nosuch(\"x\")").unwrap();
    assert_eq!(out, JsonValue::Null);
}

// An invalid JSON text in from_json yields null.
#[test]
fn invalid_json_is_null() {
    let out = jpl::eval("from_json(\"{oops\", \"$.a\")").unwrap();
    assert_eq!(out, JsonValue::Null);
}

// or_default falls back to the raw text when the default is not JSON.
#[test]
fn or_default_text_fallback() {
    let out = jpl::or_default(&JsonValue::Null, "not json at all");
    assert_eq!(out, s("not json at all"));
}

// eval_coerce_null turns parse errors into null.
#[test]
fn eval_coerce_null_on_error() {
    let out = jpl::eval_coerce_null("first(");
    assert_eq!(out, JsonValue::Null);
}

// The evaluator type evaluates expressions like the free function.
#[test]
fn evaluator_eval() {
    let ev = jpl::Evaluator::new();
    let out = ev.eval("\"hello\"").unwrap();
    assert_eq!(out, s("hello"));
}

// Selecting a whole array yields the array itself, not a nested wrapping.
#[test]
fn whole_array_not_nested() {
    let out = from_json("{\"a\":[1,2]}", "$.a");
    assert_eq!(out, arr(vec![n(1), n(2)]));
}

// Trailing unrecognized characters after a parsed path are ignored.
#[test]
fn trailing_garbage_is_ignored() {
    let out = from_json("{\"a\":1}", "$.a !!");
    assert_eq!(out, arr(vec![n(1)]));
}

// Cross-type comparison falls back to canonical text: true > false
// lexicographically ("true" > "false"), and null equals only null.
#[test]
fn cross_type_text_comparison() {
    let doc = "{\"items\":[{\"a\":null,\"k\":1},{\"a\":true,\"k\":2}]}";
    let out = from_json(doc, "$.items[?(@.a==null)].k");
    assert_eq!(out, arr(vec![n(1)]));
}

// Lexicographic ordering on strings drives `<` comparisons.
#[test]
fn string_ordering_filter() {
    let doc = "{\"items\":[{\"n\":\"alice\"},{\"n\":\"bob\"}]}";
    let out = from_json(doc, "$.items[?(@.n<\"b\")].n");
    assert_eq!(out, arr(vec![s("alice")]));
}

// Bracket notation: quoted keys (with spaces) and the bracket wildcard.
#[test]
fn bracket_key_and_wildcard_forms() {
    let out = from_json("{\"a b\":1}", "$[\"a b\"]");
    assert_eq!(out, arr(vec![n(1)]));
    let out2 = from_json("{\"a\":[5]}", "$.a[*]");
    assert_eq!(out2, arr(vec![n(5)]));
}

// Re-anchoring at the root mid-path resets the working set.
#[test]
fn parse_path_keeps_segment_structure() {
    let p = parse_path("$.a[0].b").unwrap();
    assert_eq!(p.segments.len(), 4);
}
