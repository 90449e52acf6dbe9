use json_path_like_value_retrieval as jpl;
use jpl::JsonValue;

fn s(x: &str) -> JsonValue {
    JsonValue::Str(x.to_string())
}

fn n(i: i64) -> JsonValue {
    JsonValue::from_int(i)
}

fn obj(pairs: Vec<(&str, JsonValue)>) -> JsonValue {
    JsonValue::Obj(pairs.into_iter().map(|(k, v)| (k.to_string(), v)).collect())
}

fn recursive_test_json() -> &'static str {
    r#"{
        "departments": [
            {
                "team": [
                    {
                        "name": "Alice Johnson",
                        "info": {
                            "position": "Software Engineer",
                            "age": 29,
                            "email": "alice.johnson@example.com"
                        }
                    },
                    {
                        "name": "Bob Smith",
                        "info": {
                            "position": "UI/UX Designer",
                            "age": 34,
                            "email": "bob.smith@example.com"
                        }
                    }
                ]
            },
            {
                "team": [
                    {
                        "name": "Carol Lee",
                        "info": {
                            "position": "Project Manager",
                            "age": 41,
                            "email": "carol.lee@example.com"
                        }
                    },
                    {
                        "name": "David Kim",
                        "info": {
                            "position": "QA Engineer",
                            "age": 27,
                            "email": "david.kim@example.com"
                        }
                    }
                ]
            }
        ]
    }"#
}

fn person(name: &str, position: &str, age: i64, email: &str) -> JsonValue {
    obj(vec![
        ("name", s(name)),
        (
            "info",
            obj(vec![
                ("position", s(position)),
                ("age", n(age)),
                ("email", s(email)),
            ]),
        ),
    ])
}

fn departments() -> JsonValue {
    JsonValue::Arr(vec![
        obj(vec![(
            "team",
            JsonValue::Arr(vec![
                person(
                    "Alice Johnson",
                    "Software Engineer",
                    29,
                    "alice.johnson@example.com",
                ),
                person("Bob Smith", "UI/UX Designer", 34, "bob.smith@example.com"),
            ]),
        )]),
        obj(vec![(
            "team",
            JsonValue::Arr(vec![
                person("Carol Lee", "Project Manager", 41, "carol.lee@example.com"),
                person("David Kim", "QA Engineer", 27, "david.kim@example.com"),
            ]),
        )]),
    ])
}

#[test]
fn test_recursive_descent_all_names() {
    let result = jpl::engine::from_json(recursive_test_json(), "$..name");
    assert_eq!(
        result,
        JsonValue::Arr(vec![
            s("Alice Johnson"),
            s("Bob Smith"),
            s("Carol Lee"),
            s("David Kim")
        ])
    );
}

#[test]
fn test_recursive_descent_departments() {
    let result = jpl::engine::from_json(recursive_test_json(), "$.departments");
    assert_eq!(result, departments());
}

#[test]
fn test_recursive_descent_specific_name() {
    let result = jpl::engine::from_json(recursive_test_json(), "$.departments[0].team[0].name");
    assert_eq!(result, JsonValue::Arr(vec![s("Alice Johnson")]));
}
