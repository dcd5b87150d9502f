use hunt::cli::Cli;
use hunt::stats::HuntStats;
use hunt::translation::{flatten_json, remove_keys_from_value, JsonValue};

fn obj(fields: Vec<(&str, JsonValue)>) -> JsonValue {
    JsonValue::Object(fields.into_iter().map(|(k, v)| (k.to_string(), v)).collect())
}

fn flat_keys(pairs: &[(String, JsonValue)]) -> Vec<String> {
    pairs.iter().map(|p| p.0.clone()).collect()
}

fn strings(v: &[&str]) -> Vec<String> {
    v.iter().map(|s| s.to_string()).collect()
}

#[test]
fn test_flatten_simple_object() {
    let json = obj(vec![("hello", JsonValue::Scalar(0)), ("foo", JsonValue::Scalar(1))]);
    let result = flatten_json(&json, String::new());

    assert_eq!(result.len(), 2);
    assert!(flat_keys(&result).contains(&"hello".to_string()));
    assert!(flat_keys(&result).contains(&"foo".to_string()));
}

#[test]
fn test_flatten_nested_object() {
    let json = obj(vec![(
        "user",
        obj(vec![("name", JsonValue::Scalar(0)), ("age", JsonValue::Scalar(1))]),
    )]);
    let result = flatten_json(&json, String::new());

    assert_eq!(result.len(), 2);
    assert!(flat_keys(&result).contains(&"user.name".to_string()));
    assert!(flat_keys(&result).contains(&"user.age".to_string()));
}

#[test]
fn test_flatten_array() {
    let json = obj(vec![(
        "items",
        JsonValue::Array(vec![JsonValue::Scalar(0), JsonValue::Scalar(1)]),
    )]);
    let result = flatten_json(&json, String::new());

    assert!(flat_keys(&result).contains(&"items[0]".to_string()));
    assert!(flat_keys(&result).contains(&"items[1]".to_string()));
}

#[test]
fn removal_drops_condemned_entries_and_keeps_used_ones() {
    let json = obj(vec![("a", JsonValue::Scalar(0)), ("b", JsonValue::Scalar(1))]);
    let cleaned = remove_keys_from_value(&json, &strings(&["b"]), &strings(&["a"]));
    let flat = flatten_json(&cleaned, String::new());
    assert_eq!(flat_keys(&flat), strings(&["a"]));
}

#[test]
fn removal_preserves_branches_with_used_descendants() {
    let json = obj(vec![(
        "user",
        obj(vec![("name", JsonValue::Scalar(0)), ("age", JsonValue::Scalar(1))]),
    )]);
    let cleaned = remove_keys_from_value(
        &json,
        &strings(&["user", "user.age"]),
        &strings(&["user.name"]),
    );
    let flat = flatten_json(&cleaned, String::new());
    assert_eq!(flat_keys(&flat), strings(&["user.name"]));
}

#[test]
fn removal_filters_nulls_out_of_arrays() {
    let json = obj(vec![(
        "items",
        JsonValue::Array(vec![JsonValue::Null, JsonValue::Scalar(7), JsonValue::Null]),
    )]);
    let cleaned = remove_keys_from_value(&json, &strings(&[]), &strings(&["items[1]"]));
    match &cleaned {
        JsonValue::Object(fields) => {
            assert_eq!(fields.len(), 1);
            match &fields[0].1 {
                JsonValue::Array(items) => {
                    assert_eq!(items.len(), 1);
                    assert!(matches!(items[0], JsonValue::Scalar(7)));
                }
                _ => panic!("items should stay an array"),
            }
        }
        _ => panic!("root should stay an object"),
    }
}

#[test]
fn removal_keeps_keys_never_condemned() {
    let json = obj(vec![("kept", JsonValue::Scalar(0)), ("gone", JsonValue::Scalar(1))]);
    let cleaned = remove_keys_from_value(&json, &strings(&["gone"]), &strings(&[]));
    let flat = flatten_json(&cleaned, String::new());
    assert_eq!(flat_keys(&flat), strings(&["kept"]));
}

#[test]
fn formatted_duration_renders_exact_values() {
    let mk = |ms: u64| HuntStats {
        files_total: 0,
        keys_total: 0,
        unused_keys_count: 0,
        duration_millis: ms,
    };
    assert_eq!(mk(0).formatted_duration(), "0ms");
    assert_eq!(mk(999).formatted_duration(), "999ms");
    assert_eq!(mk(1000).formatted_duration(), "1.00s");
    assert_eq!(mk(1234).formatted_duration(), "1.23s");
    assert_eq!(mk(1999).formatted_duration(), "2.00s");
    assert_eq!(mk(65432).formatted_duration(), "65.43s");
}

#[test]
fn validate_source_dirs_defaults_to_current_directory() {
    let cli = Cli {
        translation_path: "locales".to_string(),
        source_dirs: Vec::new(),
        show_stats: false,
        clear_unused: false,
        validate: false,
        show_keys: false,
    };
    assert_eq!(cli.validate_source_dirs(), strings(&["."]));

    let cli2 = Cli {
        translation_path: "locales".to_string(),
        source_dirs: strings(&["", "src", ""]),
        show_stats: false,
        clear_unused: false,
        validate: false,
        show_keys: false,
    };
    assert_eq!(cli2.validate_source_dirs(), strings(&["src"]));
}
