use hunt::search::{
    check_translation_usage, compile_dynamic_patterns, compile_regex_patterns,
    extract_base_prefixes, key_prefix, Scanner,
};

fn keys(v: &[&str]) -> Vec<String> {
    v.iter().map(|s| s.to_string()).collect()
}

fn sorted(mut v: Vec<String>) -> Vec<String> {
    v.sort();
    v
}

#[test]
fn test_compile_regex_patterns() {
    let translations = keys(&["hello.world", "foo.bar"]);
    let patterns = compile_regex_patterns(&translations);

    assert_eq!(patterns.len(), 2);
}

#[test]
fn test_extract_base_prefixes() {
    let translations = keys(&[
        "expenseCategory.foo",
        "expenseCategory.bar",
        "status.open",
        "status.closed",
    ]);

    let prefixes = extract_base_prefixes(&translations);

    assert!(prefixes.contains_prefix(&"expenseCategory".to_string()));
    assert!(prefixes.contains_prefix(&"status".to_string()));
    assert_eq!(prefixes.group_size(&"expenseCategory".to_string()), 2);
    assert_eq!(prefixes.group_size(&"status".to_string()), 2);
}

#[test]
fn test_dynamic_pattern_matching() {
    let translations = keys(&["expenseCategory.foo", "expenseCategory.bar", "status.open"]);

    let prefixes = extract_base_prefixes(&translations);
    let patterns = compile_dynamic_patterns(&prefixes);

    let test_code1 = "const key = `expenseCategory.${variable}`;";
    let test_code2 = "t('status.${item.status}', { ns: 'App' });";
    let test_code3 = "Reimbursement:expenseCategory.${reimbursement.expenseCategory}";

    let expense_category_pattern = patterns.iter().find(|m| m.prefix().as_str() == "expenseCategory");
    let status_pattern = patterns.iter().find(|m| m.prefix().as_str() == "status");

    if let Some(pattern) = expense_category_pattern {
        assert!(pattern.is_match(test_code1), "Should match template literal");
        assert!(pattern.is_match(test_code3), "Should match namespace format");
    }

    if let Some(pattern) = status_pattern {
        assert!(pattern.is_match(test_code2), "Should match function call with t()");
    }
}

#[test]
fn compiled_matchers_carry_their_keys() {
    let translations = keys(&["hello.world", "id"]);
    let patterns = compile_regex_patterns(&translations);
    let mut pattern_keys: Vec<String> = patterns.iter().map(|m| m.key().clone()).collect();
    pattern_keys.sort();
    assert_eq!(pattern_keys, keys(&["hello.world", "id"]));

    let hello = patterns.iter().find(|m| m.key().as_str() == "hello.world").unwrap();
    assert!(hello.is_match("calls t(\"hello.world\") here"));
    assert!(!hello.is_match("hello world without the dot"));
}

#[test]
fn key_prefix_of_dotted_key_is_text_before_last_dot() {
    assert_eq!(key_prefix("a.b.c"), Some("a.b".to_string()));
    assert_eq!(key_prefix("expenseCategory.foo"), Some("expenseCategory".to_string()));
    assert_eq!(key_prefix("abc"), None);
    assert_eq!(key_prefix(""), None);
}

#[test]
fn scenario_exact_use_is_detected() {
    let catalog = keys(&["hello.world"]);
    let files = keys(&[r#"t("hello.world")"#]);
    let used = check_translation_usage(&catalog, &files);
    assert_eq!(used, keys(&["hello.world"]));
}

#[test]
fn scenario_dynamic_use_covers_the_group() {
    let catalog = keys(&["status.open", "status.closed"]);
    let files = keys(&["const k = `status.${s}`;"]);
    let used = sorted(check_translation_usage(&catalog, &files));
    assert_eq!(used, keys(&["status.closed", "status.open"]));
}

#[test]
fn scenario_unreferenced_catalog_is_unused() {
    let catalog = keys(&["foo.bar"]);
    let files = keys(&["nothing of interest here", "let x = 1;"]);
    let used = check_translation_usage(&catalog, &files);
    assert!(used.is_empty());
}

#[test]
fn scenario_substring_of_identifier_is_not_a_use() {
    let catalog = keys(&["id"]);
    let files = keys(&["const validId = 3;"]);
    let used = check_translation_usage(&catalog, &files);
    assert!(used.is_empty());
}

#[test]
fn scenario_resolved_prefix_skips_later_matcher_work() {
    let catalog = keys(&["expenseCategory.a", "expenseCategory.b"]);
    let mut scanner = Scanner::new(&catalog);

    scanner.scan_file("const key = `expenseCategory.${v}`;");
    let exact_after_first = scanner.exact_check_count();
    let dynamic_after_first = scanner.dynamic_check_count();

    scanner.scan_file("nothing relevant at all");
    assert_eq!(scanner.exact_check_count(), exact_after_first);
    assert_eq!(scanner.dynamic_check_count(), dynamic_after_first);

    let used = sorted(scanner.used_keys());
    assert_eq!(used, keys(&["expenseCategory.a", "expenseCategory.b"]));
}

#[test]
fn result_reports_only_catalog_keys() {
    let catalog = keys(&["status.open", "status.closed", "lonely"]);
    let files = keys(&["`status.${s}`", "lonely", "stranger.key"]);
    let used = check_translation_usage(&catalog, &files);
    for k in &used {
        assert!(catalog.contains(k));
    }
}

#[test]
fn rescanning_yields_identical_results() {
    let catalog = keys(&["a.x", "a.y", "b.z", "plain"]);
    let files = keys(&["uses a.x and `b.${w}`", "plain text with plain"]);
    let first = sorted(check_translation_usage(&catalog, &files));
    let second = sorted(check_translation_usage(&catalog, &files));
    assert_eq!(first, second);
}

#[test]
fn adding_a_file_only_grows_the_result() {
    let catalog = keys(&["a.x", "a.y", "b.z"]);
    let smaller = keys(&["calls a.x here"]);
    let mut larger = smaller.clone();
    larger.push("and `a.${n}` besides".to_string());
    let before = check_translation_usage(&catalog, &smaller);
    let after = check_translation_usage(&catalog, &larger);
    for k in &before {
        assert!(after.contains(k));
    }
    assert!(after.len() >= before.len());
}

#[test]
fn exact_use_requires_word_boundaries() {
    let catalog = keys(&["id"]);
    let used = check_translation_usage(&catalog, &keys(&["the id here"]));
    assert_eq!(used, keys(&["id"]));
    let unused = check_translation_usage(&catalog, &keys(&["the validId here"]));
    assert!(unused.is_empty());
}

#[test]
fn metacharacters_in_keys_match_only_literally() {
    let catalog = keys(&["a.b"]);
    let used = check_translation_usage(&catalog, &keys(&["saw axb today"]));
    assert!(used.is_empty());
    let used = check_translation_usage(&catalog, &keys(&["saw a.b today"]));
    assert_eq!(used, keys(&["a.b"]));
}

#[test]
fn dynamic_pattern_needs_nonempty_content() {
    let catalog = keys(&["status.open", "status.closed"]);
    let used = check_translation_usage(&catalog, &keys(&["`status.${}`"]));
    assert!(used.is_empty());
}

#[test]
fn empty_catalog_and_empty_corpus_yield_nothing() {
    let no_keys: Vec<String> = Vec::new();
    let no_files: Vec<String> = Vec::new();
    assert!(check_translation_usage(&no_keys, &no_files).is_empty());

    let catalog = keys(&["foo.bar"]);
    assert!(check_translation_usage(&catalog, &no_files).is_empty());
}

#[test]
fn unused_keys_is_the_complement_in_catalog_order() {
    let catalog = keys(&["a.x", "a.y", "b.z", "plain"]);
    let used = keys(&["a.y", "plain"]);
    let unused = hunt::search::unused_keys(&catalog, &used);
    assert_eq!(unused, keys(&["a.x", "b.z"]));

    let none_used: Vec<String> = Vec::new();
    assert_eq!(hunt::search::unused_keys(&catalog, &none_used), catalog);
}

#[test]
fn key_without_prefix_is_only_exactly_matchable() {
    let catalog = keys(&["plain"]);
    let used = check_translation_usage(&catalog, &keys(&["`plain.${x}`"]));
    assert_eq!(used, keys(&["plain"]));
    let pm = extract_base_prefixes(&catalog);
    assert!(!pm.contains_prefix(&"plain".to_string()));
}

#[test]
fn test_default_patterns() {
    let patterns = hunt::ignore::load_ignore_patterns();
    assert!(patterns.should_ignore("src/node_modules/foo.js"));
    assert!(patterns.should_ignore(".git/config"));
}

#[test]
fn test_should_ignore_path() {
    let patterns = hunt::ignore::load_ignore_patterns();

    assert!(patterns.should_ignore("src/node_modules/foo.js"));
    assert!(patterns.should_ignore("app.log"));
    assert!(!patterns.should_ignore("src/components/Button.tsx"));
}
