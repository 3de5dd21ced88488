use srch::json::JsonNumber;
use srch::json::JsonValue;
use srch::search::search_json_value;
use srch::search::SearchContext;
use srch::search::SearchResult;

fn obj(fields: Vec<(&str, JsonValue)>) -> JsonValue {
    JsonValue::Object(fields.into_iter().map(|(k, v)| (k.to_string(), v)).collect())
}

fn arr(items: Vec<JsonValue>) -> JsonValue {
    JsonValue::Array(items)
}

fn s(text: &str) -> JsonValue {
    JsonValue::Str(text.to_string())
}

fn num(text: &str) -> JsonValue {
    JsonValue::Number(JsonNumber::from_text(text).unwrap())
}

fn context(term: &str, single: bool, numeric: bool) -> SearchContext {
    SearchContext::new(term.to_string(), single, ".".to_string(), numeric).unwrap()
}

fn parts(segments: &[&str]) -> Vec<String> {
    segments.iter().map(|p| p.to_string()).collect()
}

fn path(segments: &[&str]) -> Vec<String> {
    segments.iter().map(|p| p.to_string()).collect()
}

#[test]
fn test_search_json_value_single_match_object() {
    let json_value = obj(vec![("a", obj(vec![("b", obj(vec![("c", s("test"))]))]))]);
    let field_path_parts = parts(&["a", "b"]);
    let field_name = "c".to_string();
    let results = search_json_value(
        &json_value,
        &field_path_parts,
        &field_name,
        Vec::new(),
        &context("test", true, false),
    )
    .unwrap_or_default();
    assert_eq!(
        results,
        vec![SearchResult { json_path: path(&["a", "b", "c"]), value: s("test") }],
    );
}

#[test]
fn test_search_json_value_single_match_array() {
    let json_value = arr(vec![obj(vec![("a", s("test1"))]), obj(vec![("a", s("test2"))])]);
    let field_path_parts = parts(&[]);
    let field_name = "a".to_string();
    let results = search_json_value(
        &json_value,
        &field_path_parts,
        &field_name,
        Vec::new(),
        &context("test2", true, false),
    )
    .unwrap_or_default();
    assert_eq!(
        results,
        vec![SearchResult { json_path: path(&["1", "a"]), value: s("test2") }],
    );
}

#[test]
fn test_search_json_value_multiple_matches_object() {
    let json_value = obj(vec![("a", obj(vec![("b", s("test")), ("c", s("test"))]))]);
    let field_path_parts = parts(&["a"]);
    let field_name = "b".to_string();
    let results = search_json_value(
        &json_value,
        &field_path_parts,
        &field_name,
        Vec::new(),
        &context("test", false, false),
    )
    .unwrap_or_default();
    assert_eq!(
        results,
        vec![SearchResult { json_path: path(&["a", "b"]), value: s("test") }],
    );
}

#[test]
fn test_search_json_value_multiple_matches_array() {
    let json_value = arr(vec![obj(vec![("a", s("test"))]), obj(vec![("a", s("test"))])]);
    let field_path_parts = parts(&[]);
    let field_name = "a".to_string();
    let results = search_json_value(
        &json_value,
        &field_path_parts,
        &field_name,
        Vec::new(),
        &context("test", false, false),
    )
    .unwrap_or_default();
    assert_eq!(
        results,
        vec![
            SearchResult { json_path: path(&["0", "a"]), value: s("test") },
            SearchResult { json_path: path(&["1", "a"]), value: s("test") },
        ],
    );
}

#[test]
fn test_search_json_value_no_match() {
    let json_value = obj(vec![("a", s("value"))]);
    let field_path_parts = parts(&[]);
    let field_name = "b".to_string();
    let results = search_json_value(
        &json_value,
        &field_path_parts,
        &field_name,
        Vec::new(),
        &context("test", false, false),
    )
    .unwrap_or_default();
    assert_eq!(results, vec![]);
}

#[test]
fn test_search_json_value_field_path_match() {
    let json_value = obj(vec![("a", obj(vec![("b", obj(vec![("c", s("test"))]))]))]);
    let field_path_parts = parts(&["a", "b"]);
    let field_name = "c".to_string();
    let results = search_json_value(
        &json_value,
        &field_path_parts,
        &field_name,
        Vec::new(),
        &context("test", false, false),
    )
    .unwrap_or_default();
    assert_eq!(
        results,
        vec![SearchResult { json_path: path(&["a", "b", "c"]), value: s("test") }],
    );
}

#[test]
fn test_search_json_value_numeric_greater_than() {
    let json_value = obj(vec![("a", num("30"))]);
    let field_path_parts = parts(&[]);
    let field_name = "a".to_string();
    let results = search_json_value(
        &json_value,
        &field_path_parts,
        &field_name,
        Vec::new(),
        &context(">25", false, true),
    )
    .unwrap_or_default();
    assert_eq!(
        results,
        vec![SearchResult { json_path: path(&["a"]), value: num("30") }],
    );
}

#[test]
fn test_search_json_value_numeric_less_equal() {
    let json_value = obj(vec![("a", num("10"))]);
    let field_path_parts = parts(&[]);
    let field_name = "a".to_string();
    let results = search_json_value(
        &json_value,
        &field_path_parts,
        &field_name,
        Vec::new(),
        &context("<=10", false, true),
    )
    .unwrap_or_default();
    assert_eq!(
        results,
        vec![SearchResult { json_path: path(&["a"]), value: num("10") }],
    );
}

#[test]
fn test_search_json_value_numeric_equal_no_match() {
    let json_value = obj(vec![("a", num("10"))]);
    let field_path_parts = parts(&[]);
    let field_name = "a".to_string();
    let results = search_json_value(
        &json_value,
        &field_path_parts,
        &field_name,
        Vec::new(),
        &context("==11", false, true),
    )
    .unwrap_or_default();
    assert_eq!(results, vec![]);
}

#[test]
fn test_search_json_value_numeric_invalid_operator() {
    let json_value = obj(vec![("a", num("10"))]);
    let field_path_parts = parts(&[]);
    let field_name = "a".to_string();
    let results = search_json_value(
        &json_value,
        &field_path_parts,
        &field_name,
        Vec::new(),
        &context("~10", false, true),
    )
    .unwrap_or_default();
    assert_eq!(results, vec![]);
}

#[test]
fn test_search_json_value_numeric_range_within_range() {
    let json_value = obj(vec![("a", num("15"))]);
    let field_path_parts = parts(&[]);
    let field_name = "a".to_string();
    let results = search_json_value(
        &json_value,
        &field_path_parts,
        &field_name,
        Vec::new(),
        &context(">10<20", false, true),
    )
    .unwrap_or_default();
    assert_eq!(
        results,
        vec![SearchResult { json_path: path(&["a"]), value: num("15") }],
    );
}

#[test]
fn test_search_json_value_numeric_range_outside_range_lower() {
    let json_value = obj(vec![("a", num("5"))]);
    let field_path_parts = parts(&[]);
    let field_name = "a".to_string();
    let results = search_json_value(
        &json_value,
        &field_path_parts,
        &field_name,
        Vec::new(),
        &context(">10<20", false, true),
    )
    .unwrap_or_default();
    assert_eq!(results, vec![]);
}

#[test]
fn test_search_json_value_numeric_range_outside_range_upper() {
    let json_value = obj(vec![("a", num("25"))]);
    let field_path_parts = parts(&[]);
    let field_name = "a".to_string();
    let results = search_json_value(
        &json_value,
        &field_path_parts,
        &field_name,
        Vec::new(),
        &context(">10<20", false, true),
    )
    .unwrap_or_default();
    assert_eq!(results, vec![]);
}

#[test]
fn test_search_json_value_numeric_range_boundary_lower_inclusive() {
    let json_value = obj(vec![("a", num("10"))]);
    let field_path_parts = parts(&[]);
    let field_name = "a".to_string();
    let results = search_json_value(
        &json_value,
        &field_path_parts,
        &field_name,
        Vec::new(),
        &context(">=10<20", false, true),
    )
    .unwrap_or_default();
    assert_eq!(
        results,
        vec![SearchResult { json_path: path(&["a"]), value: num("10") }],
    );
}

#[test]
fn test_search_json_value_numeric_range_boundary_upper_exclusive() {
    let json_value = obj(vec![("a", num("20"))]);
    let field_path_parts = parts(&[]);
    let field_name = "a".to_string();
    let results = search_json_value(
        &json_value,
        &field_path_parts,
        &field_name,
        Vec::new(),
        &context(">=10<20", false, true),
    )
    .unwrap_or_default();
    assert_eq!(results, vec![]);
}

#[test]
fn test_search_json_value_numeric_range_invalid_range_format() {
    let json_value = obj(vec![("a", num("15"))]);
    let field_path_parts = parts(&[]);
    let field_name = "a".to_string();
    let results = search_json_value(
        &json_value,
        &field_path_parts,
        &field_name,
        Vec::new(),
        &context("10<><20", false, true),
    )
    .unwrap_or_default();
    assert_eq!(results, vec![]);
}

#[test]
fn test_search_json_value_numeric_range_mixed_operators() {
    let json_value = obj(vec![("a", num("12"))]);
    let field_path_parts = parts(&[]);
    let field_name = "a".to_string();
    let results = search_json_value(
        &json_value,
        &field_path_parts,
        &field_name,
        Vec::new(),
        &context(">=10<=15", false, true),
    )
    .unwrap_or_default();
    assert_eq!(
        results,
        vec![SearchResult { json_path: path(&["a"]), value: num("12") }],
    );
}
