use srch::format::join_segments;
use srch::json::JsonNumber;
use srch::json::JsonValue;
use srch::num::NumericValue;
use srch::remove_whitespace::remove_whitespace;
use srch::search::path_matches;
use srch::syntax::ComparisonOperator;
use srch::syntax::NumericSearchTerm;
use srch::search::search_json_value;
use srch::search::SearchContext;
use srch::search::SearchResult;
use srch::syntax::parse_search_path;

fn build_obj(fields: Vec<(&str, JsonValue)>) -> JsonValue {
    JsonValue::Object(fields.into_iter().map(|(k, v)| (k.to_string(), v)).collect())
}

fn text_value(text: &str) -> JsonValue {
    JsonValue::Str(text.to_string())
}

fn number_value(text: &str) -> JsonValue {
    JsonValue::Number(JsonNumber::from_text(text).unwrap())
}

fn search_context(term: &str, single: bool, numeric: bool) -> SearchContext {
    SearchContext::new(term.to_string(), single, ".".to_string(), numeric).unwrap()
}

fn strings(segments: &[&str]) -> Vec<String> {
    segments.iter().map(|p| p.to_string()).collect()
}

/// An empty ancestor specification accepts at any depth.
#[test]
fn test_empty_spec_matches_at_depth() {
    let doc = build_obj(vec![("x", build_obj(vec![("y", build_obj(vec![("a", text_value("t"))]))]))]);
    let results = search_json_value(
        &doc,
        &strings(&[]),
        &"a".to_string(),
        Vec::new(),
        &search_context("t", false, false),
    )
    .unwrap_or_default();
    assert_eq!(
        results,
        vec![SearchResult { json_path: strings(&["x", "y", "a"]), value: text_value("t") }],
    );
}

/// The ancestor specification need not be contiguous in the path: the
/// segments only have to occur in order.
#[test]
fn test_spec_matches_as_subsequence() {
    let doc = build_obj(vec![(
        "a",
        build_obj(vec![("x", build_obj(vec![("b", build_obj(vec![("f", text_value("t"))]))]))]),
    )]);
    let results = search_json_value(
        &doc,
        &strings(&["a", "b"]),
        &"f".to_string(),
        Vec::new(),
        &search_context("t", false, false),
    )
    .unwrap_or_default();
    assert_eq!(
        results,
        vec![SearchResult { json_path: strings(&["a", "x", "b", "f"]), value: text_value("t") }],
    );
    assert!(path_matches(&strings(&["a", "b"]), &strings(&["a", "x", "b"])));
    assert!(!path_matches(&strings(&["b", "a"]), &strings(&["a", "x", "b"])));
}

/// Single-result mode returns exactly the first element of the full
/// result list, and a child's match is found before the node's own.
#[test]
fn test_single_result_is_first_of_full_list() {
    let doc = build_obj(vec![
        ("a", text_value("x1")),
        ("sub", build_obj(vec![("a", text_value("x2"))])),
    ]);
    let full = search_json_value(
        &doc,
        &strings(&[]),
        &"a".to_string(),
        Vec::new(),
        &search_context("x", false, false),
    )
    .unwrap_or_default();
    assert_eq!(
        full,
        vec![
            SearchResult { json_path: strings(&["sub", "a"]), value: text_value("x2") },
            SearchResult { json_path: strings(&["a"]), value: text_value("x1") },
        ],
    );
    let single = search_json_value(
        &doc,
        &strings(&[]),
        &"a".to_string(),
        Vec::new(),
        &search_context("x", true, false),
    )
    .unwrap_or_default();
    assert_eq!(single.len(), 1);
    assert_eq!(single[0], full[0]);
}

/// A range holds exactly when both comparisons hold, and writing them in
/// the other order changes nothing.
#[test]
fn test_range_is_conjunction_of_comparisons() {
    let doc = build_obj(vec![("a", number_value("15"))]);
    let hit = |term: &str| {
        search_json_value(
            &doc,
            &strings(&[]),
            &"a".to_string(),
            Vec::new(),
            &search_context(term, false, true),
        )
        .is_some()
    };
    assert!(hit(">10<20"));
    assert!(hit("<20>10"));
    assert!(hit(">10"));
    assert!(hit("<20"));
    assert!(!hit(">16<20"));
    assert!(!hit(">10<14"));
    // A syntactically valid range that no value satisfies is accepted
    // and simply never matches.
    assert!(!hit("<10>20"));
}

/// Parsing a path-spec and joining its segments again with the same
/// separator reproduces the ancestor-path part of the expression.
#[test]
fn test_parse_then_join_restores_ancestor_path() {
    let (segments, field) = parse_search_path("a.b.c.field", ".").unwrap();
    assert_eq!(join_segments(&segments, "."), "a.b.c");
    assert_eq!(field, "field");

    let (segments, _) = parse_search_path("one//two//three//f", "//").unwrap();
    assert_eq!(segments, vec!["one".to_string(), "two".to_string(), "three".to_string()]);
    assert_eq!(join_segments(&segments, "//"), "one//two//three");

    let (segments, _) = parse_search_path(".f", ".").unwrap();
    assert_eq!(join_segments(&segments, "."), "");
}

/// An empty separator never yields a field name.
#[test]
fn test_empty_separator_is_malformed() {
    let result = parse_search_path("abc", "");
    assert_eq!(
        result,
        Err("Invalid search term format. Field name or expected value is empty.".to_string())
    );
}

/// An invalid regular expression is reported when the context is built,
/// before any traversal.
#[test]
fn test_invalid_regex_is_rejected() {
    assert!(SearchContext::new("foo(bar".to_string(), false, ".".to_string(), false).is_err());
    assert!(SearchContext::new("foo(bar)".to_string(), false, ".".to_string(), false).is_ok());
}

/// The search term is a real regular expression, not a literal.
#[test]
fn test_regex_is_matched_as_regex() {
    let doc = build_obj(vec![("a", text_value("text"))]);
    let hit = |term: &str| {
        search_json_value(
            &doc,
            &strings(&[]),
            &"a".to_string(),
            Vec::new(),
            &search_context(term, false, false),
        )
        .is_some()
    };
    assert!(hit("te.t"));
    assert!(hit("^text$"));
    assert!(!hit("^ext$"));
    assert!(hit("ext"));
}

/// Booleans match through their words, unquoted strings through their
/// text, numbers through their rendering; null never matches.
#[test]
fn test_scalar_string_forms() {
    let doc = build_obj(vec![
        ("flag", JsonValue::Bool(true)),
        ("count", number_value("30")),
        ("nothing", JsonValue::Null),
    ]);
    let search = |field: &str, term: &str| {
        search_json_value(
            &doc,
            &strings(&[]),
            &field.to_string(),
            Vec::new(),
            &search_context(term, false, false),
        )
        .is_some()
    };
    assert!(search("flag", "tru"));
    assert!(search("flag", "^true$"));
    assert!(search("count", "^30$"));
    assert!(!search("nothing", "null"));
}

/// A numeric predicate never matches a value that is not a number, even
/// one that spells a number.
#[test]
fn test_numeric_predicate_needs_a_number() {
    let doc = build_obj(vec![("a", text_value("10"))]);
    let results = search_json_value(
        &doc,
        &strings(&[]),
        &"a".to_string(),
        Vec::new(),
        &search_context(">5", false, true),
    );
    assert_eq!(results, None);
}

/// Numerals are compared by value, not by spelling.
#[test]
fn test_numeral_normalization() {
    assert_eq!(
        JsonNumber::from_text("1e3").unwrap().value,
        JsonNumber::from_text("1000").unwrap().value
    );
    assert_eq!(
        JsonNumber::from_text("10.0").unwrap().value,
        JsonNumber::from_text("10").unwrap().value
    );
    assert_eq!(
        JsonNumber::from_text("-0.0").unwrap().value,
        NumericValue::Zero
    );
    assert_eq!(
        JsonNumber::from_text("0.5").unwrap().value,
        NumericValue::Decimal { negative: false, digits: vec!['5'], exponent: 0 }
    );
    assert_eq!(
        JsonNumber::from_text("5.").unwrap().value,
        JsonNumber::from_text("5").unwrap().value
    );
    assert_eq!(JsonNumber::from_text("1e"), None);
    assert_eq!(JsonNumber::from_text("."), None);
    assert_eq!(JsonNumber::from_text("--5"), None);
}

/// Equality against a negative decimal, and ordering across signs.
#[test]
fn test_negative_numbers() {
    let doc = build_obj(vec![("a", number_value("-2.5"))]);
    let hit = |term: &str| {
        search_json_value(
            &doc,
            &strings(&[]),
            &"a".to_string(),
            Vec::new(),
            &search_context(term, false, true),
        )
        .is_some()
    };
    assert!(hit("==-2.5"));
    assert!(hit("<0"));
    assert!(hit(">-3"));
    assert!(!hit(">0"));
    assert!(hit(">=-2.5<0"));
}

/// Each operator is recognised exactly, and nothing else is.
#[test]
fn test_comparison_operator_from_str() {
    assert_eq!(ComparisonOperator::from_str("<"), Some(ComparisonOperator::LessThan));
    assert_eq!(ComparisonOperator::from_str("<="), Some(ComparisonOperator::LessThanOrEqual));
    assert_eq!(ComparisonOperator::from_str(">"), Some(ComparisonOperator::GreaterThan));
    assert_eq!(ComparisonOperator::from_str(">="), Some(ComparisonOperator::GreaterThanOrEqual));
    assert_eq!(ComparisonOperator::from_str("=="), Some(ComparisonOperator::Equal));
    assert_eq!(ComparisonOperator::from_str("="), None);
    assert_eq!(ComparisonOperator::from_str("<<"), None);
    assert_eq!(ComparisonOperator::from_str(""), None);
    assert_eq!(ComparisonOperator::from_str("<=="), None);
}

/// Whitespace removal follows Unicode's notion of white space.
#[test]
fn test_remove_unicode_whitespace() {
    assert_eq!(remove_whitespace("a\u{00A0}b"), "ab");
    assert_eq!(remove_whitespace("a\u{2003}b\u{3000}c"), "abc");
    assert_eq!(remove_whitespace("a\u{200B}b"), "a\u{200B}b");
}

/// No comparison with not-a-number holds, not even equality; the
/// infinities sit above and below every finite value.
#[test]
fn test_nan_and_infinity_comparisons() {
    let term = NumericSearchTerm::from_search_term(">nan").unwrap();
    assert!(!term.matches(&JsonNumber::from_text("5").unwrap().value));
    let term = NumericSearchTerm::from_search_term("==nan").unwrap();
    assert!(!term.matches(&NumericValue::Nan));
    let term = NumericSearchTerm::from_search_term("<inf").unwrap();
    assert!(term.matches(&JsonNumber::from_text("1e308").unwrap().value));
    let term = NumericSearchTerm::from_search_term(">-inf").unwrap();
    assert!(term.matches(&JsonNumber::from_text("-1e308").unwrap().value));
}

/// An empty document, or a scalar at the root, yields no results.
#[test]
fn test_searching_nothing() {
    let empty = JsonValue::Object(Vec::new());
    let results = search_json_value(
        &empty,
        &strings(&[]),
        &"a".to_string(),
        Vec::new(),
        &search_context("x", false, false),
    );
    assert_eq!(results, None);
    let scalar = text_value("x");
    let results = search_json_value(
        &scalar,
        &strings(&[]),
        &"a".to_string(),
        Vec::new(),
        &search_context("x", false, false),
    );
    assert_eq!(results, None);
}
