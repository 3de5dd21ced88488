use srch::num::NumericValue;
use srch::syntax::parse_search_path;
use srch::syntax::ComparisonOperator;
use srch::syntax::NumericSearchTerm;

fn decimal(negative: bool, digits: &str, exponent: i128) -> NumericValue {
    NumericValue::Decimal { negative, digits: digits.chars().collect(), exponent }
}

#[test]
fn test_parse_search_path_valid_with_path() {
    let search_path = "a.b.c.field";
    let field_path_separator = ".";
    let result = parse_search_path(search_path, field_path_separator);
    assert_eq!(
        result,
        Ok((
            vec!["a".to_string(), "b".to_string(), "c".to_string()],
            "field".to_string()
        ))
    );
}

#[test]
fn test_parse_search_path_valid_without_path() {
    let search_path = "field";
    let field_path_separator = ".";
    let result = parse_search_path(search_path, field_path_separator);
    assert_eq!(result, Ok((vec![], "field".to_string())));
}

#[test]
fn test_parse_search_path_valid_with_different_separator() {
    let search_path = "a/b/c/field";
    let field_path_separator = "/";
    let result = parse_search_path(search_path, field_path_separator);
    assert_eq!(
        result,
        Ok((
            vec!["a".to_string(), "b".to_string(), "c".to_string()],
            "field".to_string()
        ))
    );
}

#[test]
fn test_parse_search_path_empty_field_name() {
    let search_path = "a.b.c.";
    let field_path_separator = ".";
    let result = parse_search_path(search_path, field_path_separator);
    assert_eq!(
        result,
        Err("Invalid search term format. Field name or expected value is empty.".to_string())
    );
}

#[test]
fn test_parse_search_path_empty_search_path() {
    let search_path = "";
    let field_path_separator = ".";
    let result = parse_search_path(search_path, field_path_separator);
    assert_eq!(
        result,
        Err("Invalid search term format. Field name or expected value is empty.".to_string())
    );
}

#[test]
fn test_parse_search_path_only_separator() {
    let search_path = ".";
    let field_path_separator = ".";
    let result = parse_search_path(search_path, field_path_separator);
    assert_eq!(
        result,
        Err("Invalid search term format. Field name or expected value is empty.".to_string())
    );
}

#[test]
fn test_parse_search_path_multiple_separators_no_field_name() {
    let search_path = "a.b.c..";
    let field_path_separator = ".";
    let result = parse_search_path(search_path, field_path_separator);
    assert_eq!(
        result,
        Err("Invalid search term format. Field name or expected value is empty.".to_string())
    );
}

#[test]
fn test_parse_search_path_field_name_with_separator_char() {
    let search_path = "a.b.c.field";
    let field_path_separator = ".";
    let result = parse_search_path(search_path, field_path_separator);
    assert_eq!(
        result,
        Ok((
            vec!["a".to_string(), "b".to_string(), "c".to_string()],
            "field".to_string()
        ))
    );
}

#[test]
fn test_parse_numeric_search_term_valid() {
    assert_eq!(
        NumericSearchTerm::from_search_term("<=10"),
        Some(NumericSearchTerm::SingleComparison(
            ComparisonOperator::LessThanOrEqual,
            decimal(false, "1", 2)
        ))
    );
    assert_eq!(
        NumericSearchTerm::from_search_term(">=20"),
        Some(NumericSearchTerm::SingleComparison(
            ComparisonOperator::GreaterThanOrEqual,
            decimal(false, "2", 2)
        ))
    );
    assert_eq!(
        NumericSearchTerm::from_search_term("<5"),
        Some(NumericSearchTerm::SingleComparison(
            ComparisonOperator::LessThan,
            decimal(false, "5", 1)
        ))
    );
    assert_eq!(
        NumericSearchTerm::from_search_term(">25"),
        Some(NumericSearchTerm::SingleComparison(
            ComparisonOperator::GreaterThan,
            decimal(false, "25", 2)
        ))
    );
}

#[test]
fn test_parse_numeric_search_term_invalid() {
    assert_eq!(NumericSearchTerm::from_search_term("!=10"), None);
    assert_eq!(NumericSearchTerm::from_search_term("~10"), None);
    assert_eq!(NumericSearchTerm::from_search_term("=10"), None);
    assert_eq!(NumericSearchTerm::from_search_term("10<"), None);
    assert_eq!(NumericSearchTerm::from_search_term("10>"), None);
    assert_eq!(NumericSearchTerm::from_search_term("10<="), None);
    assert_eq!(NumericSearchTerm::from_search_term("10>="), None);
}

#[test]
fn test_parse_numeric_search_term_no_operator() {
    assert_eq!(NumericSearchTerm::from_search_term("10"), None);
    assert_eq!(NumericSearchTerm::from_search_term("abc"), None);
    assert_eq!(NumericSearchTerm::from_search_term(""), None);
}

#[test]
fn test_parse_numeric_range_term_valid() {
    assert_eq!(
        NumericSearchTerm::from_search_term(">10<20"),
        Some(NumericSearchTerm::RangeComparison(
            ComparisonOperator::GreaterThan,
            decimal(false, "1", 2),
            ComparisonOperator::LessThan,
            decimal(false, "2", 2)
        ))
    );
    assert_eq!(
        NumericSearchTerm::from_search_term(">=5<=15"),
        Some(NumericSearchTerm::RangeComparison(
            ComparisonOperator::GreaterThanOrEqual,
            decimal(false, "5", 1),
            ComparisonOperator::LessThanOrEqual,
            decimal(false, "15", 2)
        ))
    );
    assert_eq!(
        NumericSearchTerm::from_search_term("<=25>=1"),
        Some(NumericSearchTerm::RangeComparison(
            ComparisonOperator::LessThanOrEqual,
            decimal(false, "25", 2),
            ComparisonOperator::GreaterThanOrEqual,
            decimal(false, "1", 1)
        ))
    );
    assert_eq!(
        NumericSearchTerm::from_search_term(">=1<=25"),
        Some(NumericSearchTerm::RangeComparison(
            ComparisonOperator::GreaterThanOrEqual,
            decimal(false, "1", 1),
            ComparisonOperator::LessThanOrEqual,
            decimal(false, "25", 2)
        ))
    );
}

#[test]
fn test_parse_numeric_range_term_invalid() {
    assert_eq!(NumericSearchTerm::from_search_term(">10-20"), None);
    assert_eq!(NumericSearchTerm::from_search_term("10"), None);
    assert_eq!(NumericSearchTerm::from_search_term("><1020"), None);
    assert_eq!(NumericSearchTerm::from_search_term("1020<>"), None);
    assert_eq!(NumericSearchTerm::from_search_term("=10<20"), None);
    assert_eq!(NumericSearchTerm::from_search_term(">10=20"), None);
}

#[test]
fn test_parse_numeric_range_term_single_number_search() {
    assert_eq!(NumericSearchTerm::from_search_term("10"), None);
    assert_eq!(NumericSearchTerm::from_search_term("abc"), None);
}

#[test]
fn test_parse_numeric_range_term_empty() {
    assert_eq!(NumericSearchTerm::from_search_term(""), None);
}

#[test]
fn test_parse_numeric_range_term_operators_only() {
    assert_eq!(NumericSearchTerm::from_search_term("><"), None);
    assert_eq!(NumericSearchTerm::from_search_term("<>"), None);
    assert_eq!(NumericSearchTerm::from_search_term(">="), None);
    assert_eq!(NumericSearchTerm::from_search_term("<="), None);
}
