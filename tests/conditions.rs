use actflow::if_else::{combine, evaluate_comparison, ComparisonOperator, ConditionValue, LogicalOperator};
use actflow::json::JsonValue;

fn s(v: &str) -> JsonValue {
    JsonValue::Str(v.to_string())
}

fn e(v: &str) -> ConditionValue {
    ConditionValue::Str(v.to_string())
}

fn list(v: &[&str]) -> ConditionValue {
    ConditionValue::List(v.iter().map(|x| x.to_string()).collect())
}

#[test]
fn string_operators() {
    let hello = s("hello world");
    assert_eq!(evaluate_comparison(Some(&hello), ComparisonOperator::Contains, Some(&e("o w"))), Some(true));
    assert_eq!(evaluate_comparison(Some(&hello), ComparisonOperator::NotContains, Some(&e("xyz"))), Some(true));
    assert_eq!(evaluate_comparison(Some(&hello), ComparisonOperator::StartWith, Some(&e("hello"))), Some(true));
    assert_eq!(evaluate_comparison(Some(&hello), ComparisonOperator::EndWith, Some(&e("hello"))), Some(false));
    assert_eq!(evaluate_comparison(Some(&hello), ComparisonOperator::EndWith, Some(&e("world"))), Some(true));
    assert_eq!(evaluate_comparison(Some(&hello), ComparisonOperator::Is, Some(&e("hello world"))), Some(true));
    assert_eq!(evaluate_comparison(Some(&hello), ComparisonOperator::IsNot, Some(&e("hello"))), Some(true));
    assert_eq!(evaluate_comparison(Some(&hello), ComparisonOperator::Eq, Some(&e("hello world"))), Some(true));
    assert_eq!(evaluate_comparison(Some(&hello), ComparisonOperator::Ne, Some(&e("hello world"))), Some(false));
}

#[test]
fn list_and_membership_operators() {
    let arr = JsonValue::Array(vec![s("a"), s("b"), JsonValue::Number("3".to_string())]);
    assert_eq!(evaluate_comparison(Some(&arr), ComparisonOperator::Contains, Some(&e("b"))), Some(true));
    assert_eq!(evaluate_comparison(Some(&arr), ComparisonOperator::AllOf, Some(&list(&["a", "b"]))), Some(true));
    assert_eq!(evaluate_comparison(Some(&arr), ComparisonOperator::AllOf, Some(&list(&["a", "c"]))), Some(false));
    assert_eq!(evaluate_comparison(Some(&s("b")), ComparisonOperator::In, Some(&list(&["a", "b"]))), Some(true));
    let three = JsonValue::Number("3".to_string());
    assert_eq!(evaluate_comparison(Some(&three), ComparisonOperator::In, Some(&list(&["3"]))), Some(true));
    assert_eq!(evaluate_comparison(Some(&s("ell")), ComparisonOperator::In, Some(&e("hello"))), Some(true));
    assert_eq!(evaluate_comparison(Some(&s("z")), ComparisonOperator::NotIn, Some(&list(&["a"]))), Some(true));
}

#[test]
fn null_and_empty_operators() {
    assert_eq!(evaluate_comparison(None, ComparisonOperator::Null, None), Some(true));
    assert_eq!(evaluate_comparison(Some(&JsonValue::Null), ComparisonOperator::NotNull, None), Some(false));
    assert_eq!(evaluate_comparison(Some(&s("")), ComparisonOperator::Empty, None), Some(true));
    assert_eq!(evaluate_comparison(Some(&JsonValue::Array(vec![])), ComparisonOperator::Empty, None), Some(true));
    assert_eq!(evaluate_comparison(Some(&JsonValue::Bool(false)), ComparisonOperator::NotEmpty, None), Some(true));
    assert_eq!(evaluate_comparison(None, ComparisonOperator::Contains, Some(&e("x"))), Some(false));
    assert_eq!(evaluate_comparison(Some(&s("x")), ComparisonOperator::Contains, None), Some(false));
}

#[test]
fn booleans_compare_with_their_names() {
    let t = JsonValue::Bool(true);
    assert_eq!(evaluate_comparison(Some(&t), ComparisonOperator::Is, Some(&e("true"))), Some(true));
    assert_eq!(evaluate_comparison(Some(&t), ComparisonOperator::Is, Some(&e("false"))), Some(false));
}

#[test]
fn numeric_comparisons_are_left_to_the_caller() {
    let n = JsonValue::Number("5".to_string());
    assert_eq!(evaluate_comparison(Some(&n), ComparisonOperator::Gt, Some(&e("3"))), None);
    assert_eq!(evaluate_comparison(Some(&n), ComparisonOperator::Eq, Some(&e("5"))), None);
    assert_eq!(evaluate_comparison(Some(&s("5")), ComparisonOperator::Gt, Some(&e("3"))), Some(false));
}

#[test]
fn cases_combine_by_logical_operator() {
    assert!(combine(LogicalOperator::And, &vec![true, true]));
    assert!(!combine(LogicalOperator::And, &vec![true, false]));
    assert!(combine(LogicalOperator::Or, &vec![false, true]));
    assert!(!combine(LogicalOperator::Or, &vec![]));
    assert!(combine(LogicalOperator::And, &vec![]));
}
