//! Conditions of a branching node: comparisons of a selected value with an
//! expected one, combined per case by `and` or `or`.

use vstd::prelude::*;

use crate::json::JsonValue;
use crate::text::{chars_of, occurs_at};

verus! {

#[derive(Debug, Clone, Copy, PartialEq, Eq, Structural)]
pub enum LogicalOperator {
    And,
    Or,
}

#[derive(Debug, Clone, Copy, PartialEq, Eq, Structural)]
pub enum ComparisonOperator {
    Contains,
    NotContains,
    StartWith,
    EndWith,
    Is,
    IsNot,
    Empty,
    NotEmpty,
    In,
    NotIn,
    AllOf,
    Eq,
    Ne,
    Gt,
    Lt,
    Ge,
    Le,
    Null,
    NotNull,
}

/// The value a condition compares with.
#[derive(Debug, Clone)]
pub enum ConditionValue {
    Str(String),
    List(Vec<String>),
}

/// `e` occurs somewhere in `s`.
pub open spec fn has_sub(s: Seq<char>, e: Seq<char>) -> bool {
    exists|i: int| 0 <= i && i + e.len() <= s.len() && #[trigger] s.subrange(i, i + e.len()) == e
}

pub open spec fn has_prefix(s: Seq<char>, e: Seq<char>) -> bool {
    e.len() <= s.len() && s.subrange(0, e.len() as int) == e
}

pub open spec fn has_suffix(s: Seq<char>, e: Seq<char>) -> bool {
    e.len() <= s.len() && s.subrange(s.len() - e.len(), s.len() as int) == e
}

/// Some string of `list` is `x`.
pub open spec fn list_has(list: Seq<String>, x: Seq<char>) -> bool {
    exists|i: int| 0 <= i < list.len() && (#[trigger] list[i])@ == x
}

/// Some item of `items` is the string `x`.
pub open spec fn items_have_str(items: Seq<JsonValue>, x: Seq<char>) -> bool {
    exists|i: int| 0 <= i < items.len() && (#[trigger] items[i] matches JsonValue::Str(s) && s@ == x)
}

pub open spec fn is_empty_value(actual: Option<JsonValue>) -> bool {
    match actual {
        None => true,
        Some(JsonValue::Null) => true,
        Some(JsonValue::Str(s)) => s@.len() == 0,
        Some(JsonValue::Array(a)) => a@.len() == 0,
        Some(JsonValue::Object(o)) => o@.len() == 0,
        _ => false,
    }
}

pub open spec fn contains_spec(a: JsonValue, e: ConditionValue) -> bool {
    match (a, e) {
        (JsonValue::Str(s), ConditionValue::Str(x)) => has_sub(s@, x@),
        (JsonValue::Array(items), ConditionValue::Str(x)) => items_have_str(items@, x@),
        _ => false,
    }
}

pub open spec fn is_spec(a: JsonValue, e: ConditionValue) -> bool {
    match (a, e) {
        (JsonValue::Str(s), ConditionValue::Str(x)) => s@ == x@,
        (JsonValue::Bool(b), ConditionValue::Str(x)) => (b && x@ == seq!['t', 'r', 'u', 'e']) || (!b && x@
            == seq!['f', 'a', 'l', 's', 'e']),
        _ => false,
    }
}

pub open spec fn in_spec(a: JsonValue, e: ConditionValue) -> bool {
    match e {
        ConditionValue::List(list) => match a {
            JsonValue::Str(s) => list_has(list@, s@),
            JsonValue::Number(n) => list_has(list@, n@),
            _ => false,
        },
        ConditionValue::Str(x) => match a {
            JsonValue::Str(s) => has_sub(x@, s@),
            _ => false,
        },
    }
}

pub open spec fn all_of_spec(a: JsonValue, e: ConditionValue) -> bool {
    match (a, e) {
        (JsonValue::Array(items), ConditionValue::List(list)) => forall|i: int|
            0 <= i < list@.len() ==> items_have_str(items@, (#[trigger] list@[i])@),
        _ => false,
    }
}

/// The comparison compares a number with a number's text: it is decided by
/// reading both as floating point numbers, which the caller does.
pub open spec fn is_numeric(a: JsonValue, op: ComparisonOperator, e: ConditionValue) -> bool {
    (op == ComparisonOperator::Eq || op == ComparisonOperator::Ne || op == ComparisonOperator::Gt || op
        == ComparisonOperator::Lt || op == ComparisonOperator::Ge || op == ComparisonOperator::Le) && a is Number
        && e is Str
}

/// The outcome of a comparison, or nothing when it is numeric.
pub open spec fn comparison(actual: Option<JsonValue>, op: ComparisonOperator, expected: Option<ConditionValue>) -> Option<bool> {
    match op {
        ComparisonOperator::Null => Some(actual is None || actual == Some(JsonValue::Null)),
        ComparisonOperator::NotNull => Some(actual is Some && actual != Some(JsonValue::Null)),
        ComparisonOperator::Empty => Some(is_empty_value(actual)),
        ComparisonOperator::NotEmpty => Some(!is_empty_value(actual)),
        _ => match (actual, expected) {
            (Some(a), Some(e)) => if is_numeric(a, op, e) {
                None
            } else {
                Some(
                    match op {
                        ComparisonOperator::Contains => contains_spec(a, e),
                        ComparisonOperator::NotContains => !contains_spec(a, e),
                        ComparisonOperator::StartWith => (a matches JsonValue::Str(s) && e matches ConditionValue::Str(x)
                            && has_prefix(s@, x@)),
                        ComparisonOperator::EndWith => (a matches JsonValue::Str(s) && e matches ConditionValue::Str(x)
                            && has_suffix(s@, x@)),
                        ComparisonOperator::Is => is_spec(a, e),
                        ComparisonOperator::IsNot => !is_spec(a, e),
                        ComparisonOperator::In => in_spec(a, e),
                        ComparisonOperator::NotIn => !in_spec(a, e),
                        ComparisonOperator::AllOf => all_of_spec(a, e),
                        ComparisonOperator::Eq => (a matches JsonValue::Str(s) && e matches ConditionValue::Str(x)
                            && s@ == x@),
                        ComparisonOperator::Ne => !(a matches JsonValue::Str(s) && e matches ConditionValue::Str(x)
                            && s@ == x@),
                        _ => false,
                    },
                )
            },
            _ => Some(false),
        },
    }
}

fn contains_text(s: &String, x: &String) -> (r: bool)
    ensures
        r == has_sub(s@, x@),
{
    let sc = chars_of(s.as_str());
    let xc = chars_of(x.as_str());
    let n = sc.len();
    if xc.len() > n {
        proof {
            assert forall|i: int| !(0 <= i && i + x@.len() <= s@.len() && #[trigger] s@.subrange(i, i + x@.len()) == x@) by {}
        }
        return false;
    }
    if xc.len() == 0 {
        proof {
            assert(s@.subrange(0, 0) =~= x@);
            assert(s@.subrange(0int, 0int + x@.len()) == x@);
        }
        return true;
    }
    let positions = n - xc.len() + 1;
    let mut i: usize = 0;
    while i < positions
        invariant
            sc@ == s@,
            xc@ == x@,
            n == sc@.len(),
            positions + xc@.len() == n + 1,
            i <= positions,
            forall|j: int| 0 <= j < i ==> #[trigger] sc@.subrange(j, j + xc@.len()) != xc@,
        decreases positions - i,
    {
        if occurs_at(&sc, &xc, i) {
            return true;
        }
        i = i + 1;
    }
    proof {
        assert forall|j: int| !(0 <= j && j + x@.len() <= s@.len() && #[trigger] s@.subrange(j, j + x@.len()) == x@) by {
            if 0 <= j && j + x@.len() <= s@.len() {
                assert(j < positions);
                assert(sc@.subrange(j, j + xc@.len()) != xc@);
            }
        }
    }
    false
}

fn prefix_text(s: &String, x: &String) -> (r: bool)
    ensures
        r == has_prefix(s@, x@),
{
    let sc = chars_of(s.as_str());
    let xc = chars_of(x.as_str());
    occurs_at(&sc, &xc, 0)
}

fn suffix_text(s: &String, x: &String) -> (r: bool)
    ensures
        r == has_suffix(s@, x@),
{
    let sc = chars_of(s.as_str());
    let xc = chars_of(x.as_str());
    if xc.len() > sc.len() {
        return false;
    }
    occurs_at(&sc, &xc, sc.len() - xc.len())
}

fn list_contains(list: &Vec<String>, x: &String) -> (r: bool)
    ensures
        r == list_has(list@, x@),
{
    let mut i: usize = 0;
    while i < list.len()
        invariant
            i <= list@.len(),
            forall|j: int| 0 <= j < i ==> (#[trigger] list@[j])@ != x@,
        decreases list@.len() - i,
    {
        if list[i] == *x {
            return true;
        }
        i = i + 1;
    }
    false
}

fn items_contain_str(items: &Vec<JsonValue>, x: &String) -> (r: bool)
    ensures
        r == items_have_str(items@, x@),
{
    let mut i: usize = 0;
    while i < items.len()
        invariant
            i <= items@.len(),
            forall|j: int| 0 <= j < i ==> !(#[trigger] items@[j] matches JsonValue::Str(s) && s@ == x@),
        decreases items@.len() - i,
    {
        match &items[i] {
            JsonValue::Str(s) => {
                if *s == *x {
                    return true;
                }
            },
            _ => {},
        }
        i = i + 1;
    }
    false
}

fn eval_contains(a: &JsonValue, e: &ConditionValue) -> (r: bool)
    ensures
        r == contains_spec(*a, *e),
{
    match (a, e) {
        (JsonValue::Str(s), ConditionValue::Str(x)) => contains_text(s, x),
        (JsonValue::Array(items), ConditionValue::Str(x)) => items_contain_str(items, x),
        _ => false,
    }
}

fn eval_is(a: &JsonValue, e: &ConditionValue) -> (r: bool)
    ensures
        r == is_spec(*a, *e),
{
    proof {
        reveal_strlit("true");
        reveal_strlit("false");
        assert("true"@ =~= seq!['t', 'r', 'u', 'e']);
        assert("false"@ =~= seq!['f', 'a', 'l', 's', 'e']);
    }
    match (a, e) {
        (JsonValue::Str(s), ConditionValue::Str(x)) => *s == *x,
        (JsonValue::Bool(b), ConditionValue::Str(x)) => {
            let t = "true".to_owned();
            let f = "false".to_owned();
            (*b && *x == t) || (!*b && *x == f)
        },
        _ => false,
    }
}

fn eval_in(a: &JsonValue, e: &ConditionValue) -> (r: bool)
    ensures
        r == in_spec(*a, *e),
{
    match e {
        ConditionValue::List(list) => match a {
            JsonValue::Str(s) => list_contains(list, s),
            JsonValue::Number(n) => list_contains(list, n),
            _ => false,
        },
        ConditionValue::Str(x) => match a {
            JsonValue::Str(s) => contains_text(x, s),
            _ => false,
        },
    }
}

fn eval_all_of(a: &JsonValue, e: &ConditionValue) -> (r: bool)
    ensures
        r == all_of_spec(*a, *e),
{
    match (a, e) {
        (JsonValue::Array(items), ConditionValue::List(list)) => {
            let mut i: usize = 0;
            while i < list.len()
                invariant
                    i <= list@.len(),
                    forall|j: int| 0 <= j < i ==> items_have_str(items@, (#[trigger] list@[j])@),
                    *a is Array,
                    a->Array_0 == *items,
                    *e is List,
                    e->List_0 == *list,
                decreases list@.len() - i,
            {
                if !items_contain_str(items, &list[i]) {
                    proof {
                        assert(!items_have_str(items@, (list@[i as int])@));
                        assert(!all_of_spec(*a, *e));
                    }
                    return false;
                }
                i = i + 1;
            }
            true
        },
        _ => false,
    }
}

fn empty_value(actual: Option<&JsonValue>) -> (r: bool)
    ensures
        r == is_empty_value(match actual {
            Some(v) => Some(*v),
            None => None,
        }),
{
    match actual {
        None => true,
        Some(JsonValue::Null) => true,
        Some(JsonValue::Str(s)) => chars_of(s.as_str()).len() == 0,
        Some(JsonValue::Array(a)) => a.len() == 0,
        Some(JsonValue::Object(o)) => o.len() == 0,
        _ => false,
    }
}

/// Compares the selected value (nothing when the selector reached nothing)
/// with the expected one. Returns nothing for a numeric comparison of a
/// number with a number's text, which the caller decides by reading both as
/// floating point numbers.
pub fn evaluate_comparison(actual: Option<&JsonValue>, operator: ComparisonOperator, expected: Option<&ConditionValue>) -> (r: Option<bool>)
    ensures
        r == comparison(
            match actual {
                Some(v) => Some(*v),
                None => None,
            },
            operator,
            match expected {
                Some(v) => Some(*v),
                None => None,
            },
        ),
{
    match operator {
        ComparisonOperator::Null => Some(
            match actual {
                None => true,
                Some(JsonValue::Null) => true,
                _ => false,
            },
        ),
        ComparisonOperator::NotNull => Some(
            match actual {
                None => false,
                Some(JsonValue::Null) => false,
                _ => true,
            },
        ),
        ComparisonOperator::Empty => Some(empty_value(actual)),
        ComparisonOperator::NotEmpty => Some(!empty_value(actual)),
        _ => match (actual, expected) {
            (Some(a), Some(e)) => {
                let numeric = match (a, e) {
                    (JsonValue::Number(_), ConditionValue::Str(_)) => match operator {
                        ComparisonOperator::Eq | ComparisonOperator::Ne | ComparisonOperator::Gt
                        | ComparisonOperator::Lt | ComparisonOperator::Ge | ComparisonOperator::Le => true,
                        _ => false,
                    },
                    _ => false,
                };
                if numeric {
                    return None;
                }
                let string_pair = match (a, e) {
                    (JsonValue::Str(s), ConditionValue::Str(x)) => Some((s, x)),
                    _ => None,
                };
                let b = match operator {
                    ComparisonOperator::Contains => eval_contains(a, e),
                    ComparisonOperator::NotContains => !eval_contains(a, e),
                    ComparisonOperator::StartWith => match string_pair {
                        Some((s, x)) => prefix_text(s, x),
                        None => false,
                    },
                    ComparisonOperator::EndWith => match string_pair {
                        Some((s, x)) => suffix_text(s, x),
                        None => false,
                    },
                    ComparisonOperator::Is => eval_is(a, e),
                    ComparisonOperator::IsNot => !eval_is(a, e),
                    ComparisonOperator::In => eval_in(a, e),
                    ComparisonOperator::NotIn => !eval_in(a, e),
                    ComparisonOperator::AllOf => eval_all_of(a, e),
                    ComparisonOperator::Eq => match string_pair {
                        Some((s, x)) => *s == *x,
                        None => false,
                    },
                    ComparisonOperator::Ne => match string_pair {
                        Some((s, x)) => !(*s == *x),
                        None => true,
                    },
                    _ => false,
                };
                Some(b)
            },
            _ => Some(false),
        },
    }
}

/// Whether a case holds: all results under `and`, any under `or`.
pub open spec fn combined(op: LogicalOperator, results: Seq<bool>) -> bool {
    match op {
        LogicalOperator::And => forall|i: int| 0 <= i < results.len() ==> #[trigger] results[i],
        LogicalOperator::Or => exists|i: int| 0 <= i < results.len() && #[trigger] results[i],
    }
}

/// Combines the results of a case's conditions.
pub fn combine(op: LogicalOperator, results: &Vec<bool>) -> (r: bool)
    ensures
        r == combined(op, results@),
{
    let mut i: usize = 0;
    while i < results.len()
        invariant
            i <= results@.len(),
            forall|j: int| 0 <= j < i ==> (#[trigger] results@[j]) == (op == LogicalOperator::Or ==> false) || (
            op == LogicalOperator::And && results@[j]),
            op == LogicalOperator::And ==> forall|j: int| 0 <= j < i ==> #[trigger] results@[j],
            op == LogicalOperator::Or ==> forall|j: int| 0 <= j < i ==> !#[trigger] results@[j],
        decreases results@.len() - i,
    {
        match op {
            LogicalOperator::And => {
                if !results[i] {
                    return false;
                }
            },
            LogicalOperator::Or => {
                if results[i] {
                    return true;
                }
            },
        }
        i = i + 1;
    }
    match op {
        LogicalOperator::And => true,
        LogicalOperator::Or => false,
    }
}

} // verus!
