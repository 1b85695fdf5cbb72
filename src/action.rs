//! Action kinds, the outcome record an action run returns, and the outcome of
//! a branching node.

use vstd::prelude::*;

use crate::edge::{handle_of_name, FixedHandle, HandleView, SourceHandle};
use crate::error::{error_text, ActflowError};
use crate::json::{lookup, JsonValue, Vars};

verus! {

/// Which action a node runs.
#[derive(Debug, Clone, Copy, PartialEq, Eq, Structural)]
pub enum ActionType {
    Unset,
    Agent,
    Code,
    HttpRequest,
    IfElse,
    Start,
}

/// How one run of an action ended.
#[derive(Debug, Clone, Copy, PartialEq, Eq, Structural)]
pub enum NodeExecutionStatus {
    Pending,
    Succeeded,
    Failed,
    Exception,
    Stopped,
    Paused,
}

/// What one run of an action returns.
#[derive(Debug)]
pub struct ActionOutput {
    pub status: NodeExecutionStatus,
    pub outputs: Vars,
    /// The reason of a failure.
    pub error: Option<String>,
    /// The message of an exception.
    pub exception: Option<String>,
}

impl ActionOutput {
    /// A successful run with these outputs.
    pub fn success(outputs: Vars) -> (r: ActionOutput)
        ensures
            r.status == NodeExecutionStatus::Succeeded,
            r.outputs == outputs,
            r.error is None,
            r.exception is None,
    {
        ActionOutput { status: NodeExecutionStatus::Succeeded, outputs, error: None, exception: None }
    }

    /// A failed run.
    pub fn failed(error: String) -> (r: ActionOutput)
        ensures
            r.status == NodeExecutionStatus::Failed,
            r.outputs@.len() == 0,
            r.error == Some(error),
            r.exception is None,
    {
        ActionOutput { status: NodeExecutionStatus::Failed, outputs: Vars::new(), error: Some(error), exception: None }
    }

    /// A run that raised an exception.
    pub fn exception(message: String) -> (r: ActionOutput)
        ensures
            r.status == NodeExecutionStatus::Exception,
            r.outputs@.len() == 0,
            r.error is None,
            r.exception == Some(message),
    {
        ActionOutput {
            status: NodeExecutionStatus::Exception,
            outputs: Vars::new(),
            error: None,
            exception: Some(message),
        }
    }

    /// A run that was stopped.
    pub fn stopped() -> (r: ActionOutput)
        ensures
            r.status == NodeExecutionStatus::Stopped,
            r.outputs@.len() == 0,
            r.error is None,
            r.exception is None,
    {
        ActionOutput { status: NodeExecutionStatus::Stopped, outputs: Vars::new(), error: None, exception: None }
    }
}

/// The result of running a node once.
#[derive(Debug)]
pub struct NodeResult {
    pub status: NodeExecutionStatus,
    pub outputs: Vars,
    pub error: Option<String>,
    pub exception: Option<String>,
}

impl NodeResult {
    /// The result an action's outcome gives.
    pub fn from_output(output: ActionOutput) -> (r: NodeResult)
        ensures
            r.status == output.status,
            r.outputs == output.outputs,
            r.error == output.error,
            r.exception == output.exception,
    {
        NodeResult { status: output.status, outputs: output.outputs, error: output.error, exception: output.exception }
    }

    /// The result of a run that returned an outcome or raised an error; an
    /// error becomes an exception carrying its text.
    pub fn from_result_output(output: Result<ActionOutput, ActflowError>) -> (r: NodeResult)
        ensures
            output matches Ok(o) ==> r.status == o.status && r.outputs == o.outputs && r.error == o.error
                && r.exception == o.exception,
            output matches Err(e) ==> r.status == NodeExecutionStatus::Exception && r.outputs@.len() == 0
                && r.error is None && (r.exception matches Some(m) && m@ == error_text(e)),
    {
        match output {
            Ok(o) => NodeResult::from_output(o),
            Err(e) => NodeResult {
                status: NodeExecutionStatus::Exception,
                outputs: Vars::new(),
                error: None,
                exception: Some(e.to_string()),
            },
        }
    }
}

pub open spec fn selected_key() -> Seq<char> {
    seq!['s', 'e', 'l', 'e', 'c', 't', 'e', 'd']
}

pub open spec fn result_key() -> Seq<char> {
    seq!['r', 'e', 's', 'u', 'l', 't']
}

/// Index of the first case that matched, among the first `n`.
pub open spec fn first_match(matched: Seq<bool>, n: int) -> Option<int>
    decreases n,
{
    if n <= 0 {
        None
    } else {
        match first_match(matched, n - 1) {
            Some(i) => Some(i),
            None => if matched[n - 1] {
                Some(n - 1)
            } else {
                None
            },
        }
    }
}

/// The case id a branching node selects: that of the first matching case,
/// or `false` when none matched.
pub open spec fn selected_case(case_ids: Seq<Seq<char>>, matched: Seq<bool>) -> Seq<char> {
    match first_match(matched, matched.len() as int) {
        Some(i) => case_ids[i],
        None => seq!['f', 'a', 'l', 's', 'e'],
    }
}

/// The outputs of a branching node whose cases, in order, have ids
/// `case_ids` and evaluated to `matched`: `result` tells whether one matched
/// and `selected` names the first that did, or is `false`.
pub fn if_else_outcome(case_ids: &Vec<String>, matched: &Vec<bool>) -> (r: ActionOutput)
    requires
        case_ids@.len() == matched@.len(),
    ensures
        r.status == NodeExecutionStatus::Succeeded,
        r.error is None,
        r.exception is None,
        lookup(r.outputs@, result_key()) == Some(JsonValue::Bool(first_match(matched@, matched@.len() as int) is Some)),
        (lookup(r.outputs@, selected_key()) matches Some(JsonValue::Str(s)) && s@ == selected_case(
            case_ids@.map_values(|c: String| c@),
            matched@,
        )),
{
    let ghost ids = case_ids@.map_values(|c: String| c@);
    let mut i: usize = 0;
    while i < matched.len()
        invariant
            i <= matched@.len(),
            case_ids@.len() == matched@.len(),
            first_match(matched@, i as int) is None,
        decreases matched@.len() - i,
    {
        if matched[i] {
            proof {
                lemma_first_match_stays(matched@, i as int + 1, matched@.len() as int);
            }
            return with_outcome(true, case_ids[i].clone());
        }
        i = i + 1;
    }
    proof {
        reveal_strlit("false");
    }
    with_outcome(false, "false".to_owned())
}

proof fn lemma_first_match_stays(matched: Seq<bool>, n: int, m: int)
    requires
        0 <= n <= m <= matched.len(),
        first_match(matched, n) is Some,
    ensures
        first_match(matched, m) == first_match(matched, n),
    decreases m - n,
{
    if n < m {
        lemma_first_match_stays(matched, n, m - 1);
    }
}

fn with_outcome(result: bool, selected: String) -> (r: ActionOutput)
    ensures
        r.status == NodeExecutionStatus::Succeeded,
        r.error is None,
        r.exception is None,
        lookup(r.outputs@, result_key()) == Some(JsonValue::Bool(result)),
        lookup(r.outputs@, selected_key()) == Some(JsonValue::Str(selected)),
{
    proof {
        reveal_strlit("result");
        reveal_strlit("selected");
        assert("result"@ =~= result_key());
        assert("selected"@ =~= selected_key());
        assert(result_key().len() != selected_key().len());
    }
    let mut v = Vars::new();
    v.set("result", JsonValue::Bool(result));
    let ghost v1 = v@;
    v.set("selected", JsonValue::Str(selected));
    proof {
        assert(lookup(v1, result_key()) == Some(JsonValue::Bool(result)));
        assert(lookup(v@, result_key()) == lookup(v1, result_key()));
        assert(lookup(v@, selected_key()) == Some(JsonValue::Str(selected)));
    }
    ActionOutput::success(v)
}

/// The handle a branching node's outputs select, if they name one.
pub open spec fn selected_handle_of(outputs: Seq<(String, JsonValue)>) -> Option<HandleView> {
    match lookup(outputs, selected_key()) {
        Some(JsonValue::Str(s)) => Some(handle_of_name(s@)),
        _ => None,
    }
}

/// The handle named by the `selected` output: `true` and `false` are the
/// reserved branches, any other name a free-form handle.
pub fn selected_handle(outputs: &Vars) -> (r: Option<SourceHandle>)
    ensures
        r matches Some(h) ==> selected_handle_of(outputs@) == Some(h@),
        r is None <==> selected_handle_of(outputs@) is None,
{
    proof {
        reveal_strlit("selected");
        assert("selected"@ =~= selected_key());
    }
    match outputs.get("selected") {
        Some(JsonValue::Str(s)) => Some(SourceHandle::from_name(s)),
        _ => None,
    }
}

/// When no case matches, a branching node selects `false` and so follows the
/// reserved `false` branch.
pub proof fn lemma_no_match_takes_false_branch(case_ids: Seq<Seq<char>>, matched: Seq<bool>)
    requires
        forall|i: int| 0 <= i < matched.len() ==> !(#[trigger] matched[i]),
    ensures
        selected_case(case_ids, matched) == seq!['f', 'a', 'l', 's', 'e'],
        handle_of_name(selected_case(case_ids, matched)) == HandleView::Fixed(FixedHandle::False),
{
    lemma_first_match_none(matched, matched.len() as int);
    assert(seq!['f', 'a', 'l', 's', 'e'] != seq!['s', 'o', 'u', 'r', 'c', 'e']);
    assert(seq!['f', 'a', 'l', 's', 'e'] != seq!['t', 'r', 'u', 'e']);
}

proof fn lemma_first_match_none(matched: Seq<bool>, n: int)
    requires
        0 <= n <= matched.len(),
        forall|i: int| 0 <= i < matched.len() ==> !(#[trigger] matched[i]),
    ensures
        first_match(matched, n) is None,
    decreases n,
{
    if n > 0 {
        lemma_first_match_none(matched, n - 1);
    }
}

} // verus!
