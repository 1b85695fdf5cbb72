//! Finding the entry point of user code: the first function the source
//! defines.

use vstd::prelude::*;

use crate::error::ActflowError;
use crate::text::{chars_of, occurs_at, string_of};

verus! {

pub open spec fn is_space(c: char) -> bool {
    c == ' ' || c == '\t' || c == '\n' || c == '\r' || c == '\u{b}' || c == '\u{c}'
}

pub open spec fn is_ident_start(c: char) -> bool {
    c == '_' || ('a' <= c && c <= 'z') || ('A' <= c && c <= 'Z')
}

pub open spec fn is_ident_char(c: char) -> bool {
    is_ident_start(c) || ('0' <= c && c <= '9')
}

/// First position at or after `p` that is not a space.
pub open spec fn space_end(s: Seq<char>, p: int) -> int
    decreases s.len() - p,
{
    if p >= s.len() || !is_space(s[p]) {
        p
    } else {
        space_end(s, p + 1)
    }
}

/// First position at or after `p` that is not an identifier character.
pub open spec fn ident_end(s: Seq<char>, p: int) -> int
    decreases s.len() - p,
{
    if p >= s.len() || !is_ident_char(s[p]) {
        p
    } else {
        ident_end(s, p + 1)
    }
}

/// The name defined at `i`: the keyword, at least one space, an identifier,
/// optional spaces and `(`.
pub open spec fn name_at(s: Seq<char>, kw: Seq<char>, i: int) -> Option<Seq<char>> {
    if 0 <= i && i + kw.len() <= s.len() && s.subrange(i, i + kw.len()) == kw {
        let p = i + kw.len();
        let q = space_end(s, p);
        if q > p && q < s.len() && is_ident_start(s[q]) {
            let e = ident_end(s, q + 1);
            let t = space_end(s, e);
            if t < s.len() && s[t] == '(' {
                Some(s.subrange(q, e))
            } else {
                None
            }
        } else {
            None
        }
    } else {
        None
    }
}

/// The name of the first definition at or after `i`.
pub open spec fn first_name(s: Seq<char>, kw: Seq<char>, i: int) -> Option<Seq<char>>
    decreases s.len() - i,
{
    if i < 0 || i >= s.len() {
        None
    } else {
        match name_at(s, kw, i) {
            Some(n) => Some(n),
            None => first_name(s, kw, i + 1),
        }
    }
}

fn skip_spaces(s: &Vec<char>, p: usize) -> (r: usize)
    requires
        p <= s@.len(),
    ensures
        r as int == space_end(s@, p as int),
        p <= r <= s@.len(),
{
    let mut q = p;
    while q < s.len() && (s[q] == ' ' || s[q] == '\t' || s[q] == '\n' || s[q] == '\r' || s[q] == '\u{b}' || s[q] == '\u{c}')
        invariant
            p <= q <= s@.len(),
            space_end(s@, q as int) == space_end(s@, p as int),
        decreases s@.len() - q,
    {
        q = q + 1;
    }
    q
}

fn skip_ident(s: &Vec<char>, p: usize) -> (r: usize)
    requires
        p <= s@.len(),
    ensures
        r as int == ident_end(s@, p as int),
        p <= r <= s@.len(),
{
    let mut q = p;
    while q < s.len() && (s[q] == '_' || ('a' <= s[q] && s[q] <= 'z') || ('A' <= s[q] && s[q] <= 'Z') || (
    '0' <= s[q] && s[q] <= '9'))
        invariant
            p <= q <= s@.len(),
            ident_end(s@, q as int) == ident_end(s@, p as int),
        decreases s@.len() - q,
    {
        q = q + 1;
    }
    q
}

/// The name of the first function that `code` defines with keyword `kw`.
fn first_function_name(code: &str, keyword: &str) -> (r: Option<String>)
    ensures
        r matches Some(n) ==> first_name(code@, keyword@, 0) == Some(n@),
        r is None <==> first_name(code@, keyword@, 0) is None,
{
    let s = chars_of(code);
    let kw = chars_of(keyword);
    let mut i: usize = 0;
    while i < s.len()
        invariant
            i <= s@.len(),
            s@ == code@,
            kw@ == keyword@,
            first_name(s@, kw@, i as int) == first_name(s@, kw@, 0),
        decreases s@.len() - i,
    {
        if occurs_at(&s, &kw, i) {
            let p = i + kw.len();
            let q = skip_spaces(&s, p);
            if q > p && q < s.len() && (s[q] == '_' || ('a' <= s[q] && s[q] <= 'z') || ('A' <= s[q] && s[q] <= 'Z')) {
                let e = skip_ident(&s, q + 1);
                let t = skip_spaces(&s, e);
                if t < s.len() && s[t] == '(' {
                    let mut name: Vec<char> = Vec::new();
                    let mut k = q;
                    while k < e
                        invariant
                            q <= k <= e,
                            e <= s@.len(),
                            name@ == s@.subrange(q as int, k as int),
                        decreases e - k,
                    {
                        name.push(s[k]);
                        k = k + 1;
                        proof {
                            assert(name@ =~= s@.subrange(q as int, k as int));
                        }
                    }
                    return Some(string_of(&name));
                }
            }
        }
        i = i + 1;
    }
    None
}

/// Finds entry points of JavaScript code.
pub struct JavascriptExecutor;

/// Finds entry points of Python code.
pub struct PythonExecutor;

pub open spec fn js_keyword() -> Seq<char> {
    seq!['f', 'u', 'n', 'c', 't', 'i', 'o', 'n']
}

pub open spec fn py_keyword() -> Seq<char> {
    seq!['d', 'e', 'f']
}

impl JavascriptExecutor {
    /// The name of the first `function name(` in the code.
    pub fn extract_javascript_function_name(code: &str) -> (r: Option<String>)
        ensures
            r matches Some(n) ==> first_name(code@, js_keyword(), 0) == Some(n@),
            r is None <==> first_name(code@, js_keyword(), 0) is None,
    {
        proof {
            reveal_strlit("function");
            assert("function"@ =~= js_keyword());
        }
        first_function_name(code, "function")
    }

    /// The function to call in the code, or the error that none is defined.
    pub fn entry_point(code: &str) -> (r: Result<String, ActflowError>)
        ensures
            r matches Ok(n) ==> first_name(code@, js_keyword(), 0) == Some(n@),
            r is Err <==> first_name(code@, js_keyword(), 0) is None,
            r matches Err(e) ==> e matches ActflowError::Runtime(m) && m@ == no_function_js(),
    {
        match JavascriptExecutor::extract_javascript_function_name(code) {
            Some(n) => Ok(n),
            None => {
                proof {
                    reveal_strlit("No function found in code");
                }
                Err(ActflowError::Runtime("No function found in code".to_owned()))
            },
        }
    }
}

impl PythonExecutor {
    /// The name of the first `def name(` in the code.
    pub fn extract_python_function_name(code: &str) -> (r: Option<String>)
        ensures
            r matches Some(n) ==> first_name(code@, py_keyword(), 0) == Some(n@),
            r is None <==> first_name(code@, py_keyword(), 0) is None,
    {
        proof {
            reveal_strlit("def");
            assert("def"@ =~= py_keyword());
        }
        first_function_name(code, "def")
    }

    /// The function to call in the code, or the error that none is defined.
    pub fn entry_point(code: &str) -> (r: Result<String, ActflowError>)
        ensures
            r matches Ok(n) ==> first_name(code@, py_keyword(), 0) == Some(n@),
            r is Err <==> first_name(code@, py_keyword(), 0) is None,
            r matches Err(e) ==> e matches ActflowError::Runtime(m) && m@ == no_function_py(),
    {
        match PythonExecutor::extract_python_function_name(code) {
            Some(n) => Ok(n),
            None => {
                proof {
                    reveal_strlit("No function found in Python code");
                }
                Err(ActflowError::Runtime("No function found in Python code".to_owned()))
            },
        }
    }
}

pub open spec fn no_function_js() -> Seq<char> {
    seq!['N', 'o', ' ', 'f', 'u', 'n', 'c', 't', 'i', 'o', 'n', ' ', 'f', 'o', 'u', 'n', 'd', ' ', 'i', 'n', ' ', 'c', 'o', 'd', 'e']
}

pub open spec fn no_function_py() -> Seq<char> {
    no_function_py_prefix() + seq!['P', 'y', 't', 'h', 'o', 'n', ' ', 'c', 'o', 'd', 'e']
}

pub open spec fn no_function_py_prefix() -> Seq<char> {
    seq!['N', 'o', ' ', 'f', 'u', 'n', 'c', 't', 'i', 'o', 'n', ' ', 'f', 'o', 'u', 'n', 'd', ' ', 'i', 'n', ' ']
}

/// "No function found" opens both messages.
pub open spec fn no_function_found() -> Seq<char> {
    seq!['N', 'o', ' ', 'f', 'u', 'n', 'c', 't', 'i', 'o', 'n', ' ', 'f', 'o', 'u', 'n', 'd']
}

/// Code that defines no function is refused with a message that begins with
/// "No function found", in either language.
pub proof fn lemma_no_function_message()
    ensures
        no_function_js().subrange(0, 17) == no_function_found(),
        no_function_py().subrange(0, 17) == no_function_found(),
{
    assert(no_function_js().subrange(0, 17) =~= no_function_found());
    assert(no_function_py().subrange(0, 17) =~= no_function_found());
}

} // verus!
