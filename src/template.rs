//! The per-process context and template substitution.
//!
//! Two token forms are expanded: `{{#<node>.<key.path>#}}` reads a node's
//! outputs, and `{{$<NAME>$}}` reads the process environment. The text is read
//! left to right; at each position an environment token is tried first, then
//! an output token, and otherwise the character is kept.

use vstd::prelude::*;

use crate::error::ActflowError;
use crate::json::{copy_json, display_text, find_key, json_eq, lookup, lookup_after_set, path_value, set_entry, write_display, JsonValue, Vars};
use crate::text::{chars_of, push_all, string_of};

verus! {

/// Per-process state: environment values, node outputs and the completion
/// flag.
pub struct Context {
    pid: String,
    env: Vec<(String, String)>,
    outputs: Vec<(String, Vars)>,
    done: bool,
}

impl Context {
    pub closed spec fn pid_view(&self) -> Seq<char> {
        self.pid@
    }

    pub closed spec fn env_view(&self) -> Seq<(String, String)> {
        self.env@
    }

    pub closed spec fn outputs_view(&self) -> Seq<(String, Vars)> {
        self.outputs@
    }

    pub closed spec fn is_done_view(&self) -> bool {
        self.done
    }

    /// A fresh context with no environment values and no outputs.
    pub fn new(pid: String) -> (r: Context)
        ensures
            r.pid_view() == pid@,
            r.env_view().len() == 0,
            r.outputs_view().len() == 0,
            !r.is_done_view(),
    {
        Context { pid, env: Vec::new(), outputs: Vec::new(), done: false }
    }

    /// A fresh context holding the environment `env` and no outputs.
    pub fn from_env(pid: String, env: &Vec<(String, String)>) -> (r: Context)
        ensures
            r.pid_view() == pid@,
            r.env_view() == env@,
            r.outputs_view().len() == 0,
            !r.is_done_view(),
    {
        let mut e: Vec<(String, String)> = Vec::new();
        let mut i: usize = 0;
        while i < env.len()
            invariant
                i <= env@.len(),
                e@ == env@.subrange(0, i as int),
            decreases env@.len() - i,
        {
            e.push((env[i].0.clone(), env[i].1.clone()));
            i = i + 1;
            proof {
                assert(e@ =~= env@.subrange(0, i as int));
            }
        }
        proof {
            assert(e@ =~= env@);
        }
        Context { pid, env: e, outputs: Vec::new(), done: false }
    }

    pub fn pid(&self) -> (r: String)
        ensures
            r@ == self.pid_view(),
    {
        self.pid.clone()
    }

    /// Sets the environment value `key`.
    pub fn set_env(&mut self, key: String, value: String)
        ensures
            forall|k: Seq<char>| #[trigger] lookup(final(self).env_view(), k) == lookup_after_set(old(self).env_view(), key@, k, value),
            final(self).outputs_view() == old(self).outputs_view(),
            final(self).pid_view() == old(self).pid_view(),
            final(self).is_done_view() == old(self).is_done_view(),
    {
        set_entry(&mut self.env, key, value);
    }

    /// The environment value `key`.
    pub fn get_env(&self, key: &String) -> (r: Option<&String>)
        ensures
            r matches Some(v) ==> lookup(self.env_view(), key@) == Some(*v),
            r is None <==> lookup(self.env_view(), key@) is None,
    {
        match find_key(&self.env, key) {
            Some(i) => Some(&self.env[i].1),
            None => None,
        }
    }

    /// Stores the outputs of node `nid`.
    pub fn add_output(&mut self, nid: String, outputs: Vars)
        ensures
            forall|k: Seq<char>| #[trigger] lookup(final(self).outputs_view(), k) == lookup_after_set(old(self).outputs_view(), nid@, k, outputs),
            final(self).env_view() == old(self).env_view(),
            final(self).pid_view() == old(self).pid_view(),
            final(self).is_done_view() == old(self).is_done_view(),
    {
        set_entry(&mut self.outputs, nid, outputs);
    }

    /// The outputs of node `nid`.
    pub fn get_output(&self, nid: &String) -> (r: Option<&Vars>)
        ensures
            r matches Some(v) ==> lookup(self.outputs_view(), nid@) == Some(*v),
            r is None <==> lookup(self.outputs_view(), nid@) is None,
    {
        match find_key(&self.outputs, nid) {
            Some(i) => Some(&self.outputs[i].1),
            None => None,
        }
    }

    /// Signals completion; doing it again changes nothing.
    pub fn done(&mut self)
        ensures
            final(self).is_done_view(),
            final(self).env_view() == old(self).env_view(),
            final(self).outputs_view() == old(self).outputs_view(),
            final(self).pid_view() == old(self).pid_view(),
    {
        self.done = true;
    }

    pub fn is_done(&self) -> (r: bool)
        ensures
            r == self.is_done_view(),
    {
        self.done
    }
}

/// First position at or after `p` holding `c`, or the length.
pub open spec fn find_from(s: Seq<char>, p: int, c: char) -> int
    decreases s.len() - p,
{
    if p >= s.len() {
        s.len() as int
    } else if s[p] == c {
        p
    } else {
        find_from(s, p + 1, c)
    }
}

/// First position at or after `p` holding `.` or `#`, or the length.
pub open spec fn node_id_end(s: Seq<char>, p: int) -> int
    decreases s.len() - p,
{
    if p >= s.len() {
        s.len() as int
    } else if s[p] == '.' || s[p] == '#' {
        p
    } else {
        node_id_end(s, p + 1)
    }
}

/// End of the environment token `{{$NAME$}}` starting at `i`, if one does.
pub open spec fn env_token(s: Seq<char>, i: int) -> Option<int> {
    if 0 <= i && i + 3 <= s.len() && s[i] == '{' && s[i + 1] == '{' && s[i + 2] == '$' {
        let j = find_from(s, i + 3, '$');
        if j > i + 3 && j + 3 <= s.len() && s[j + 1] == '}' && s[j + 2] == '}' {
            Some(j + 3)
        } else {
            None
        }
    } else {
        None
    }
}

/// Positions of the dot, of the closing `#` and of the end of the output token
/// `{{#node.path#}}` starting at `i`, if one does.
pub open spec fn output_token(s: Seq<char>, i: int) -> Option<(int, int, int)> {
    if 0 <= i && i + 3 <= s.len() && s[i] == '{' && s[i + 1] == '{' && s[i + 2] == '#' {
        let p = node_id_end(s, i + 3);
        if p > i + 3 && p < s.len() && s[p] == '.' {
            let q = find_from(s, p + 1, '#');
            if q > p + 1 && q + 3 <= s.len() && s[q + 1] == '}' && s[q + 2] == '}' {
                Some((p, q, q + 3))
            } else {
                None
            }
        } else {
            None
        }
    } else {
        None
    }
}

/// Pieces of `s` between dots, scanning from `i` with the current piece
/// starting at `start`.
pub open spec fn split_from(s: Seq<char>, start: int, i: int) -> Seq<Seq<char>>
    decreases s.len() - i,
{
    if i >= s.len() {
        seq![s.subrange(start, s.len() as int)]
    } else if s[i] == '.' {
        seq![s.subrange(start, i)] + split_from(s, i + 1, i + 1)
    } else {
        split_from(s, start, i + 1)
    }
}

/// The pieces of `s` between dots.
pub open spec fn split_dots(s: Seq<char>) -> Seq<Seq<char>> {
    split_from(s, 0, 0)
}

pub open spec fn env_missing(name: Seq<char>) -> Seq<char> {
    seq!['e', 'n', 'v', ' ', 'v', 'a', 'r', 'i', 'a', 'b', 'l', 'e', ' ', '\''] + name + seq![
        '\'',
        ' ',
        'n',
        'o',
        't',
        ' ',
        'f',
        'o',
        'u',
        'n',
        'd',
    ]
}

pub open spec fn output_missing(token: Seq<char>) -> Seq<char> {
    seq!['v', 'a', 'r', 'i', 'a', 'b', 'l', 'e', ' ', '\''] + token + seq![
        '\'',
        ' ',
        'n',
        'o',
        't',
        ' ',
        'f',
        'o',
        'u',
        'n',
        'd',
    ]
}

/// What an output token reads, if its node and path exist.
pub open spec fn output_value(outs: Seq<(String, Vars)>, node: Seq<char>, path: Seq<char>) -> Option<Seq<char>> {
    match lookup(outs, node) {
        Some(vars) => match path_value(vars@, split_dots(path)) {
            Some(v) => Some(display_text(v)),
            None => None,
        },
        None => None,
    }
}

/// One step of resolution at position `i`: the text produced, the
/// environment error and the output error raised (each of at most one
/// message), and the next position.
pub open spec fn resolve_step(
    env: Seq<(String, String)>,
    outs: Seq<(String, Vars)>,
    s: Seq<char>,
    i: int,
) -> (Seq<char>, Seq<Seq<char>>, Seq<Seq<char>>, int) {
    match env_token(s, i) {
        Some(end) => {
            let name = s.subrange(i + 3, end - 3);
            match lookup(env, name) {
                Some(v) => (v@, seq![], seq![], end),
                None => (s.subrange(i, end), seq![env_missing(name)], seq![], end),
            }
        },
        None => match output_token(s, i) {
            Some((p, q, end)) => match output_value(outs, s.subrange(i + 3, p), s.subrange(p + 1, q)) {
                Some(t) => (t, seq![], seq![], end),
                None => (s.subrange(i, end), seq![], seq![output_missing(s.subrange(i, end))], end),
            },
            None => (seq![s[i]], seq![], seq![], i + 1),
        },
    }
}

/// Resolution of `s` from position `i` on: the text, the environment errors
/// and the output errors.
pub open spec fn resolve_from(
    env: Seq<(String, String)>,
    outs: Seq<(String, Vars)>,
    s: Seq<char>,
    i: int,
) -> (Seq<char>, Seq<Seq<char>>, Seq<Seq<char>>)
    decreases s.len() - i,
{
    if i < 0 || i >= s.len() {
        (seq![], seq![], seq![])
    } else {
        let st = resolve_step(env, outs, s, i);
        if st.3 <= i {
            (seq![], seq![], seq![])
        } else {
            let rest = resolve_from(env, outs, s, st.3);
            (st.0 + rest.0, st.1 + rest.1, st.2 + rest.2)
        }
    }
}

/// Messages joined by `, `.
pub open spec fn join(msgs: Seq<Seq<char>>) -> Seq<char>
    decreases msgs.len(),
{
    if msgs.len() == 0 {
        seq![]
    } else if msgs.len() == 1 {
        msgs[0]
    } else {
        join(msgs.drop_last()) + seq![',', ' '] + msgs.last()
    }
}

/// The result of resolving `s`: its text with every token replaced, or,
/// when a token cannot be bound, the messages of all unbound environment
/// tokens and then of all unbound output tokens.
pub open spec fn resolve_spec(env: Seq<(String, String)>, outs: Seq<(String, Vars)>, s: Seq<char>) -> Result<
    Seq<char>,
    Seq<char>,
> {
    let r = resolve_from(env, outs, s, 0);
    if r.1.len() + r.2.len() == 0 {
        Ok(r.0)
    } else {
        Err(join(r.1 + r.2))
    }
}

/// No token starts anywhere in `s`.
pub open spec fn has_no_tokens(s: Seq<char>) -> bool {
    forall|i: int| 0 <= i < s.len() ==> #[trigger] env_token(s, i) is None && output_token(s, i) is None
}


fn find_char(s: &Vec<char>, p: usize, c: char) -> (r: usize)
    requires
        p <= s@.len(),
    ensures
        r as int == find_from(s@, p as int, c),
        p <= r <= s@.len(),
{
    let mut q = p;
    while q < s.len()
        invariant
            p <= q <= s@.len(),
            find_from(s@, q as int, c) == find_from(s@, p as int, c),
        decreases s@.len() - q,
    {
        if s[q] == c {
            return q;
        }
        q = q + 1;
    }
    q
}

fn find_node_id_end(s: &Vec<char>, p: usize) -> (r: usize)
    requires
        p <= s@.len(),
    ensures
        r as int == node_id_end(s@, p as int),
        p <= r <= s@.len(),
{
    let mut q = p;
    while q < s.len()
        invariant
            p <= q <= s@.len(),
            node_id_end(s@, q as int) == node_id_end(s@, p as int),
        decreases s@.len() - q,
    {
        if s[q] == '.' || s[q] == '#' {
            return q;
        }
        q = q + 1;
    }
    q
}

fn env_token_at(s: &Vec<char>, i: usize) -> (r: Option<usize>)
    requires
        i < s@.len(),
    ensures
        r matches Some(e) ==> env_token(s@, i as int) == Some(e as int) && e <= s@.len(),
        r is None ==> env_token(s@, i as int) is None,
{
    if s.len() - i >= 3 && s[i] == '{' && s[i + 1] == '{' && s[i + 2] == '$' {
        let j = find_char(s, i + 3, '$');
        if j > i + 3 && s.len() - j >= 3 && s[j + 1] == '}' && s[j + 2] == '}' {
            return Some(j + 3);
        }
    }
    None
}

fn output_token_at(s: &Vec<char>, i: usize) -> (r: Option<(usize, usize, usize)>)
    requires
        i < s@.len(),
    ensures
        r matches Some(t) ==> output_token(s@, i as int) == Some((t.0 as int, t.1 as int, t.2 as int))
            && t.2 <= s@.len(),
        r is None ==> output_token(s@, i as int) is None,
{
    if s.len() - i >= 3 && s[i] == '{' && s[i + 1] == '{' && s[i + 2] == '#' {
        let p = find_node_id_end(s, i + 3);
        if p > i + 3 && p < s.len() && s[p] == '.' {
            let q = find_char(s, p + 1, '#');
            if q > p + 1 && s.len() - q >= 3 && s[q + 1] == '}' && s[q + 2] == '}' {
                return Some((p, q, q + 3));
            }
        }
    }
    None
}

/// The characters of `s` from `a` to `b`.
fn slice_of(s: &Vec<char>, a: usize, b: usize) -> (r: Vec<char>)
    requires
        a <= b <= s@.len(),
    ensures
        r@ == s@.subrange(a as int, b as int),
{
    let mut out: Vec<char> = Vec::new();
    let mut k = a;
    while k < b
        invariant
            a <= k <= b,
            b <= s@.len(),
            out@ == s@.subrange(a as int, k as int),
        decreases b - k,
    {
        out.push(s[k]);
        k = k + 1;
        proof {
            assert(out@ =~= s@.subrange(a as int, k as int));
        }
    }
    out
}

/// The pieces of `path` between dots.
fn split_path(path: &Vec<char>) -> (r: Vec<String>)
    ensures
        r@.map_values(|k: String| k@) == split_dots(path@),
{
    let mut pieces: Vec<String> = Vec::new();
    let mut cur: Vec<char> = Vec::new();
    let mut start: usize = 0;
    let mut i: usize = 0;
    while i < path.len()
        invariant
            start <= i <= path@.len(),
            cur@ == path@.subrange(start as int, i as int),
            pieces@.map_values(|k: String| k@) + split_from(path@, start as int, i as int) == split_dots(path@),
        decreases path@.len() - i,
    {
        if path[i] == '.' {
            let piece = string_of(&cur);
            let ghost before = pieces@.map_values(|k: String| k@);
            pieces.push(piece);
            proof {
                assert(pieces@.map_values(|k: String| k@) =~= before.push(piece@));
                assert(before.push(piece@) + split_from(path@, i + 1, i + 1) =~= before + (seq![
                    path@.subrange(start as int, i as int),
                ] + split_from(path@, i + 1, i + 1)));
            }
            cur = Vec::new();
            start = i + 1;
            i = i + 1;
            proof {
                assert(cur@ =~= path@.subrange(start as int, i as int));
            }
        } else {
            cur.push(path[i]);
            i = i + 1;
            proof {
                assert(cur@ =~= path@.subrange(start as int, i as int));
            }
        }
    }
    let piece = string_of(&cur);
    let ghost before = pieces@.map_values(|k: String| k@);
    pieces.push(piece);
    proof {
        assert(pieces@.map_values(|k: String| k@) =~= before.push(piece@));
        assert(before.push(piece@) =~= before + seq![path@.subrange(start as int, path@.len() as int)]);
    }
    pieces
}

proof fn lemma_join_push(msgs: Seq<Seq<char>>, m: Seq<char>)
    ensures
        msgs.len() == 0 ==> join(msgs.push(m)) == m,
        msgs.len() > 0 ==> join(msgs.push(m)) == join(msgs) + seq![',', ' '] + m,
{
    assert(msgs.push(m).drop_last() =~= msgs);
}

proof fn lemma_join_concat(a: Seq<Seq<char>>, b: Seq<Seq<char>>)
    requires
        a.len() > 0,
        b.len() > 0,
    ensures
        join(a + b) == join(a) + seq![',', ' '] + join(b),
    decreases b.len(),
{
    if b.len() == 1 {
        assert((a + b).drop_last() =~= a);
    } else {
        assert((a + b).drop_last() =~= a + b.drop_last());
        lemma_join_concat(a, b.drop_last());
        assert(join(a + b) =~= join(a) + seq![',', ' '] + join(b));
    }
}

/// Appends `m` to the `, `-joined list held in `out`.
fn push_message(out: &mut Vec<char>, count: usize, m: &Vec<char>, Ghost(msgs): Ghost<Seq<Seq<char>>>)
    requires
        old(out)@ == join(msgs),
        count == msgs.len(),
    ensures
        final(out)@ == join(msgs.push(m@)),
{
    proof {
        lemma_join_push(msgs, m@);
        reveal_strlit(", ");
    }
    if count > 0 {
        crate::text::push_str(out, ", ");
    }
    push_all(out, m);
}

/// Resolves every token of `template` against the context: environment
/// tokens read the environment, output tokens the outputs of earlier nodes.
/// Fails with all messages of unbound tokens, environment ones first, joined
/// by `, `.
pub fn resolve_template(ctx: &Context, template: &str) -> (r: Result<String, ActflowError>)
    ensures
        resolve_spec(ctx.env_view(), ctx.outputs_view(), template@) matches Ok(t) ==> r matches Ok(x) && x@ == t,
        resolve_spec(ctx.env_view(), ctx.outputs_view(), template@) matches Err(m) ==> r matches Err(
            ActflowError::Runtime(x),
        ) && x@ == m,
{
    let ghost env = ctx.env_view();
    let ghost outs = ctx.outputs_view();
    let s = chars_of(template);
    let ghost total = resolve_from(env, outs, s@, 0);
    let mut text: Vec<char> = Vec::new();
    let mut env_msgs: Vec<char> = Vec::new();
    let mut out_msgs: Vec<char> = Vec::new();
    let mut n_env: usize = 0;
    let mut n_out: usize = 0;
    let ghost mut ee: Seq<Seq<char>> = seq![];
    let ghost mut oe: Seq<Seq<char>> = seq![];
    let mut i: usize = 0;
    proof {
        assert(text@ + total.0 =~= total.0);
        assert(ee + total.1 =~= total.1);
        assert(oe + total.2 =~= total.2);
    }
    while i < s.len()
        invariant
            i <= s@.len(),
            s@ == template@,
            env == ctx.env_view(),
            outs == ctx.outputs_view(),
            total == resolve_from(env, outs, s@, 0),
            text@ + resolve_from(env, outs, s@, i as int).0 == total.0,
            ee + resolve_from(env, outs, s@, i as int).1 == total.1,
            oe + resolve_from(env, outs, s@, i as int).2 == total.2,
            env_msgs@ == join(ee),
            out_msgs@ == join(oe),
            n_env == ee.len(),
            n_out == oe.len(),
            ee.len() <= i,
            oe.len() <= i,
        decreases s@.len() - i,
    {
        let ghost st = resolve_step(env, outs, s@, i as int);
        let ghost rest = resolve_from(env, outs, s@, st.3);
        let ghost t0 = text@;
        let ghost ee0 = ee;
        let ghost oe0 = oe;
        let next: usize;
        match env_token_at(&s, i) {
            Some(end) => {
                let name_chars = slice_of(&s, i + 3, end - 3);
                let name = string_of(&name_chars);
                match ctx.get_env(&name) {
                    Some(v) => {
                        crate::text::push_str(&mut text, v.as_str());
                    },
                    None => {
                        let tok = slice_of(&s, i, end);
                        push_all(&mut text, &tok);
                        let mut m: Vec<char> = Vec::new();
                        crate::text::push_str(&mut m, "env variable '");
                        push_all(&mut m, &name_chars);
                        crate::text::push_str(&mut m, "' not found");
                        proof {
                            reveal_strlit("env variable '");
                            reveal_strlit("' not found");
                            assert(m@ =~= env_missing(name_chars@));
                        }
                        push_message(&mut env_msgs, n_env, &m, Ghost(ee));
                        n_env = n_env + 1;
                        proof {
                            ee = ee.push(m@);
                        }
                    },
                }
                next = end;
            },
            None => {
                match output_token_at(&s, i) {
                    Some((p, q, end)) => {
                        let node_chars = slice_of(&s, i + 3, p);
                        let node = string_of(&node_chars);
                        let path = slice_of(&s, p + 1, q);
                        let keys = split_path(&path);
                        let found = match ctx.get_output(&node) {
                            Some(vars) => match vars.get_path(&keys) {
                                Some(v) => {
                                    write_display(v, &mut text);
                                    true
                                },
                                None => false,
                            },
                            None => false,
                        };
                        if !found {
                            let tok = slice_of(&s, i, end);
                            push_all(&mut text, &tok);
                            let mut m: Vec<char> = Vec::new();
                            crate::text::push_str(&mut m, "variable '");
                            push_all(&mut m, &tok);
                            crate::text::push_str(&mut m, "' not found");
                            proof {
                                reveal_strlit("variable '");
                                reveal_strlit("' not found");
                                assert(m@ =~= output_missing(tok@));
                            }
                            push_message(&mut out_msgs, n_out, &m, Ghost(oe));
                            n_out = n_out + 1;
                            proof {
                                oe = oe.push(m@);
                            }
                        }
                        next = end;
                    },
                    None => {
                        text.push(s[i]);
                        next = i + 1;
                    },
                }
            },
        }
        proof {
            assert(st.3 == next);
            assert(text@ =~= t0 + st.0);
            assert(ee =~= ee0 + st.1);
            assert(oe =~= oe0 + st.2);
            assert(resolve_from(env, outs, s@, i as int) == (st.0 + rest.0, st.1 + rest.1, st.2 + rest.2));
            assert(text@ + rest.0 =~= t0 + (st.0 + rest.0));
            assert(ee + rest.1 =~= ee0 + (st.1 + rest.1));
            assert(oe + rest.2 =~= oe0 + (st.2 + rest.2));
        }
        i = next;
    }
    proof {
        assert(text@ =~= total.0);
        assert(ee =~= total.1);
        assert(oe =~= total.2);
    }
    if n_env == 0 && n_out == 0 {
        Ok(string_of(&text))
    } else {
        let mut msg = env_msgs;
        if n_env > 0 && n_out > 0 {
            proof {
                lemma_join_concat(ee, oe);
                reveal_strlit(", ");
            }
            crate::text::push_str(&mut msg, ", ");
        } else {
            proof {
                if n_env == 0 {
                    assert(ee + oe =~= oe);
                } else {
                    assert(ee + oe =~= ee);
                }
            }
        }
        push_all(&mut msg, &out_msgs);
        Err(ActflowError::Runtime(string_of(&msg)))
    }
}

proof fn lemma_no_tokens_from(env: Seq<(String, String)>, outs: Seq<(String, Vars)>, s: Seq<char>, i: int)
    requires
        has_no_tokens(s),
        0 <= i <= s.len(),
    ensures
        resolve_from(env, outs, s, i) == (s.subrange(i, s.len() as int), Seq::<Seq<char>>::empty(), Seq::<Seq<char>>::empty()),
    decreases s.len() - i,
{
    if i < s.len() {
        assert(env_token(s, i) is None && output_token(s, i) is None);
        lemma_no_tokens_from(env, outs, s, i + 1);
        assert(seq![s[i]] + s.subrange(i + 1, s.len() as int) =~= s.subrange(i, s.len() as int));
        assert(Seq::<Seq<char>>::empty() + Seq::<Seq<char>>::empty() =~= Seq::<Seq<char>>::empty());
    } else {
        assert(s.subrange(i, s.len() as int) =~= Seq::<char>::empty());
    }
}

/// Resolving a string that holds no token gives the string itself; so
/// resolving the result again gives the same result.
pub proof fn lemma_resolve_idempotent_without_tokens(env: Seq<(String, String)>, outs: Seq<(String, Vars)>, s: Seq<char>)
    requires
        has_no_tokens(s),
    ensures
        resolve_spec(env, outs, s) == Ok::<Seq<char>, Seq<char>>(s),
        resolve_spec(env, outs, resolve_spec(env, outs, s)->Ok_0) == resolve_spec(env, outs, s),
{
    lemma_no_tokens_from(env, outs, s, 0);
    assert(s.subrange(0, s.len() as int) =~= s);
}


/// The value an output token reaches, if its node and path exist.
pub open spec fn output_path_value(outs: Seq<(String, Vars)>, node: Seq<char>, path: Seq<char>) -> Option<JsonValue> {
    match lookup(outs, node) {
        Some(vars) => path_value(vars@, split_dots(path)),
        None => None,
    }
}

/// The values of the output tokens of `s` from position `i` on, in order,
/// and the messages of those that reach nothing. Environment tokens are not
/// read here.
pub open spec fn values_from(outs: Seq<(String, Vars)>, s: Seq<char>, i: int) -> (Seq<JsonValue>, Seq<Seq<char>>)
    decreases s.len() - i,
{
    if i < 0 || i >= s.len() {
        (seq![], seq![])
    } else {
        match output_token(s, i) {
            Some((p, q, end)) => if end <= i {
                (seq![], seq![])
            } else {
                let rest = values_from(outs, s, end);
                match output_path_value(outs, s.subrange(i + 3, p), s.subrange(p + 1, q)) {
                    Some(v) => (seq![v] + rest.0, rest.1),
                    None => (rest.0, seq![output_missing(s.subrange(i, end))] + rest.1),
                }
            },
            None => values_from(outs, s, i + 1),
        }
    }
}

/// The raw values of the output tokens of `template`, in order; the
/// template itself, as a string, when it has none. Fails with the messages
/// of all tokens that reach nothing, joined by `, `.
pub fn resolve_template_to_values(ctx: &Context, template: &str) -> (r: Result<Vec<JsonValue>, ActflowError>)
    ensures
        values_from(ctx.outputs_view(), template@, 0).1.len() == 0 && values_from(ctx.outputs_view(), template@, 0).0.len()
            > 0 ==> (r matches Ok(v) && v@.len() == values_from(ctx.outputs_view(), template@, 0).0.len() && forall|k: int|
            0 <= k < v@.len() ==> json_eq(values_from(ctx.outputs_view(), template@, 0).0[k], #[trigger] v@[k])),
        values_from(ctx.outputs_view(), template@, 0).1.len() == 0 && values_from(ctx.outputs_view(), template@, 0).0.len()
            == 0 ==> (r matches Ok(v) && v@.len() == 1 && (v@[0] matches JsonValue::Str(x) && x@ == template@)),
        values_from(ctx.outputs_view(), template@, 0).1.len() > 0 ==> (r matches Err(ActflowError::Runtime(m)) && m@
            == join(values_from(ctx.outputs_view(), template@, 0).1)),
{
    let ghost outs = ctx.outputs_view();
    let s = chars_of(template);
    let ghost total = values_from(outs, s@, 0);
    let mut values: Vec<JsonValue> = Vec::new();
    let mut msgs: Vec<char> = Vec::new();
    let mut n_msgs: usize = 0;
    let ghost mut acc: Seq<JsonValue> = seq![];
    let ghost mut errs: Seq<Seq<char>> = seq![];
    let mut i: usize = 0;
    proof {
        assert(acc + total.0 =~= total.0);
        assert(errs + total.1 =~= total.1);
    }
    while i < s.len()
        invariant
            i <= s@.len(),
            s@ == template@,
            outs == ctx.outputs_view(),
            total == values_from(outs, s@, 0),
            acc + values_from(outs, s@, i as int).0 == total.0,
            errs + values_from(outs, s@, i as int).1 == total.1,
            values@.len() == acc.len(),
            forall|k: int| 0 <= k < acc.len() ==> json_eq(acc[k], #[trigger] values@[k]),
            msgs@ == join(errs),
            n_msgs == errs.len(),
            errs.len() <= i,
        decreases s@.len() - i,
    {
        let ghost acc0 = acc;
        let ghost errs0 = errs;
        match output_token_at(&s, i) {
            Some((p, q, end)) => {
                let ghost rest = values_from(outs, s@, end as int);
                let node_chars = slice_of(&s, i + 3, p);
                let node = string_of(&node_chars);
                let path = slice_of(&s, p + 1, q);
                let keys = split_path(&path);
                let found: Option<JsonValue> = match ctx.get_output(&node) {
                    Some(vars) => match vars.get_path(&keys) {
                        Some(v) => Some(copy_json(v)),
                        None => None,
                    },
                    None => None,
                };
                match found {
                    Some(c) => {
                        let ghost v = output_path_value(outs, node_chars@, path@)->Some_0;
                        values.push(c);
                        proof {
                            acc = acc.push(v);
                            assert(acc + rest.0 =~= acc0 + (seq![v] + rest.0));
                            assert forall|k: int| 0 <= k < acc.len() implies json_eq(acc[k], #[trigger] values@[k]) by {
                                if k < acc.len() - 1 {
                                    assert(acc[k] == acc0[k]);
                                }
                            }
                        }
                    },
                    None => {
                        let tok = slice_of(&s, i, end);
                        let mut m: Vec<char> = Vec::new();
                        crate::text::push_str(&mut m, "variable '");
                        push_all(&mut m, &tok);
                        crate::text::push_str(&mut m, "' not found");
                        proof {
                            reveal_strlit("variable '");
                            reveal_strlit("' not found");
                            assert(m@ =~= output_missing(tok@));
                        }
                        push_message(&mut msgs, n_msgs, &m, Ghost(errs));
                        n_msgs = n_msgs + 1;
                        proof {
                            errs = errs.push(m@);
                            assert(errs + rest.1 =~= errs0 + (seq![m@] + rest.1));
                        }
                    },
                }
                i = end;
            },
            None => {
                i = i + 1;
            },
        }
    }
    proof {
        assert(acc =~= total.0);
        assert(errs =~= total.1);
    }
    if n_msgs > 0 {
        return Err(ActflowError::Runtime(string_of(&msgs)));
    }
    if values.len() == 0 {
        let mut only: Vec<JsonValue> = Vec::new();
        only.push(JsonValue::Str(string_of(&s)));
        return Ok(only);
    }
    Ok(values)
}

} // verus!
