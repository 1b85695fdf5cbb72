//! JSON values as the engine holds them, and ordered variable maps.

use vstd::prelude::*;

use crate::text::{chars_of, push_str};

verus! {

/// A JSON value. A number is held as the decimal text that denotes it.
#[derive(Debug)]
pub enum JsonValue {
    Null,
    Bool(bool),
    Number(String),
    Str(String),
    Array(Vec<JsonValue>),
    Object(Vec<(String, JsonValue)>),
}

pub open spec fn hex_digit(d: u32) -> char {
    if d < 10 {
        ((d + 48) as u8) as char
    } else {
        ((d + 87) as u8) as char
    }
}

/// How a character stands inside a JSON string literal.
pub open spec fn quote_char(c: char) -> Seq<char> {
    if c == '"' {
        seq!['\\', '"']
    } else if c == '\\' {
        seq!['\\', '\\']
    } else if c == '\n' {
        seq!['\\', 'n']
    } else if c == '\r' {
        seq!['\\', 'r']
    } else if c == '\t' {
        seq!['\\', 't']
    } else if c == '\u{8}' {
        seq!['\\', 'b']
    } else if c == '\u{c}' {
        seq!['\\', 'f']
    } else if (c as u32) < 32 {
        seq!['\\', 'u', '0', '0', hex_digit((c as u32) / 16), hex_digit((c as u32) % 16)]
    } else {
        seq![c]
    }
}

/// `s` as a JSON string literal.
pub open spec fn quoted(s: Seq<char>) -> Seq<char>
    decreases s.len(),
{
    if s.len() == 0 {
        seq![]
    } else {
        quoted(s.drop_last()) + quote_char(s.last())
    }
}

/// Compact JSON text of a value.
pub open spec fn json_text(v: JsonValue) -> Seq<char>
    decreases v,
{
    match v {
        JsonValue::Null => seq!['n', 'u', 'l', 'l'],
        JsonValue::Bool(b) => if b {
            seq!['t', 'r', 'u', 'e']
        } else {
            seq!['f', 'a', 'l', 's', 'e']
        },
        JsonValue::Number(n) => n@,
        JsonValue::Str(s) => seq!['"'] + quoted(s@) + seq!['"'],
        JsonValue::Array(items) => seq!['['] + items_text(items@, items@.len() as int) + seq![']'],
        JsonValue::Object(fields) => seq!['{'] + fields_text(fields@, fields@.len() as int) + seq!['}'],
    }
}

/// Texts of the first `n` items, separated by commas.
pub open spec fn items_text(items: Seq<JsonValue>, n: int) -> Seq<char>
    decreases items, n,
{
    if n <= 0 || n > items.len() {
        seq![]
    } else if n == 1 {
        json_text(items[0])
    } else {
        items_text(items, n - 1) + seq![','] + json_text(items[n - 1])
    }
}

/// Texts of the first `n` fields, `"key":value`, separated by commas.
pub open spec fn fields_text(fields: Seq<(String, JsonValue)>, n: int) -> Seq<char>
    decreases fields, n,
{
    if n <= 0 || n > fields.len() {
        seq![]
    } else {
        let f = fields[n - 1];
        let one = seq!['"'] + quoted(f.0@) + seq!['"', ':'] + json_text(f.1);
        if n == 1 {
            one
        } else {
            fields_text(fields, n - 1) + seq![','] + one
        }
    }
}


fn hex_char(d: u32) -> (r: char)
    requires
        d < 16,
    ensures
        r == hex_digit(d),
{
    if d < 10 {
        ((d + 48) as u8) as char
    } else {
        ((d + 87) as u8) as char
    }
}

fn push_quoted_char(out: &mut Vec<char>, c: char)
    ensures
        final(out)@ == old(out)@ + quote_char(c),
{
    let ghost o = out@;
    if c == '"' {
        out.push('\\');
        out.push('"');
    } else if c == '\\' {
        out.push('\\');
        out.push('\\');
    } else if c == '\n' {
        out.push('\\');
        out.push('n');
    } else if c == '\r' {
        out.push('\\');
        out.push('r');
    } else if c == '\t' {
        out.push('\\');
        out.push('t');
    } else if c == '\u{8}' {
        out.push('\\');
        out.push('b');
    } else if c == '\u{c}' {
        out.push('\\');
        out.push('f');
    } else if (c as u32) < 32 {
        out.push('\\');
        out.push('u');
        out.push('0');
        out.push('0');
        out.push(hex_char((c as u32) / 16));
        out.push(hex_char((c as u32) % 16));
    } else {
        out.push(c);
    }
    proof {
        assert(out@ =~= o + quote_char(c));
    }
}

/// Appends `s` as a JSON string literal.
fn push_string_literal(out: &mut Vec<char>, s: &String)
    ensures
        final(out)@ == old(out)@ + seq!['"'] + quoted(s@) + seq!['"'],
{
    let cs = chars_of(s.as_str());
    out.push('"');
    let ghost base = out@;
    let mut i: usize = 0;
    while i < cs.len()
        invariant
            i <= cs@.len(),
            cs@ == s@,
            out@ == base + quoted(cs@.subrange(0, i as int)),
        decreases cs@.len() - i,
    {
        push_quoted_char(out, cs[i]);
        i = i + 1;
        proof {
            let p = cs@.subrange(0, i as int);
            assert(p.drop_last() =~= cs@.subrange(0, i - 1));
            assert(out@ =~= base + quoted(p));
        }
    }
    proof {
        assert(cs@.subrange(0, cs@.len() as int) =~= cs@);
    }
    out.push('"');
}

/// Appends the compact JSON text of `v`.
pub(crate) fn write_json(v: &JsonValue, out: &mut Vec<char>)
    ensures
        final(out)@ == old(out)@ + json_text(*v),
    decreases v,
{
    match v {
        JsonValue::Null => {
            push_str(out, "null");
            proof {
                reveal_strlit("null");
            }
        },
        JsonValue::Bool(b) => {
            if *b {
                push_str(out, "true");
                proof {
                    reveal_strlit("true");
                }
            } else {
                push_str(out, "false");
                proof {
                    reveal_strlit("false");
                }
            }
        },
        JsonValue::Number(n) => {
            push_str(out, n.as_str());
        },
        JsonValue::Str(s) => {
            push_string_literal(out, s);
        },
        JsonValue::Array(items) => {
            let ghost o = out@;
            out.push('[');
            let mut i: usize = 0;
            while i < items.len()
                invariant
                    i <= items@.len(),
                    out@ == o + seq!['['] + items_text(items@, i as int),
                    *v is Array,
                    v->Array_0 == *items,
                decreases items@.len() - i,
            {
                if i > 0 {
                    out.push(',');
                }
                proof {
                    assert(*v is Array);
                    assert(v->Array_0 == *items);
                    assert(0 <= i < v->Array_0@.len());
                    assert(decreases_to!(*v => v->Array_0));
                    assert(decreases_to!(v->Array_0 => v->Array_0@));
                    assert(decreases_to!(v->Array_0@ => v->Array_0@[i as int]));
                    assert(decreases_to!(*v => items@[i as int]));
                }
                write_json(&items[i], out);
                i = i + 1;
                proof {
                    assert(out@ =~= o + seq!['['] + items_text(items@, i as int));
                }
            }
            out.push(']');
            proof {
                assert(out@ =~= o + json_text(*v));
            }
        },
        JsonValue::Object(fields) => {
            let ghost o = out@;
            out.push('{');
            let mut i: usize = 0;
            while i < fields.len()
                invariant
                    i <= fields@.len(),
                    out@ == o + seq!['{'] + fields_text(fields@, i as int),
                    *v is Object,
                    v->Object_0 == *fields,
                decreases fields@.len() - i,
            {
                if i > 0 {
                    out.push(',');
                }
                push_string_literal(out, &fields[i].0);
                out.push(':');
                proof {
                    assert(*v is Object);
                    assert(v->Object_0 == *fields);
                    assert(0 <= i < v->Object_0@.len());
                    assert(decreases_to!(*v => v->Object_0));
                    assert(decreases_to!(v->Object_0 => v->Object_0@));
                    assert(decreases_to!(v->Object_0@ => v->Object_0@[i as int]));
                    assert(decreases_to!(v->Object_0@[i as int] => v->Object_0@[i as int].1));
                    assert(decreases_to!(*v => fields@[i as int].1));
                }
                write_json(&fields[i].1, out);
                i = i + 1;
                proof {
                    assert(out@ =~= o + seq!['{'] + fields_text(fields@, i as int));
                }
            }
            out.push('}');
            proof {
                assert(out@ =~= o + json_text(*v));
            }
        },
    }
}


/// The value of the first entry with key `key`.
pub open spec fn lookup<V>(entries: Seq<(String, V)>, key: Seq<char>) -> Option<V>
    decreases entries.len(),
{
    if entries.len() == 0 {
        None
    } else if lookup(entries.drop_last(), key) is Some {
        lookup(entries.drop_last(), key)
    } else if entries.last().0@ == key {
        Some(entries.last().1)
    } else {
        None
    }
}

proof fn lemma_lookup_prefix<V>(entries: Seq<(String, V)>, i: int, key: Seq<char>)
    requires
        0 <= i < entries.len(),
        lookup(entries.subrange(0, i), key) is None,
    ensures
        entries[i].0@ == key ==> lookup(entries.subrange(0, i + 1), key) == Some(entries[i].1),
        entries[i].0@ != key ==> lookup(entries.subrange(0, i + 1), key) is None,
{
    assert(entries.subrange(0, i + 1).drop_last() =~= entries.subrange(0, i));
}

/// Position of the first entry with key `key`.
pub(crate) fn find_key<V>(entries: &Vec<(String, V)>, key: &String) -> (r: Option<usize>)
    ensures
        r matches Some(i) ==> i < entries@.len() && entries@[i as int].0@ == key@ && lookup(entries@, key@)
            == Some(entries@[i as int].1) && forall|q: int| 0 <= q < i ==> (#[trigger] entries@[q]).0@ != key@,
        r is None ==> lookup(entries@, key@) is None,
{
    let mut i: usize = 0;
    proof {
        assert(entries@.subrange(0, 0) =~= Seq::<(String, V)>::empty());
    }
    while i < entries.len()
        invariant
            i <= entries@.len(),
            lookup(entries@.subrange(0, i as int), key@) is None,
            forall|q: int| 0 <= q < i ==> (#[trigger] entries@[q]).0@ != key@,
        decreases entries@.len() - i,
    {
        proof {
            lemma_lookup_prefix(entries@, i as int, key@);
        }
        if entries[i].0 == *key {
            proof {
                lemma_lookup_extend(entries@, i as int + 1, key@);
            }
            return Some(i);
        }
        i = i + 1;
    }
    proof {
        assert(entries@.subrange(0, entries@.len() as int) =~= entries@);
    }
    None
}

/// A lookup found in a prefix stays the lookup of the whole sequence.
proof fn lemma_lookup_extend<V>(entries: Seq<(String, V)>, n: int, key: Seq<char>)
    requires
        0 <= n <= entries.len(),
        lookup(entries.subrange(0, n), key) is Some,
    ensures
        lookup(entries, key) == lookup(entries.subrange(0, n), key),
    decreases entries.len() - n,
{
    if n < entries.len() {
        assert(entries.subrange(0, n + 1).drop_last() =~= entries.subrange(0, n));
        lemma_lookup_extend(entries, n + 1, key);
    } else {
        assert(entries.subrange(0, n) =~= entries);
    }
}

/// Replacing the value of the first entry with key `key`, or appending one.
pub open spec fn lookup_after_set<V>(entries: Seq<(String, V)>, key: Seq<char>, k: Seq<char>, v: V) -> Option<V> {
    if k == key {
        Some(v)
    } else {
        lookup(entries, k)
    }
}

proof fn lemma_lookup_update<V>(entries: Seq<(String, V)>, i: int, key: Seq<char>, e: (String, V))
    requires
        0 <= i < entries.len(),
        entries[i].0@ == key,
        e.0@ == key,
        lookup(entries, key) == Some(entries[i].1),
        forall|q: int| 0 <= q < i ==> (#[trigger] entries[q]).0@ != key,
    ensures
        forall|k: Seq<char>| #[trigger] lookup(entries.update(i, e), k) == lookup_after_set(entries, key, k, e.1),
    decreases entries.len(),
{
    let u = entries.update(i, e);
    assert forall|k: Seq<char>| #[trigger] lookup(u, k) == lookup_after_set(entries, key, k, e.1) by {
        lemma_lookup_update_one(entries, i, key, e, k);
    }
}

proof fn lemma_lookup_update_one<V>(entries: Seq<(String, V)>, i: int, key: Seq<char>, e: (String, V), k: Seq<char>)
    requires
        0 <= i < entries.len(),
        entries[i].0@ == key,
        e.0@ == key,
        forall|q: int| 0 <= q < i ==> (#[trigger] entries[q]).0@ != key,
    ensures
        lookup(entries.update(i, e), k) == lookup_after_set(entries, key, k, e.1),
    decreases entries.len(),
{
    let u = entries.update(i, e);
    if i == entries.len() - 1 {
        assert(u.drop_last() =~= entries.drop_last());
        if k == key {
            lemma_lookup_none_before(entries.drop_last(), key);
        }
    } else {
        assert(u.drop_last() =~= entries.drop_last().update(i, e));
        lemma_lookup_update_one(entries.drop_last(), i, key, e, k);
        lemma_lookup_found_at(entries.drop_last(), i, key);
    }
}

proof fn lemma_lookup_none_before<V>(entries: Seq<(String, V)>, key: Seq<char>)
    requires
        forall|q: int| 0 <= q < entries.len() ==> (#[trigger] entries[q]).0@ != key,
    ensures
        lookup(entries, key) is None,
    decreases entries.len(),
{
    if entries.len() > 0 {
        lemma_lookup_none_before(entries.drop_last(), key);
    }
}

proof fn lemma_lookup_found_at<V>(entries: Seq<(String, V)>, i: int, key: Seq<char>)
    requires
        0 <= i < entries.len(),
        entries[i].0@ == key,
        forall|q: int| 0 <= q < i ==> (#[trigger] entries[q]).0@ != key,
    ensures
        lookup(entries, key) == Some(entries[i].1),
    decreases entries.len(),
{
    if i == entries.len() - 1 {
        lemma_lookup_none_before(entries.drop_last(), key);
    } else {
        lemma_lookup_found_at(entries.drop_last(), i, key);
    }
}

proof fn lemma_lookup_push<V>(entries: Seq<(String, V)>, key: Seq<char>, e: (String, V))
    requires
        lookup(entries, key) is None,
        e.0@ == key,
    ensures
        forall|k: Seq<char>| #[trigger] lookup(entries.push(e), k) == lookup_after_set(entries, key, k, e.1),
{
    assert forall|k: Seq<char>| #[trigger] lookup(entries.push(e), k) == lookup_after_set(entries, key, k, e.1) by {
        assert(entries.push(e).drop_last() =~= entries);
    }
}

/// Sets `key` to `value` in `entries`: the first entry with that key gets
/// the value, or a new entry is appended.
pub(crate) fn set_entry<V>(entries: &mut Vec<(String, V)>, key: String, value: V)
    ensures
        forall|k: Seq<char>| #[trigger] lookup(final(entries)@, k) == lookup_after_set(old(entries)@, key@, k, value),
{
    match find_key(entries, &key) {
        Some(i) => {
            proof {
                let ghost es = entries@;
                lemma_lookup_update(es, i as int, key@, (key, value));
            }
            entries.set(i, (key, value));
        },
        None => {
            proof {
                lemma_lookup_push(entries@, key@, (key, value));
            }
            entries.push((key, value));
        },
    }
}



/// An ordered map from names to JSON values.
#[derive(Debug)]
pub struct Vars {
    entries: Vec<(String, JsonValue)>,
}

impl View for Vars {
    type V = Seq<(String, JsonValue)>;

    closed spec fn view(&self) -> Seq<(String, JsonValue)> {
        self.entries@
    }
}

/// The field `key` of an object; nothing for other values.
pub open spec fn field_of(v: JsonValue, key: Seq<char>) -> Option<JsonValue> {
    match v {
        JsonValue::Object(fields) => lookup(fields@, key),
        _ => None,
    }
}

/// The value reached from `vars` by the keys in turn: the first key names a
/// variable, each further key a field of the object reached so far.
pub open spec fn path_value(vars: Seq<(String, JsonValue)>, keys: Seq<Seq<char>>) -> Option<JsonValue>
    decreases keys.len(),
{
    if keys.len() == 0 {
        None
    } else if keys.len() == 1 {
        lookup(vars, keys[0])
    } else {
        match path_value(vars, keys.drop_last()) {
            Some(v) => field_of(v, keys.last()),
            None => None,
        }
    }
}

/// How a value reads inside text: a string as itself, anything else as its
/// JSON text.
pub open spec fn display_text(v: JsonValue) -> Seq<char> {
    match v {
        JsonValue::Str(s) => s@,
        _ => json_text(v),
    }
}

impl Vars {
    pub fn new() -> (r: Vars)
        ensures
            r@.len() == 0,
    {
        Vars { entries: Vec::new() }
    }

    pub fn from_entries(entries: Vec<(String, JsonValue)>) -> (r: Vars)
        ensures
            r@ == entries@,
    {
        Vars { entries }
    }

    /// The entries, in order.
    pub fn entries(&self) -> (r: &Vec<(String, JsonValue)>)
        ensures
            r@ == self@,
    {
        &self.entries
    }

    pub fn len(&self) -> (r: usize)
        ensures
            r == self@.len(),
    {
        self.entries.len()
    }

    /// Sets `key` to `value`.
    pub fn set(&mut self, key: &str, value: JsonValue)
        ensures
            forall|k: Seq<char>| #[trigger] lookup(final(self)@, k) == lookup_after_set(old(self)@, key@, k, value),
    {
        set_entry(&mut self.entries, key.to_owned(), value);
    }

    /// The value of `key`.
    pub fn get(&self, key: &str) -> (r: Option<&JsonValue>)
        ensures
            r matches Some(v) ==> lookup(self@, key@) == Some(*v),
            r is None <==> lookup(self@, key@) is None,
    {
        let k = key.to_owned();
        match find_key(&self.entries, &k) {
            Some(i) => Some(&self.entries[i].1),
            None => None,
        }
    }

    /// The value reached by `keys`.
    pub fn get_path(&self, keys: &Vec<String>) -> (r: Option<&JsonValue>)
        ensures
            r matches Some(v) ==> path_value(self@, keys@.map_values(|k: String| k@)) == Some(*v),
            r is None <==> path_value(self@, keys@.map_values(|k: String| k@)) is None,
    {
        let ghost ks = keys@.map_values(|k: String| k@);
        if keys.len() == 0 {
            return None;
        }
        let mut cur: &JsonValue = match find_key(&self.entries, &keys[0]) {
            Some(i) => &self.entries[i].1,
            None => {
                proof {
                    assert(ks.subrange(0, 1) =~= seq![ks[0]]);
                    lemma_path_none_extends(self@, ks, 1);
                }
                return None;
            },
        };
        proof {
            assert(ks.subrange(0, 1) =~= seq![ks[0]]);
        }
        let mut i: usize = 1;
        while i < keys.len()
            invariant
                1 <= i <= keys@.len(),
                ks == keys@.map_values(|k: String| k@),
                path_value(self@, ks.subrange(0, i as int)) == Some(*cur),
            decreases keys@.len() - i,
        {
            let next = match cur {
                JsonValue::Object(fields) => match find_key(fields, &keys[i]) {
                    Some(q) => &fields[q].1,
                    None => {
                        proof {
                            assert(ks.subrange(0, i + 1).drop_last() =~= ks.subrange(0, i as int));
                            lemma_path_none_extends(self@, ks, i + 1);
                        }
                        return None;
                    },
                },
                _ => {
                    proof {
                        assert(ks.subrange(0, i + 1).drop_last() =~= ks.subrange(0, i as int));
                        lemma_path_none_extends(self@, ks, i + 1);
                    }
                    return None;
                },
            };
            proof {
                assert(ks.subrange(0, i + 1).drop_last() =~= ks.subrange(0, i as int));
            }
            cur = next;
            i = i + 1;
        }
        proof {
            assert(ks.subrange(0, keys@.len() as int) =~= ks);
        }
        Some(cur)
    }
}

/// A path that reaches nothing reaches nothing when extended.
proof fn lemma_path_none_extends(vars: Seq<(String, JsonValue)>, ks: Seq<Seq<char>>, n: int)
    requires
        1 <= n <= ks.len(),
        path_value(vars, ks.subrange(0, n)) is None,
    ensures
        path_value(vars, ks) is None,
    decreases ks.len() - n,
{
    if n < ks.len() {
        assert(ks.subrange(0, n + 1).drop_last() =~= ks.subrange(0, n));
        lemma_path_none_extends(vars, ks, n + 1);
    } else {
        assert(ks.subrange(0, n) =~= ks);
    }
}

/// The compact JSON text of `v`.
pub fn to_json_text(v: &JsonValue) -> (r: String)
    ensures
        r@ == json_text(*v),
{
    let mut out: Vec<char> = Vec::new();
    write_json(v, &mut out);
    proof {
        assert(out@ =~= json_text(*v));
    }
    crate::text::string_of(&out)
}

/// Appends the text of `v` as it reads inside a template result.
pub(crate) fn write_display(v: &JsonValue, out: &mut Vec<char>)
    ensures
        final(out)@ == old(out)@ + display_text(*v),
{
    match v {
        JsonValue::Str(s) => push_str(out, s.as_str()),
        _ => write_json(v, out),
    }
}



/// Structural equality of values, comparing strings by their characters.
pub open spec fn json_eq(a: JsonValue, b: JsonValue) -> bool
    decreases a,
{
    match a {
        JsonValue::Null => b is Null,
        JsonValue::Bool(x) => b matches JsonValue::Bool(y) && x == y,
        JsonValue::Number(x) => b matches JsonValue::Number(y) && x@ == y@,
        JsonValue::Str(x) => b matches JsonValue::Str(y) && x@ == y@,
        JsonValue::Array(xs) => match b {
            JsonValue::Array(ys) => xs@.len() == ys@.len() && items_eq(xs@, ys@, xs@.len() as int),
            _ => false,
        },
        JsonValue::Object(xs) => match b {
            JsonValue::Object(ys) => xs@.len() == ys@.len() && fields_eq(xs@, ys@, xs@.len() as int),
            _ => false,
        },
    }
}

/// The first `n` items are equal pairwise.
pub open spec fn items_eq(xs: Seq<JsonValue>, ys: Seq<JsonValue>, n: int) -> bool
    decreases xs, n,
{
    if n <= 0 || n > xs.len() {
        true
    } else {
        items_eq(xs, ys, n - 1) && json_eq(xs[n - 1], ys[n - 1])
    }
}

/// The first `n` fields have equal keys and equal values pairwise.
pub open spec fn fields_eq(xs: Seq<(String, JsonValue)>, ys: Seq<(String, JsonValue)>, n: int) -> bool
    decreases xs, n,
{
    if n <= 0 || n > xs.len() {
        true
    } else {
        fields_eq(xs, ys, n - 1) && xs[n - 1].0@ == ys[n - 1].0@ && json_eq(xs[n - 1].1, ys[n - 1].1)
    }
}

proof fn lemma_items_eq_push(xs: Seq<JsonValue>, ys: Seq<JsonValue>, y: JsonValue, n: int)
    requires
        0 <= n <= ys.len(),
        n <= xs.len(),
    ensures
        items_eq(xs, ys.push(y), n) == items_eq(xs, ys, n),
    decreases n,
{
    if n > 0 {
        lemma_items_eq_push(xs, ys, y, n - 1);
    }
}

proof fn lemma_fields_eq_push(xs: Seq<(String, JsonValue)>, ys: Seq<(String, JsonValue)>, y: (String, JsonValue), n: int)
    requires
        0 <= n <= ys.len(),
        n <= xs.len(),
    ensures
        fields_eq(xs, ys.push(y), n) == fields_eq(xs, ys, n),
    decreases n,
{
    if n > 0 {
        lemma_fields_eq_push(xs, ys, y, n - 1);
    }
}

/// A copy of a value.
pub fn copy_json(v: &JsonValue) -> (r: JsonValue)
    ensures
        json_eq(*v, r),
    decreases v,
{
    match v {
        JsonValue::Null => JsonValue::Null,
        JsonValue::Bool(b) => JsonValue::Bool(*b),
        JsonValue::Number(n) => JsonValue::Number(n.clone()),
        JsonValue::Str(s) => JsonValue::Str(s.clone()),
        JsonValue::Array(items) => {
            let mut out: Vec<JsonValue> = Vec::new();
            let mut i: usize = 0;
            while i < items.len()
                invariant
                    i <= items@.len(),
                    out@.len() == i,
                    items_eq(items@, out@, i as int),
                    *v is Array,
                    v->Array_0 == *items,
                decreases items@.len() - i,
            {
                proof {
                    assert(decreases_to!(*v => v->Array_0));
                    assert(decreases_to!(v->Array_0 => v->Array_0@));
                    assert(decreases_to!(v->Array_0@ => v->Array_0@[i as int]));
                }
                let c = copy_json(&items[i]);
                proof {
                    lemma_items_eq_push(items@, out@, c, i as int);
                }
                out.push(c);
                i = i + 1;
            }
            JsonValue::Array(out)
        },
        JsonValue::Object(fields) => {
            let mut out: Vec<(String, JsonValue)> = Vec::new();
            let mut i: usize = 0;
            while i < fields.len()
                invariant
                    i <= fields@.len(),
                    out@.len() == i,
                    fields_eq(fields@, out@, i as int),
                    *v is Object,
                    v->Object_0 == *fields,
                decreases fields@.len() - i,
            {
                proof {
                    assert(decreases_to!(*v => v->Object_0));
                    assert(decreases_to!(v->Object_0 => v->Object_0@));
                    assert(decreases_to!(v->Object_0@ => v->Object_0@[i as int]));
                    assert(decreases_to!(v->Object_0@[i as int] => v->Object_0@[i as int].1));
                }
                let c = (fields[i].0.clone(), copy_json(&fields[i].1));
                proof {
                    lemma_fields_eq_push(fields@, out@, c, i as int);
                }
                out.push(c);
                i = i + 1;
            }
            JsonValue::Object(out)
        },
    }
}

} // verus!
