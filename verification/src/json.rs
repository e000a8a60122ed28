//! A JSON document model and the operations on it that the protocol logic
//! needs: object lookup and update, and RFC 6901 JSON Pointer evaluation.
use vstd::prelude::*;

use crate::text::{chars_eq, chars_of, string_of};

verus! {

/// A JSON number, kept in the form in which it was read.
#[derive(Debug, PartialEq)]
pub enum JsonNumber {
    /// A non-negative integer.
    PosInt(u64),
    /// A negative integer.
    NegInt(i64),
    /// Any other number, as its decimal text.
    Float(String),
}

/// A JSON value. An object is a list of members; a key is looked up by its
/// first occurrence.
#[derive(Debug, PartialEq)]
pub enum JsonValue {
    Null,
    Bool(bool),
    Number(JsonNumber),
    Str(String),
    Array(Vec<JsonValue>),
    Object(Vec<(String, JsonValue)>),
}

/// The mathematical content of a JSON number.
pub enum JNum {
    PosInt(u64),
    NegInt(i64),
    Float(Seq<char>),
}

/// The mathematical content of a JSON value: strings become character
/// sequences and vectors become sequences.
pub enum JModel {
    Null,
    Bool(bool),
    Number(JNum),
    Str(Seq<char>),
    Array(Seq<JModel>),
    Object(Seq<(Seq<char>, JModel)>),
}

/// The content of a number.
pub open spec fn num_model(n: JsonNumber) -> JNum {
    match n {
        JsonNumber::PosInt(u) => JNum::PosInt(u),
        JsonNumber::NegInt(i) => JNum::NegInt(i),
        JsonNumber::Float(s) => JNum::Float(s@),
    }
}

/// The content of a value.
pub open spec fn jm(v: JsonValue) -> JModel
    decreases v,
{
    match v {
        JsonValue::Null => JModel::Null,
        JsonValue::Bool(b) => JModel::Bool(b),
        JsonValue::Number(n) => JModel::Number(num_model(n)),
        JsonValue::Str(s) => JModel::Str(s@),
        JsonValue::Array(l) => JModel::Array(jm_items(l@)),
        JsonValue::Object(m) => JModel::Object(jm_entries(m@)),
    }
}

/// The content of a list of values.
pub open spec fn jm_items(s: Seq<JsonValue>) -> Seq<JModel>
    decreases s,
{
    if s.len() == 0 {
        Seq::empty()
    } else {
        jm_items(s.drop_last()).push(jm(s.last()))
    }
}

/// The content of a list of object members.
pub open spec fn jm_entries(s: Seq<(String, JsonValue)>) -> Seq<(Seq<char>, JModel)>
    decreases s,
{
    if s.len() == 0 {
        Seq::empty()
    } else {
        jm_entries(s.drop_last()).push((s.last().0@, jm(s.last().1)))
    }
}

pub proof fn lemma_jm_items(s: Seq<JsonValue>)
    ensures
        jm_items(s).len() == s.len(),
        forall|i: int| 0 <= i < s.len() ==> #[trigger] jm_items(s)[i] == jm(s[i]),
    decreases s.len(),
{
    if s.len() > 0 {
        lemma_jm_items(s.drop_last());
    }
}

pub proof fn lemma_jm_entries(s: Seq<(String, JsonValue)>)
    ensures
        jm_entries(s).len() == s.len(),
        forall|i: int| 0 <= i < s.len() ==> #[trigger] jm_entries(s)[i] == (s[i].0@, jm(s[i].1)),
    decreases s.len(),
{
    if s.len() > 0 {
        lemma_jm_entries(s.drop_last());
    }
}

/// Two item lists with the same contents position by position have the
/// same content.
pub proof fn lemma_jm_items_ext(a: Seq<JsonValue>, b: Seq<JsonValue>)
    requires
        a.len() == b.len(),
        forall|i: int| 0 <= i < a.len() ==> jm(#[trigger] a[i]) == jm(b[i]),
    ensures
        jm_items(a) == jm_items(b),
{
    lemma_jm_items(a);
    lemma_jm_items(b);
    assert(jm_items(a) =~= jm_items(b));
}

/// Two member lists with the same keys and contents have the same content.
pub proof fn lemma_jm_entries_ext(a: Seq<(String, JsonValue)>, b: Seq<(String, JsonValue)>)
    requires
        a.len() == b.len(),
        forall|i: int| 0 <= i < a.len() ==> (#[trigger] a[i]).0@ == b[i].0@ && jm(a[i].1) == jm(b[i].1),
    ensures
        jm_entries(a) == jm_entries(b),
{
    lemma_jm_entries(a);
    lemma_jm_entries(b);
    assert(jm_entries(a) =~= jm_entries(b));
}

// ── Object members ──────────────────────────────────────────────────────────

/// The value stored under `key` (its first occurrence), if any.
pub open spec fn obj_lookup(entries: Seq<(Seq<char>, JModel)>, key: Seq<char>) -> Option<JModel>
    decreases entries.len(),
{
    if entries.len() == 0 {
        None
    } else if entries[0].0 == key {
        Some(entries[0].1)
    } else {
        obj_lookup(entries.drop_first(), key)
    }
}

/// The members other than those stored under `key`, in order.
pub open spec fn obj_without(entries: Seq<(Seq<char>, JModel)>, key: Seq<char>) -> Seq<(Seq<char>, JModel)>
    decreases entries.len(),
{
    if entries.len() == 0 {
        entries
    } else if entries.last().0 == key {
        obj_without(entries.drop_last(), key)
    } else {
        obj_without(entries.drop_last(), key).push(entries.last())
    }
}

/// The members after `key` has been set to `value`: every earlier member
/// under `key` is dropped and the new member comes last.
pub open spec fn obj_set(entries: Seq<(Seq<char>, JModel)>, key: Seq<char>, value: JModel) -> Seq<(Seq<char>, JModel)> {
    obj_without(entries, key).push((key, value))
}

/// Lookup with one member appended.
pub proof fn lemma_lookup_push(entries: Seq<(Seq<char>, JModel)>, e: (Seq<char>, JModel), key: Seq<char>)
    ensures
        obj_lookup(entries, key) is Some ==> obj_lookup(entries.push(e), key) == obj_lookup(entries, key),
        obj_lookup(entries, key) is None ==> obj_lookup(entries.push(e), key) == (if e.0 == key {
            Some(e.1)
        } else {
            None
        }),
    decreases entries.len(),
{
    if entries.len() > 0 {
        let rest = entries.drop_first();
        assert(entries.push(e).drop_first() =~= rest.push(e));
        assert(entries.push(e)[0] == entries[0]);
        lemma_lookup_push(rest, e, key);
        if entries[0].0 == key {
            assert(obj_lookup(entries.push(e), key) == Some(entries[0].1));
        } else {
            assert(obj_lookup(entries.push(e), key) == obj_lookup(rest.push(e), key));
            assert(obj_lookup(entries, key) == obj_lookup(rest, key));
            assert(obj_lookup(entries, key) is None ==> obj_lookup(entries.push(e), key) == (if e.0 == key {
                Some(e.1)
            } else {
                None
            }));
        }
    } else {
        assert(entries.push(e).drop_first() =~= Seq::<(Seq<char>, JModel)>::empty());
        assert(entries.push(e)[0] == e);
        assert(obj_lookup(entries, key) is None);
        if e.0 == key {
            assert(obj_lookup(entries.push(e), key) == Some(e.1));
        } else {
            assert(obj_lookup(entries.push(e).drop_first(), key) is None);
            assert(obj_lookup(entries.push(e), key) is None);
        }
    }
}

/// Lookup after a key was removed.
pub proof fn lemma_lookup_without(entries: Seq<(Seq<char>, JModel)>, removed: Seq<char>, key: Seq<char>)
    ensures
        obj_lookup(obj_without(entries, removed), key) == if key == removed {
            None
        } else {
            obj_lookup(entries, key)
        },
    decreases entries.len(),
{
    if entries.len() > 0 {
        let rest = entries.drop_last();
        lemma_lookup_without(rest, removed, key);
        lemma_lookup_push(obj_without(rest, removed), entries.last(), key);
        lemma_lookup_push(rest, entries.last(), key);
        assert(rest.push(entries.last()) == entries);
    }
}

/// Lookup after a key was set.
pub proof fn lemma_lookup_set(entries: Seq<(Seq<char>, JModel)>, k: Seq<char>, v: JModel, key: Seq<char>)
    ensures
        obj_lookup(obj_set(entries, k, v), key) == if key == k {
            Some(v)
        } else {
            obj_lookup(entries, key)
        },
{
    lemma_lookup_without(entries, k, key);
    lemma_lookup_push(obj_without(entries, k), (k, v), key);
}

/// A number with the same content.
pub fn clone_number(n: &JsonNumber) -> (r: JsonNumber)
    ensures
        num_model(r) == num_model(*n),
{
    match n {
        JsonNumber::PosInt(u) => JsonNumber::PosInt(*u),
        JsonNumber::NegInt(i) => JsonNumber::NegInt(*i),
        JsonNumber::Float(s) => JsonNumber::Float(s.clone()),
    }
}

/// A value with the same content.
#[verifier::loop_isolation(false)]
pub fn clone_json(v: &JsonValue) -> (r: JsonValue)
    ensures
        jm(r) == jm(*v),
    decreases *v,
{
    match v {
        JsonValue::Null => JsonValue::Null,
        JsonValue::Bool(b) => JsonValue::Bool(*b),
        JsonValue::Number(n) => JsonValue::Number(clone_number(n)),
        JsonValue::Str(s) => JsonValue::Str(s.clone()),
        JsonValue::Array(items) => {
            let mut out: Vec<JsonValue> = Vec::new();
            let mut i: usize = 0;
            while i < items.len()
                invariant
                    i <= items.len(),
                    out@.len() == i,
                    forall|j: int| 0 <= j < i ==> jm(#[trigger] out@[j]) == jm(items@[j]),
                decreases items.len() - i,
            {
                assert(decreases_to!(*v => v->Array_0));
                assert(v->Array_0 == *items);
                let c = clone_json(&items[i]);
                out.push(c);
                i = i + 1;
            }
            proof {
                lemma_jm_items_ext(out@, items@);
            }
            JsonValue::Array(out)
        },
        JsonValue::Object(entries) => {
            let mut out: Vec<(String, JsonValue)> = Vec::new();
            let mut i: usize = 0;
            while i < entries.len()
                invariant
                    i <= entries.len(),
                    out@.len() == i,
                    forall|j: int| 0 <= j < i ==> (#[trigger] out@[j]).0@ == entries@[j].0@ && jm(out@[j].1) == jm(entries@[j].1),
                decreases entries.len() - i,
            {
                assert(decreases_to!(*v => v->Object_0));
                assert(v->Object_0 == *entries);
                let c = clone_json(&entries[i].1);
                out.push((entries[i].0.clone(), c));
                i = i + 1;
            }
            proof {
                lemma_jm_entries_ext(out@, entries@);
            }
            JsonValue::Object(out)
        },
    }
}

/// Index of the first member stored under `key`.
pub fn obj_find(entries: &Vec<(String, JsonValue)>, key: &str) -> (r: Option<usize>)
    ensures
        match r {
            Some(i) => i < entries.len() && entries@[i as int].0@ == key@ && obj_lookup(jm_entries(entries@), key@)
                == Some(jm(entries@[i as int].1)),
            None => obj_lookup(jm_entries(entries@), key@) is None,
        },
{
    let k = chars_of(key);
    let ghost es = jm_entries(entries@);
    proof {
        lemma_jm_entries(entries@);
        assert(es.skip(0) == es);
    }
    let mut i: usize = 0;
    while i < entries.len()
        invariant
            i <= entries.len(),
            k@ == key@,
            es == jm_entries(entries@),
            es.len() == entries@.len(),
            forall|j: int| 0 <= j < entries@.len() ==> #[trigger] es[j] == (entries@[j].0@, jm(entries@[j].1)),
            obj_lookup(es, key@) == obj_lookup(es.skip(i as int), key@),
        decreases entries.len() - i,
    {
        assert(es.skip(i as int).drop_first() == es.skip(i + 1));
        assert(es.skip(i as int)[0] == es[i as int]);
        let ek = chars_of(entries[i].0.as_str());
        if chars_eq(&ek, &k) {
            return Some(i);
        }
        i = i + 1;
    }
    None
}

/// The value stored under `key`, if any.
pub fn obj_get<'a>(entries: &'a Vec<(String, JsonValue)>, key: &str) -> (r: Option<&'a JsonValue>)
    ensures
        match r {
            Some(v) => obj_lookup(jm_entries(entries@), key@) == Some(jm(*v)),
            None => obj_lookup(jm_entries(entries@), key@) is None,
        },
{
    match obj_find(entries, key) {
        Some(i) => Some(&entries[i].1),
        None => None,
    }
}

/// The members other than those stored under `key`.
pub fn obj_remove(entries: &Vec<(String, JsonValue)>, key: &Vec<char>) -> (r: Vec<(String, JsonValue)>)
    ensures
        jm_entries(r@) == obj_without(jm_entries(entries@), key@),
{
    let mut out: Vec<(String, JsonValue)> = Vec::new();
    let mut i: usize = 0;
    proof {
        lemma_jm_entries(entries@);
        assert(entries@.take(0) == Seq::<(String, JsonValue)>::empty());
    }
    while i < entries.len()
        invariant
            i <= entries.len(),
            jm_entries(out@) == obj_without(jm_entries(entries@.take(i as int)), key@),
        decreases entries.len() - i,
    {
        let ek = chars_of(entries[i].0.as_str());
        proof {
            assert(entries@.take(i + 1).drop_last() == entries@.take(i as int));
            assert(entries@.take(i + 1).last() == entries@[i as int]);
        }
        let ghost pre = jm_entries(entries@.take(i as int));
        let ghost item = (entries@[i as int].0@, jm(entries@[i as int].1));
        proof {
            assert(jm_entries(entries@.take(i + 1)) == pre.push(item));
            assert(pre.push(item).drop_last() =~= pre);
            assert(pre.push(item).last() == item);
        }
        if !chars_eq(&ek, key) {
            let c = clone_json(&entries[i].1);
            let ghost before = out@;
            out.push((entries[i].0.clone(), c));
            proof {
                assert(out@.drop_last() =~= before);
                assert(jm_entries(out@) == jm_entries(before).push(item));
            }
        }
        i = i + 1;
    }
    assert(entries@.take(entries.len() as int) == entries@);
    out
}

/// Sets `key` to `value`: earlier members under `key` are dropped and the new
/// member comes last.
pub fn obj_insert(entries: &Vec<(String, JsonValue)>, key: String, value: JsonValue) -> (r: Vec<(String, JsonValue)>)
    ensures
        jm_entries(r@) == obj_set(jm_entries(entries@), key@, jm(value)),
{
    let k = chars_of(key.as_str());
    let mut out = obj_remove(entries, &k);
    let ghost before = out@;
    out.push((key, value));
    proof {
        assert(out@.drop_last() == before);
    }
    out
}

// ── JSON Pointer (RFC 6901) ──────────────────────────────────────────────────

/// The pieces of `s` between the `/` separators (`str::split('/')`).
pub open spec fn split_slash(s: Seq<char>) -> Seq<Seq<char>>
    decreases s.len(),
{
    if s.len() == 0 {
        seq![Seq::<char>::empty()]
    } else {
        let r = split_slash(s.drop_last());
        if s.last() == '/' {
            r.push(Seq::<char>::empty())
        } else {
            r.update(r.len() - 1, r.last().push(s.last()))
        }
    }
}

/// `s` with every `~` followed by `c` replaced by `by`, scanning left to
/// right (`str::replace` with a two-character pattern).
pub open spec fn replace_tilde(s: Seq<char>, c: char, by: char) -> Seq<char>
    decreases s.len(),
{
    if s.len() < 2 {
        s
    } else if s[0] == '~' && s[1] == c {
        seq![by] + replace_tilde(s.skip(2), c, by)
    } else {
        seq![s[0]] + replace_tilde(s.skip(1), c, by)
    }
}

/// A reference token with its escapes undone: `~1` becomes `/`, then `~0`
/// becomes `~`.
pub open spec fn unescape_token(t: Seq<char>) -> Seq<char> {
    replace_tilde(replace_tilde(t, '1', '/'), '0', '~')
}

/// Value of a string of decimal digits.
pub open spec fn digits_value(s: Seq<char>) -> nat
    decreases s.len(),
{
    if s.len() == 0 {
        0
    } else {
        digits_value(s.drop_last()) * 10 + (s.last() as nat - '0' as nat) as nat
    }
}

/// All characters are ASCII digits.
pub open spec fn all_digits(s: Seq<char>) -> bool {
    forall|i: int| 0 <= i < s.len() ==> '0' <= #[trigger] s[i] <= '9'
}

/// An array index token: digits without a leading zero (except `0` itself)
/// whose value fits in a `usize`.
pub open spec fn array_index(t: Seq<char>) -> Option<usize> {
    if t.len() > 0 && all_digits(t) && !(t[0] == '0' && t.len() != 1) && digits_value(t)
        <= usize::MAX {
        Some(digits_value(t) as usize)
    } else {
        None
    }
}

/// The value reached from `v` by following the reference tokens `toks`.
pub open spec fn follow_tokens(v: JModel, toks: Seq<Seq<char>>) -> Option<JModel>
    decreases toks.len(),
{
    if toks.len() == 0 {
        Some(v)
    } else {
        match v {
            JModel::Object(m) => match obj_lookup(m, toks[0]) {
                Some(x) => follow_tokens(x, toks.drop_first()),
                None => None,
            },
            JModel::Array(l) => match array_index(toks[0]) {
                Some(i) => if i < l.len() {
                    follow_tokens(l[i as int], toks.drop_first())
                } else {
                    None
                },
                None => None,
            },
            _ => None,
        }
    }
}

/// The reference tokens of a pointer that starts with `/`.
pub open spec fn pointer_tokens(p: Seq<char>) -> Seq<Seq<char>> {
    split_slash(p).drop_first().map_values(|t: Seq<char>| unescape_token(t))
}

/// The value that the JSON Pointer `p` designates in `v` (RFC 6901).
pub open spec fn pointer_spec(v: JModel, p: Seq<char>) -> Option<JModel> {
    if p.len() == 0 {
        Some(v)
    } else if p[0] != '/' {
        None
    } else {
        follow_tokens(v, pointer_tokens(p))
    }
}

proof fn lemma_split_nonempty(s: Seq<char>)
    ensures
        split_slash(s).len() >= 1,
    decreases s.len(),
{
    if s.len() > 0 {
        lemma_split_nonempty(s.drop_last());
    }
}

/// Splits a string on `/`.
pub fn split_slash_exec(s: &Vec<char>) -> (r: Vec<Vec<char>>)
    ensures
        r@.len() == split_slash(s@).len(),
        forall|i: int| 0 <= i < r@.len() ==> #[trigger] r@[i]@ == split_slash(s@)[i],
{
    let mut out: Vec<Vec<char>> = Vec::new();
    out.push(Vec::new());
    let mut i: usize = 0;
    proof {
        assert(s@.take(0) =~= Seq::<char>::empty());
    }
    while i < s.len()
        invariant
            i <= s.len(),
            out@.len() == split_slash(s@.take(i as int)).len(),
            out@.len() >= 1,
            forall|j: int| 0 <= j < out@.len() ==> #[trigger] out@[j]@ == split_slash(s@.take(i as int))[j],
        decreases s.len() - i,
    {
        let c = s[i];
        proof {
            assert(s@.take(i + 1).drop_last() == s@.take(i as int));
            assert(s@.take(i + 1).last() == c);
        }
        if c == '/' {
            out.push(Vec::new());
        } else {
            let last = out.len() - 1;
            let mut cur = out.remove(last);
            cur.push(c);
            out.push(cur);
        }
        i = i + 1;
    }
    proof {
        assert(s@.take(s.len() as int) == s@);
    }
    out
}

/// `replace_tilde` on a vector of characters.
pub fn replace_tilde_exec(s: &Vec<char>, c: char, by: char) -> (r: Vec<char>)
    ensures
        r@ == replace_tilde(s@, c, by),
{
    let mut out: Vec<char> = Vec::new();
    let mut i: usize = 0;
    assert(s@.skip(0) == s@);
    assert(out@ + s@ == s@);
    while i < s.len()
        invariant
            i <= s.len(),
            replace_tilde(s@, c, by) == out@ + replace_tilde(s@.skip(i as int), c, by),
        decreases s.len() - i,
    {
        let ghost rest = s@.skip(i as int);
        if i + 1 < s.len() && s[i] == '~' && s[i + 1] == c {
            proof {
                assert(rest[0] == '~' && rest[1] == c);
                assert(rest.skip(2) == s@.skip(i + 2));
                assert(out@ + (seq![by] + replace_tilde(rest.skip(2), c, by)) == out@.push(by)
                    + replace_tilde(rest.skip(2), c, by));
            }
            out.push(by);
            i = i + 2;
        } else {
            proof {
                if rest.len() >= 2 {
                    assert(rest.skip(1) == s@.skip(i + 1));
                    assert(out@ + (seq![rest[0]] + replace_tilde(rest.skip(1), c, by)) == out@.push(
                        rest[0],
                    ) + replace_tilde(rest.skip(1), c, by));
                } else {
                    assert(rest.len() == 1);
                    assert(s@.skip(i + 1).len() == 0);
                    assert(replace_tilde(s@.skip(i + 1), c, by) == s@.skip(i + 1));
                    assert(out@ + rest =~= out@.push(rest[0]) + s@.skip(i + 1));
                }
            }
            out.push(s[i]);
            i = i + 1;
        }
    }
    proof {
        assert(s@.skip(s.len() as int).len() == 0);
        assert(out@ + replace_tilde(s@.skip(s.len() as int), c, by) =~= out@);
    }
    out
}

/// `array_index` on a vector of characters.
pub fn array_index_exec(t: &Vec<char>) -> (r: Option<usize>)
    ensures
        r == array_index(t@),
{
    if t.len() == 0 {
        return None;
    }
    if t[0] == '0' && t.len() != 1 {
        return None;
    }
    let mut acc: usize = 0;
    let mut i: usize = 0;
    while i < t.len()
        invariant
            i <= t.len(),
            t.len() > 0,
            !(t@[0] == '0' && t.len() != 1),
            all_digits(t@.take(i as int)),
            acc == digits_value(t@.take(i as int)),
        decreases t.len() - i,
    {
        let c = t[i];
        assert(t@.take(i + 1).drop_last() == t@.take(i as int));
        if !('0' <= c && c <= '9') {
            proof {
                assert(!all_digits(t@));
            }
            return None;
        }
        let d: usize = ((c as u32) - ('0' as u32)) as usize;
        if acc > (usize::MAX - d) / 10 {
            proof {
                if all_digits(t@) {
                    lemma_digits_monotone(t@, i + 1);
                }
                assert(digits_value(t@.take(i + 1)) == acc * 10 + d);
                assert(acc * 10 + d > usize::MAX) by (nonlinear_arith)
                    requires
                        acc > (usize::MAX - d) / 10,
                        d <= 9,
                ;
            }
            return None;
        }
        proof {
            assert(acc * 10 + d <= usize::MAX) by (nonlinear_arith)
                requires
                    acc <= (usize::MAX - d) / 10,
                    d <= 9,
            ;
        }
        acc = acc * 10 + d;
        i = i + 1;
    }
    assert(t@.take(t.len() as int) == t@);
    Some(acc)
}

/// Digit values only grow as digits are appended.
proof fn lemma_digits_monotone(t: Seq<char>, n: int)
    requires
        0 <= n <= t.len(),
        all_digits(t),
    ensures
        digits_value(t) >= digits_value(t.take(n)),
    decreases t.len() - n,
{
    if n < t.len() {
        lemma_digits_monotone(t, n + 1);
        assert(t.take(n + 1).drop_last() == t.take(n));
        assert('0' <= t[n] <= '9');
    } else {
        assert(t.take(n) == t);
    }
}

/// Follows reference tokens from `v`.
fn follow_tokens_exec<'a>(v: &'a JsonValue, toks: &Vec<Vec<char>>, start: usize) -> (r: Option<&'a JsonValue>)
    requires
        start <= toks.len(),
    ensures
        match r {
            Some(x) => follow_tokens(jm(*v), toks@.skip(start as int).map_values(|t: Vec<char>| t@)) == Some(jm(*x)),
            None => follow_tokens(jm(*v), toks@.skip(start as int).map_values(|t: Vec<char>| t@)) is None,
        },
    decreases toks.len() - start,
{
    let ghost ts = toks@.skip(start as int).map_values(|t: Vec<char>| t@);
    if start == toks.len() {
        assert(ts.len() == 0);
        return Some(v);
    }
    assert(ts[0] == toks@[start as int]@);
    assert(ts.drop_first() == toks@.skip(start + 1).map_values(|t: Vec<char>| t@));
    match v {
        JsonValue::Object(m) => {
            let key = string_of(toks[start].as_slice());
            match obj_get(m, key.as_str()) {
                Some(x) => follow_tokens_exec(x, toks, start + 1),
                None => None,
            }
        },
        JsonValue::Array(l) => {
            match array_index_exec(&toks[start]) {
                Some(i) => {
                    proof {
                        lemma_jm_items(l@);
                    }
                    if i < l.len() {
                        follow_tokens_exec(&l[i], toks, start + 1)
                    } else {
                        None
                    }
                },
                None => None,
            }
        },
        _ => None,
    }
}

/// Evaluates the JSON Pointer `p` against `v` (`serde_json::Value::pointer`).
pub fn pointer<'a>(v: &'a JsonValue, p: &str) -> (r: Option<&'a JsonValue>)
    ensures
        match r {
            Some(x) => pointer_spec(jm(*v), p@) == Some(jm(*x)),
            None => pointer_spec(jm(*v), p@) is None,
        },
{
    let pc = chars_of(p);
    if pc.len() == 0 {
        return Some(v);
    }
    if pc[0] != '/' {
        return None;
    }
    let parts = split_slash_exec(&pc);
    let mut toks: Vec<Vec<char>> = Vec::new();
    let mut i: usize = 1;
    proof {
        lemma_split_nonempty(pc@);
    }
    while i < parts.len()
        invariant
            1 <= i <= parts.len(),
            parts@.len() == split_slash(pc@).len(),
            forall|j: int| 0 <= j < parts@.len() ==> #[trigger] parts@[j]@ == split_slash(pc@)[j],
            toks@.len() == i - 1,
            forall|j: int| 0 <= j < toks@.len() ==> #[trigger] toks@[j]@ == pointer_tokens(pc@)[j],
        decreases parts.len() - i,
    {
        let a = replace_tilde_exec(&parts[i], '1', '/');
        let b = replace_tilde_exec(&a, '0', '~');
        toks.push(b);
        i = i + 1;
    }
    proof {
        let ts = toks@.skip(0).map_values(|t: Vec<char>| t@);
        assert(ts =~= pointer_tokens(pc@));
    }
    follow_tokens_exec(v, &toks, 0)
}


// ── Members of a value ──────────────────────────────────────────────────────

/// The member `key` of `v`, when `v` is an object that has one.
pub open spec fn member(v: JModel, key: Seq<char>) -> Option<JModel> {
    match v {
        JModel::Object(e) => obj_lookup(e, key),
        _ => None,
    }
}

/// The member `key` of `v`, when `v` is an object that has one.
pub fn get_member<'a>(v: &'a JsonValue, key: &str) -> (r: Option<&'a JsonValue>)
    ensures
        match r {
            Some(x) => member(jm(*v), key@) == Some(jm(*x)),
            None => member(jm(*v), key@) is None,
        },
{
    match v {
        JsonValue::Object(e) => obj_get(e, key),
        _ => None,
    }
}

/// The value as an unsigned integer, when it is a non-negative integer.
pub open spec fn json_as_u64(v: JModel) -> Option<u64> {
    match v {
        JModel::Number(JNum::PosInt(u)) => Some(u),
        JModel::Number(JNum::NegInt(i)) => if i >= 0 { Some(i as u64) } else { None },
        _ => None,
    }
}

/// The value as an unsigned integer, when it is a non-negative integer.
pub fn as_u64(v: &JsonValue) -> (r: Option<u64>)
    ensures
        r == json_as_u64(jm(*v)),
{
    match v {
        JsonValue::Number(JsonNumber::PosInt(u)) => Some(*u),
        JsonValue::Number(JsonNumber::NegInt(i)) => {
            if *i >= 0 {
                Some(*i as u64)
            } else {
                None
            }
        },
        _ => None,
    }
}

} // verus!
