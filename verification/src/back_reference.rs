//! Result references between the method calls of one request.
//!
//! A later call may use the result of an earlier one: an argument
//! `"#key": {"resultOf": id, "name": method, "path": pointer}` is replaced,
//! before the call runs, by `"key"` set to the value that the JSON Pointer
//! designates in the earlier call's response.
use vstd::prelude::*;

use crate::json::{
    clone_json, jm, jm_entries, lemma_jm_entries, lemma_jm_items, lemma_lookup_set, obj_get,
    obj_insert, obj_lookup, obj_remove, obj_set, obj_without, pointer, pointer_spec, JModel,
    JsonValue,
};
use crate::outside::{debug_quoted, debug_text};
use crate::text::{chars_of, chars_skip, concat, seq_starts_with, starts_with_chars, string_of};

verus! {

/// A reference to the result of an earlier method call.
#[derive(Debug, PartialEq, Eq)]
pub struct ResultReference {
    /// Id of the earlier call.
    pub result_of: String,
    /// Method name of the earlier call.
    pub name: String,
    /// JSON Pointer into the earlier call's response.
    pub path: String,
}

/// Why a reference could not be resolved.
#[derive(Debug)]
pub enum BackRefError {
    /// No completed call has this id and method name.
    ResultNotFound(String, String),
    /// The referenced call answered with an error.
    ResultWasError(String),
    /// The path (first field) designates nothing in the response of the
    /// call (second field).
    PathNotFound(String, String),
}

/// The text of an error.
pub open spec fn back_ref_error_text(e: RefErr) -> Seq<char> {
    match e {
        RefErr::ResultNotFound(id, name) => "result not found: no completed call with id="@ + debug_text(id)
            + " and method="@ + debug_text(name),
        RefErr::ResultWasError(id) => "referenced call id="@ + debug_text(id) + " returned an error response"@,
        RefErr::PathNotFound(path, id) => "path "@ + debug_text(path) + " resolved to nothing in the response for call id="@
            + debug_text(id),
    }
}

impl BackRefError {
    /// The error's text.
    pub fn message(&self) -> (r: String)
        ensures
            r@ == back_ref_error_text(ref_err(*self)),
    {
        match self {
            BackRefError::ResultNotFound(id, name) => {
                let a = concat("result not found: no completed call with id=", debug_quoted(id.as_str()).as_str());
                let b = concat(a.as_str(), " and method=");
                concat(b.as_str(), debug_quoted(name.as_str()).as_str())
            },
            BackRefError::ResultWasError(id) => {
                let a = concat("referenced call id=", debug_quoted(id.as_str()).as_str());
                concat(a.as_str(), " returned an error response")
            },
            BackRefError::PathNotFound(path, id) => {
                let a = concat("path ", debug_quoted(path.as_str()).as_str());
                let b = concat(a.as_str(), " resolved to nothing in the response for call id=");
                concat(b.as_str(), debug_quoted(id.as_str()).as_str())
            },
        }
    }
}

/// The content of a `BackRefError`.
pub enum RefErr {
    ResultNotFound(Seq<char>, Seq<char>),
    ResultWasError(Seq<char>),
    PathNotFound(Seq<char>, Seq<char>),
}

/// The content of an error.
pub open spec fn ref_err(e: BackRefError) -> RefErr {
    match e {
        BackRefError::ResultNotFound(a, b) => RefErr::ResultNotFound(a@, b@),
        BackRefError::ResultWasError(a) => RefErr::ResultWasError(a@),
        BackRefError::PathNotFound(a, b) => RefErr::PathNotFound(a@, b@),
    }
}

/// The reading of a value as a result reference: an object whose `resultOf`,
/// `name` and `path` members are strings (other members are ignored), or an
/// array of exactly three strings in that order.
pub open spec fn reference_of(v: JModel) -> Option<(Seq<char>, Seq<char>, Seq<char>)> {
    match v {
        JModel::Object(m) => match (
            obj_lookup(m, "resultOf"@),
            obj_lookup(m, "name"@),
            obj_lookup(m, "path"@),
        ) {
            (Some(JModel::Str(a)), Some(JModel::Str(b)), Some(JModel::Str(c))) => Some((a, b, c)),
            _ => None,
        },
        JModel::Array(l) => if l.len() == 3 {
            match (l[0], l[1], l[2]) {
                (JModel::Str(a), JModel::Str(b), JModel::Str(c)) => Some((a, b, c)),
                _ => None,
            }
        } else {
            None
        },
        _ => None,
    }
}

/// The error type prefix of a method-level error response.
pub open spec fn error_type_prefix() -> Seq<char> {
    "urn:ietf:params:jmap:error:"@
}

/// A response body is an error when it is an object whose `type` member is a
/// string that starts with the error type prefix.
pub open spec fn is_error_body(body: JModel) -> bool {
    match body {
        JModel::Object(m) => match obj_lookup(m, "type"@) {
            Some(JModel::Str(t)) => seq_starts_with(t, error_type_prefix()),
            _ => false,
        },
        _ => false,
    }
}

/// The content of the completed calls: (call id, method name, response).
pub open spec fn completed_model(c: Seq<(String, String, JsonValue)>) -> Seq<(Seq<char>, Seq<char>, JModel)> {
    c.map_values(|t: (String, String, JsonValue)| (t.0@, t.1@, jm(t.2)))
}

/// The response of the first completed call with this id and method name.
pub open spec fn find_completed(c: Seq<(Seq<char>, Seq<char>, JModel)>, id: Seq<char>, name: Seq<char>) -> Option<JModel>
    decreases c.len(),
{
    if c.len() == 0 {
        None
    } else if c[0].0 == id && c[0].1 == name {
        Some(c[0].2)
    } else {
        find_completed(c.drop_first(), id, name)
    }
}

/// The keys that start with `#`, in order.
pub open spec fn hash_keys(entries: Seq<(Seq<char>, JModel)>) -> Seq<Seq<char>>
    decreases entries.len(),
{
    if entries.len() == 0 {
        Seq::empty()
    } else if seq_starts_with(entries.last().0, "#"@) {
        hash_keys(entries.drop_last()).push(entries.last().0)
    } else {
        hash_keys(entries.drop_last())
    }
}

/// The outcome of resolving the argument stored under `hash_key`: the new
/// arguments, or the error.
pub open spec fn resolve_one(
    args: Seq<(Seq<char>, JModel)>,
    hash_key: Seq<char>,
    completed: Seq<(Seq<char>, Seq<char>, JModel)>,
) -> Result<Seq<(Seq<char>, JModel)>, RefErr> {
    match obj_lookup(args, hash_key) {
        None => Ok(args),
        Some(raw) => match reference_of(raw) {
            None => Ok(args),
            Some((id, name, path)) => match find_completed(completed, id, name) {
                None => Err(RefErr::ResultNotFound(id, name)),
                Some(body) => if is_error_body(body) {
                    Err(RefErr::ResultWasError(id))
                } else {
                    match pointer_spec(body, path) {
                        None => Err(RefErr::PathNotFound(path, id)),
                        Some(x) => Ok(obj_set(obj_without(args, hash_key), hash_key.drop_first(), x)),
                    }
                },
            },
        },
    }
}

/// The outcome of resolving the arguments under `keys` one after the other:
/// the arguments reached, and the first error, if any (the arguments are
/// then those before the failing key).
pub open spec fn resolve_all(
    args: Seq<(Seq<char>, JModel)>,
    keys: Seq<Seq<char>>,
    completed: Seq<(Seq<char>, Seq<char>, JModel)>,
) -> (Seq<(Seq<char>, JModel)>, Option<RefErr>)
    decreases keys.len(),
{
    if keys.len() == 0 {
        (args, None)
    } else {
        match resolve_one(args, keys[0], completed) {
            Err(e) => (args, Some(e)),
            Ok(next) => resolve_all(next, keys.drop_first(), completed),
        }
    }
}

/// Reads a value as a result reference.
pub fn reference_from(v: &JsonValue) -> (r: Option<ResultReference>)
    ensures
        match r {
            Some(rr) => reference_of(jm(*v)) == Some((rr.result_of@, rr.name@, rr.path@)),
            None => reference_of(jm(*v)) is None,
        },
{
    match v {
        JsonValue::Object(m) => {
            let a = obj_get(m, "resultOf");
            let b = obj_get(m, "name");
            let c = obj_get(m, "path");
            match (a, b, c) {
                (Some(JsonValue::Str(x)), Some(JsonValue::Str(y)), Some(JsonValue::Str(z))) => {
                    Some(ResultReference { result_of: x.clone(), name: y.clone(), path: z.clone() })
                },
                _ => None,
            }
        },
        JsonValue::Array(l) => {
            proof {
                lemma_jm_items(l@);
            }
            if l.len() == 3 {
                match (&l[0], &l[1], &l[2]) {
                    (JsonValue::Str(x), JsonValue::Str(y), JsonValue::Str(z)) => {
                        Some(
                            ResultReference { result_of: x.clone(), name: y.clone(), path: z.clone() },
                        )
                    },
                    _ => None,
                }
            } else {
                None
            }
        },
        _ => None,
    }
}

/// Whether a response body is a method-level error.
pub fn is_error_response(body: &JsonValue) -> (r: bool)
    ensures
        r == is_error_body(jm(*body)),
{
    match body {
        JsonValue::Object(m) => match obj_get(m, "type") {
            Some(JsonValue::Str(t)) => {
                let tc = chars_of(t.as_str());
                let pc = chars_of("urn:ietf:params:jmap:error:");
                starts_with_chars(&tc, &pc)
            },
            _ => false,
        },
        _ => false,
    }
}

/// Index of the first completed call with this id and method name.
fn find_completed_exec(completed: &[(String, String, JsonValue)], id: &String, name: &String) -> (r: Option<usize>)
    ensures
        match r {
            Some(j) => j < completed@.len() && find_completed(completed_model(completed@), id@, name@)
                == Some(jm(completed@[j as int].2)),
            None => find_completed(completed_model(completed@), id@, name@) is None,
        },
{
    let ghost cm = completed_model(completed@);
    let mut j: usize = 0;
    assert(cm.skip(0) == cm);
    while j < completed.len()
        invariant
            j <= completed@.len(),
            cm == completed_model(completed@),
            cm.len() == completed@.len(),
            find_completed(cm, id@, name@) == find_completed(cm.skip(j as int), id@, name@),
        decreases completed.len() - j,
    {
        assert(cm.skip(j as int).drop_first() == cm.skip(j + 1));
        assert(cm.skip(j as int)[0] == cm[j as int]);
        if completed[j].0 == *id && completed[j].1 == *name {
            return Some(j);
        }
        j = j + 1;
    }
    None
}

/// The keys of `args` that start with `#`.
fn collect_hash_keys(args: &Vec<(String, JsonValue)>) -> (r: Vec<String>)
    ensures
        r@.map_values(|s: String| s@) == hash_keys(jm_entries(args@)),
{
    let hash = chars_of("#");
    let mut out: Vec<String> = Vec::new();
    let mut i: usize = 0;
    proof {
        lemma_jm_entries(args@);
        assert(args@.take(0) == Seq::<(String, JsonValue)>::empty());
        assert(out@.map_values(|s: String| s@) =~= Seq::<Seq<char>>::empty());
    }
    while i < args.len()
        invariant
            i <= args.len(),
            hash@ == "#"@,
            out@.map_values(|s: String| s@) == hash_keys(jm_entries(args@.take(i as int))),
        decreases args.len() - i,
    {
        let ghost pre = jm_entries(args@.take(i as int));
        let ghost item = (args@[i as int].0@, jm(args@[i as int].1));
        proof {
            assert(args@.take(i + 1).drop_last() == args@.take(i as int));
            assert(jm_entries(args@.take(i + 1)) == pre.push(item));
            assert(pre.push(item).drop_last() =~= pre);
            assert(pre.push(item).last() == item);
        }
        let k = chars_of(args[i].0.as_str());
        if starts_with_chars(&k, &hash) {
            let ghost before = out@;
            out.push(args[i].0.clone());
            proof {
                assert(out@.map_values(|s: String| s@) =~= before.map_values(|s: String| s@).push(
                    item.0,
                ));
            }
        }
        i = i + 1;
    }
    assert(args@.take(args.len() as int) == args@);
    out
}

/// Resolves the reference stored under `hash_key`, if any.
fn resolve_key(
    args: &mut Vec<(String, JsonValue)>,
    hash_key: &String,
    completed: &[(String, String, JsonValue)],
) -> (r: Result<(), BackRefError>)
    requires
        seq_starts_with(hash_key@, "#"@),
    ensures
        match resolve_one(jm_entries(old(args)@), hash_key@, completed_model(completed@)) {
            Ok(next) => r is Ok && jm_entries(final(args)@) == next,
            Err(e) => r is Err && ref_err(r->Err_0) == e && final(args)@ == old(args)@,
        },
{
    let reference = match obj_get(args, hash_key.as_str()) {
        Some(raw) => match reference_from(raw) {
            Some(rr) => rr,
            None => return Ok(()),
        },
        None => return Ok(()),
    };
    let j = match find_completed_exec(completed, &reference.result_of, &reference.name) {
        Some(j) => j,
        None => {
            return Err(BackRefError::ResultNotFound(reference.result_of, reference.name));
        },
    };
    let body = &completed[j].2;
    if is_error_response(body) {
        return Err(BackRefError::ResultWasError(reference.result_of));
    }
    let extracted = match pointer(body, reference.path.as_str()) {
        Some(x) => clone_json(x),
        None => {
            return Err(BackRefError::PathNotFound(reference.path, reference.result_of));
        },
    };
    let hk = chars_of(hash_key.as_str());
    proof {
        reveal_strlit("#");
    }
    let plain_chars = chars_skip(&hk, 1);
    let plain = string_of(plain_chars.as_slice());
    let removed = obj_remove(args, &hk);
    let updated = obj_insert(&removed, plain, extracted);
    *args = updated;
    Ok(())
}

/// Resolves every `#key` result reference of `args` in place, in the order
/// of the keys. A `#` key whose value does not have the shape of a result
/// reference is left alone. Stops at the first reference that cannot be
/// resolved and returns its error; the references before it stay resolved.
pub fn resolve_back_references(
    args: &mut Vec<(String, JsonValue)>,
    completed: &[(String, String, JsonValue)],
) -> (r: Result<(), BackRefError>)
    ensures
        ({
            let (out, err) = resolve_all(
                jm_entries(old(args)@),
                hash_keys(jm_entries(old(args)@)),
                completed_model(completed@),
            );
            &&& jm_entries(final(args)@) == out
            &&& match err {
                None => r is Ok,
                Some(e) => r is Err && ref_err(r->Err_0) == e,
            }
        }),
{
    let keys = collect_hash_keys(args);
    let ghost all_keys = keys@.map_values(|s: String| s@);
    let ghost start = jm_entries(args@);
    let mut i: usize = 0;
    proof {
        assert(all_keys.skip(0) == all_keys);
    }
    while i < keys.len()
        invariant
            i <= keys.len(),
            all_keys == keys@.map_values(|s: String| s@),
            all_keys == hash_keys(start),
            start == jm_entries(old(args)@),
            resolve_all(start, all_keys, completed_model(completed@)) == resolve_all(
                jm_entries(args@),
                all_keys.skip(i as int),
                completed_model(completed@),
            ),
        decreases keys.len() - i,
    {
        proof {
            lemma_hash_keys_start(start);
            assert(all_keys.skip(i as int)[0] == keys@[i as int]@);
            assert(all_keys.skip(i as int).drop_first() == all_keys.skip(i + 1));
        }
        let ghost before = jm_entries(args@);
        match resolve_key(args, &keys[i], completed) {
            Ok(()) => {},
            Err(e) => {
                proof {
                    assert(resolve_all(before, all_keys.skip(i as int), completed_model(completed@)) == (
                    before, Some(ref_err(e))));
                }
                return Err(e);
            },
        }
        i = i + 1;
    }
    Ok(())
}

/// Every key that `hash_keys` lists starts with `#`.
proof fn lemma_hash_keys_start(entries: Seq<(Seq<char>, JModel)>)
    ensures
        forall|i: int|
            0 <= i < hash_keys(entries).len() ==> seq_starts_with(#[trigger] hash_keys(entries)[i], "#"@),
    decreases entries.len(),
{
    if entries.len() > 0 {
        let rest = entries.drop_last();
        lemma_hash_keys_start(rest);
        if seq_starts_with(entries.last().0, "#"@) {
            assert forall|i: int| 0 <= i < hash_keys(entries).len() implies seq_starts_with(
                #[trigger] hash_keys(entries)[i],
                "#"@,
            ) by {
                if i < hash_keys(rest).len() {
                    assert(hash_keys(entries)[i] == hash_keys(rest)[i]);
                }
            }
        }
    }
}

// ── Laws ──────────────────────────────────────────────────────────────────────

/// A reference to a completed call that succeeded, with a path that
/// designates a value, is replaced by the plain key (without `#`) set to
/// that value; the `#` key is gone and every other key keeps its value.
pub proof fn law_resolved_reference_replaces_key(
    args: Seq<(Seq<char>, JModel)>,
    hash_key: Seq<char>,
    completed: Seq<(Seq<char>, Seq<char>, JModel)>,
    id: Seq<char>,
    name: Seq<char>,
    path: Seq<char>,
    body: JModel,
    value: JModel,
    other: Seq<char>,
)
    requires
        seq_starts_with(hash_key, "#"@),
        obj_lookup(args, hash_key) matches Some(raw) && reference_of(raw) == Some((id, name, path)),
        find_completed(completed, id, name) == Some(body),
        !is_error_body(body),
        pointer_spec(body, path) == Some(value),
        other != hash_key,
        other != hash_key.drop_first(),
    ensures
        resolve_one(args, hash_key, completed) matches Ok(next) && {
            &&& obj_lookup(next, hash_key.drop_first()) == Some(value)
            &&& obj_lookup(next, hash_key) is None
            &&& obj_lookup(next, other) == obj_lookup(args, other)
        },
{
    reveal_strlit("#");
    assert(hash_key.len() >= 1);
    assert(hash_key.drop_first().len() < hash_key.len());
    lemma_lookup_set(obj_without(args, hash_key), hash_key.drop_first(), value, hash_key.drop_first());
    lemma_lookup_set(obj_without(args, hash_key), hash_key.drop_first(), value, hash_key);
    lemma_lookup_set(obj_without(args, hash_key), hash_key.drop_first(), value, other);
    crate::json::lemma_lookup_without(args, hash_key, hash_key);
    crate::json::lemma_lookup_without(args, hash_key, other);
}

/// A `#` key whose value does not read as a result reference leaves the
/// arguments as they are.
pub proof fn law_non_reference_left_alone(
    args: Seq<(Seq<char>, JModel)>,
    hash_key: Seq<char>,
    completed: Seq<(Seq<char>, Seq<char>, JModel)>,
)
    requires
        obj_lookup(args, hash_key) matches Some(raw) && reference_of(raw) is None,
    ensures
        resolve_one(args, hash_key, completed) == Ok::<Seq<(Seq<char>, JModel)>, RefErr>(args),
{
}

/// Arguments without any `#` key are left as they are, whatever the
/// completed calls.
pub proof fn law_no_references_no_change(
    args: Seq<(Seq<char>, JModel)>,
    completed: Seq<(Seq<char>, Seq<char>, JModel)>,
)
    requires
        forall|i: int| 0 <= i < args.len() ==> !seq_starts_with(#[trigger] args[i].0, "#"@),
    ensures
        resolve_all(args, hash_keys(args), completed) == (args, None::<RefErr>),
{
    lemma_no_hash_keys(args);
}

proof fn lemma_no_hash_keys(args: Seq<(Seq<char>, JModel)>)
    requires
        forall|i: int| 0 <= i < args.len() ==> !seq_starts_with(#[trigger] args[i].0, "#"@),
    ensures
        hash_keys(args).len() == 0,
    decreases args.len(),
{
    if args.len() > 0 {
        assert(!seq_starts_with(args[args.len() - 1].0, "#"@));
        lemma_no_hash_keys(args.drop_last());
    }
}

/// A reference to a call that answered with an error fails with
/// `ResultWasError` naming that call.
pub proof fn law_reference_to_error_fails(
    args: Seq<(Seq<char>, JModel)>,
    hash_key: Seq<char>,
    completed: Seq<(Seq<char>, Seq<char>, JModel)>,
    id: Seq<char>,
    name: Seq<char>,
    path: Seq<char>,
    body: JModel,
)
    requires
        obj_lookup(args, hash_key) matches Some(raw) && reference_of(raw) == Some((id, name, path)),
        find_completed(completed, id, name) == Some(body),
        is_error_body(body),
    ensures
        resolve_one(args, hash_key, completed) == Err::<Seq<(Seq<char>, JModel)>, RefErr>(
            RefErr::ResultWasError(id),
        ),
{
}

/// Resolving keys one after the other, once the first `k` have all been
/// resolved, goes on from the arguments they reached.
proof fn lemma_resolve_split(
    args: Seq<(Seq<char>, JModel)>,
    keys: Seq<Seq<char>>,
    completed: Seq<(Seq<char>, Seq<char>, JModel)>,
    k: int,
)
    requires
        0 <= k <= keys.len(),
        resolve_all(args, keys.take(k), completed).1 is None,
    ensures
        resolve_all(args, keys, completed) == resolve_all(resolve_all(args, keys.take(k), completed).0, keys.skip(k), completed),
    decreases k,
{
    if k == 0 {
        assert(keys.skip(0) =~= keys);
    } else {
        let t = keys.take(k);
        assert(t[0] == keys[0]);
        assert(t.drop_first() =~= keys.drop_first().take(k - 1));
        assert(keys.drop_first().skip(k - 1) =~= keys.skip(k));
        match resolve_one(args, keys[0], completed) {
            Ok(next) => {
                lemma_resolve_split(next, keys.drop_first(), completed, k - 1);
            },
            Err(_) => {},
        }
    }
}

/// A key that no resolved key names, either as itself or as the plain key
/// it sets, keeps its value through the resolution, whether or not it
/// fails.
pub proof fn law_resolution_frame(
    args: Seq<(Seq<char>, JModel)>,
    keys: Seq<Seq<char>>,
    completed: Seq<(Seq<char>, Seq<char>, JModel)>,
    q: Seq<char>,
)
    requires
        forall|i: int| 0 <= i < keys.len() ==> #[trigger] keys[i] != q && keys[i].drop_first() != q,
    ensures
        obj_lookup(resolve_all(args, keys, completed).0, q) == obj_lookup(args, q),
    decreases keys.len(),
{
    if keys.len() > 0 {
        let h = keys[0];
        assert(h != q && h.drop_first() != q);
        assert forall|i: int| 0 <= i < keys.drop_first().len() implies #[trigger] keys.drop_first()[i] != q
            && keys.drop_first()[i].drop_first() != q by {
            assert(keys.drop_first()[i] == keys[i + 1]);
        }
        match resolve_one(args, h, completed) {
            Ok(next) => {
                law_resolution_frame(next, keys.drop_first(), completed, q);
                match obj_lookup(args, h) {
                    Some(raw) => match reference_of(raw) {
                        Some((id, name, path)) => match find_completed(completed, id, name) {
                            Some(body) => match pointer_spec(body, path) {
                                Some(x) => {
                                    lemma_lookup_set(obj_without(args, h), h.drop_first(), x, q);
                                    crate::json::lemma_lookup_without(args, h, q);
                                },
                                None => {},
                            },
                            None => {},
                        },
                        None => {},
                    },
                    None => {},
                }
            },
            Err(_) => {},
        }
    }
}

/// When the `#` keys before the `k`-th have all been resolved, the
/// resolution fails exactly when that key fails, with that key's error
/// (`ResultNotFound`, `ResultWasError` or `PathNotFound`, as `resolve_one`
/// gives them), and the arguments are those the earlier keys reached.
/// Where every key starts with `#`, no key's plain form starts with `#`,
/// and no key comes twice, the value under the `k`-th key is still the one
/// the request gave.
pub proof fn law_kth_reference_error(
    args: Seq<(Seq<char>, JModel)>,
    keys: Seq<Seq<char>>,
    completed: Seq<(Seq<char>, Seq<char>, JModel)>,
    k: int,
)
    requires
        0 <= k < keys.len(),
        resolve_all(args, keys.take(k), completed).1 is None,
    ensures
        ({
            let mid = resolve_all(args, keys.take(k), completed).0;
            &&& resolve_one(mid, keys[k], completed) matches Err(e) ==> resolve_all(args, keys, completed) == (mid, Some(e))
            &&& resolve_one(mid, keys[k], completed) is Ok ==> resolve_all(args, keys, completed) == resolve_all(
                resolve_one(mid, keys[k], completed)->Ok_0,
                keys.skip(k + 1),
                completed,
            )
            &&& (forall|i: int| 0 <= i < keys.len() ==> seq_starts_with(#[trigger] keys[i], "#"@) && !seq_starts_with(keys[i].drop_first(), "#"@))
                && (forall|i: int, j: int| 0 <= i < j < keys.len() ==> #[trigger] keys[i] != #[trigger] keys[j])
                ==> obj_lookup(mid, keys[k]) == obj_lookup(args, keys[k])
        }),
{
    lemma_resolve_split(args, keys, completed, k);
    let mid = resolve_all(args, keys.take(k), completed).0;
    let rest = keys.skip(k);
    assert(rest[0] == keys[k]);
    assert(rest.drop_first() =~= keys.skip(k + 1));
    if (forall|i: int| 0 <= i < keys.len() ==> seq_starts_with(#[trigger] keys[i], "#"@) && !seq_starts_with(keys[i].drop_first(), "#"@))
        && (forall|i: int, j: int| 0 <= i < j < keys.len() ==> #[trigger] keys[i] != #[trigger] keys[j]) {
        let h = keys[k];
        assert forall|i: int| 0 <= i < keys.take(k).len() implies #[trigger] keys.take(k)[i] != h && keys.take(k)[i].drop_first() != h by {
            assert(keys.take(k)[i] == keys[i]);
            assert(seq_starts_with(h, "#"@));
            assert(!seq_starts_with(keys[i].drop_first(), "#"@));
        }
        law_resolution_frame(args, keys.take(k), completed, h);
    }
}

/// Two `#` keys with the same plain form are the same key.
proof fn lemma_plain_form_unique(g: Seq<char>, h: Seq<char>)
    requires
        seq_starts_with(g, "#"@),
        seq_starts_with(h, "#"@),
        g.drop_first() == h.drop_first(),
    ensures
        g == h,
{
    reveal_strlit("#");
    assert("#"@.len() == 1);
    assert(g.take(1)[0] == g[0]);
    assert(h.take(1)[0] == h[0]);
    assert(g[0] == h[0]);
    assert(g.len() == g.drop_first().len() + 1);
    assert(g.len() == h.len());
    assert forall|i: int| 0 <= i < g.len() implies g[i] == h[i] by {
        if i > 0 {
            assert(g[i] == g.drop_first()[i - 1]);
            assert(h[i] == h.drop_first()[i - 1]);
        }
    }
    assert(g =~= h);
}

/// After a resolution that succeeds, each `#` key that held a result
/// reference is gone and its plain key holds the value found at the
/// reference's path in the referenced response; a `#` key whose value is
/// not a reference keeps it. The keys start with `#`, their plain forms do
/// not, and no key comes twice.
pub proof fn law_reference_resolved_in_place(
    args: Seq<(Seq<char>, JModel)>,
    keys: Seq<Seq<char>>,
    completed: Seq<(Seq<char>, Seq<char>, JModel)>,
    k: int,
)
    requires
        0 <= k < keys.len(),
        forall|i: int| 0 <= i < keys.len() ==> seq_starts_with(#[trigger] keys[i], "#"@) && !seq_starts_with(keys[i].drop_first(), "#"@),
        forall|i: int, j: int| 0 <= i < j < keys.len() ==> #[trigger] keys[i] != #[trigger] keys[j],
        resolve_all(args, keys, completed).1 is None,
    ensures
        ({
            let h = keys[k];
            let out = resolve_all(args, keys, completed).0;
            match obj_lookup(args, h) {
                Some(raw) => match reference_of(raw) {
                    Some((id, name, path)) => find_completed(completed, id, name) matches Some(body) && !is_error_body(body)
                        && obj_lookup(out, h) is None && obj_lookup(out, h.drop_first()) == pointer_spec(body, path)
                        && pointer_spec(body, path) is Some,
                    None => obj_lookup(out, h) == obj_lookup(args, h),
                },
                None => obj_lookup(out, h) is None,
            }
        }),
{
    let h = keys[k];
    lemma_resolve_all_prefix_ok(args, keys, completed, k);
    law_kth_reference_error(args, keys, completed, k);
    let mid = resolve_all(args, keys.take(k), completed).0;
    let next = resolve_one(mid, h, completed)->Ok_0;
    let later = keys.skip(k + 1);
    assert forall|i: int| 0 <= i < later.len() implies #[trigger] later[i] != h && later[i].drop_first() != h by {
        assert(later[i] == keys[k + 1 + i]);
        assert(!seq_starts_with(later[i].drop_first(), "#"@));
    }
    law_resolution_frame(next, later, completed, h);
    assert forall|i: int| 0 <= i < later.len() implies #[trigger] later[i] != h.drop_first() && later[i].drop_first() != h.drop_first() by {
        assert(later[i] == keys[k + 1 + i]);
        if later[i].drop_first() == h.drop_first() {
            lemma_plain_form_unique(later[i], h);
        }
    }
    law_resolution_frame(next, later, completed, h.drop_first());
    match obj_lookup(mid, h) {
        Some(raw) => match reference_of(raw) {
            Some((id, name, path)) => match find_completed(completed, id, name) {
                Some(body) => match pointer_spec(body, path) {
                    Some(x) => {
                        reveal_strlit("#");
                        assert(h.len() >= 1);
                        assert(h.drop_first().len() < h.len());
                        lemma_lookup_set(obj_without(mid, h), h.drop_first(), x, h.drop_first());
                        lemma_lookup_set(obj_without(mid, h), h.drop_first(), x, h);
                        crate::json::lemma_lookup_without(mid, h, h);
                    },
                    None => {},
                },
                None => {},
            },
            None => {},
        },
        None => {},
    }
}

/// A resolution that succeeds has every prefix succeed.
proof fn lemma_resolve_all_prefix_ok(
    args: Seq<(Seq<char>, JModel)>,
    keys: Seq<Seq<char>>,
    completed: Seq<(Seq<char>, Seq<char>, JModel)>,
    k: int,
)
    requires
        0 <= k <= keys.len(),
        resolve_all(args, keys, completed).1 is None,
    ensures
        resolve_all(args, keys.take(k), completed).1 is None,
    decreases k,
{
    if k > 0 {
        let t = keys.take(k);
        assert(t[0] == keys[0]);
        assert(t.drop_first() =~= keys.drop_first().take(k - 1));
        match resolve_one(args, keys[0], completed) {
            Ok(next) => {
                lemma_resolve_all_prefix_ok(next, keys.drop_first(), completed, k - 1);
            },
            Err(_) => {},
        }
    }
}

} // verus!
