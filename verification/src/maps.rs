//! String-keyed maps held as lists of pairs. A key is looked up by its first
//! occurrence; putting a key replaces the value at that occurrence, or
//! appends the pair when the key is absent, so a list built by `map_put`
//! never holds a key twice.
use vstd::prelude::*;

use crate::text::str_eq;

verus! {

/// The value stored under `k` (first occurrence).
pub open spec fn map_get<T>(s: Seq<(String, T)>, k: Seq<char>) -> Option<T>
    decreases s.len(),
{
    if s.len() == 0 {
        None
    } else if s[0].0@ == k {
        Some(s[0].1)
    } else {
        map_get(s.drop_first(), k)
    }
}

/// Index of the first pair with key `k`.
pub open spec fn map_index<T>(s: Seq<(String, T)>, k: Seq<char>) -> Option<int>
    decreases s.len(),
{
    if s.len() == 0 {
        None
    } else if s[0].0@ == k {
        Some(0)
    } else {
        match map_index(s.drop_first(), k) {
            Some(i) => Some(i + 1),
            None => None,
        }
    }
}

/// The list after `k` is set to `v`.
pub open spec fn map_put_spec<T>(s: Seq<(String, T)>, k: String, v: T) -> Seq<(String, T)> {
    match map_index(s, k@) {
        Some(i) => s.update(i, (k, v)),
        None => s.push((k, v)),
    }
}

/// The list without the pairs under `k`.
pub open spec fn map_remove_spec<T>(s: Seq<(String, T)>, k: Seq<char>) -> Seq<(String, T)>
    decreases s.len(),
{
    if s.len() == 0 {
        s
    } else if s.last().0@ == k {
        map_remove_spec(s.drop_last(), k)
    } else {
        map_remove_spec(s.drop_last(), k).push(s.last())
    }
}

/// `map_index` finds the first occurrence.
pub proof fn lemma_map_index<T>(s: Seq<(String, T)>, k: Seq<char>)
    ensures
        match map_index(s, k) {
            Some(i) => 0 <= i < s.len() && s[i].0@ == k && map_get(s, k) == Some(s[i].1) && forall|j: int|
                0 <= j < i ==> s[j].0@ != k,
            None => map_get(s, k) is None && forall|j: int| 0 <= j < s.len() ==> s[j].0@ != k,
        },
    decreases s.len(),
{
    if s.len() > 0 {
        lemma_map_index(s.drop_first(), k);
        if s[0].0@ != k {
            match map_index(s.drop_first(), k) {
                Some(i) => {
                    assert forall|j: int| 0 <= j < i + 1 implies s[j].0@ != k by {
                        if j > 0 {
                            assert(s[j] == s.drop_first()[j - 1]);
                        }
                    }
                },
                None => {
                    assert forall|j: int| 0 <= j < s.len() implies s[j].0@ != k by {
                        if j > 0 {
                            assert(s[j] == s.drop_first()[j - 1]);
                        }
                    }
                },
            }
        }
    }
}

/// Lookup after a put.
pub proof fn lemma_map_put<T>(s: Seq<(String, T)>, k: String, v: T, q: Seq<char>)
    ensures
        map_get(map_put_spec(s, k, v), q) == if q == k@ { Some(v) } else { map_get(s, q) },
    decreases s.len(),
{
    lemma_map_index(s, k@);
    let r = map_put_spec(s, k, v);
    if s.len() == 0 {
        assert(r =~= seq![(k, v)]);
        assert(r.drop_first() =~= Seq::<(String, T)>::empty());
        assert(map_get(r.drop_first(), q) is None);
    } else {
        if s[0].0@ == k@ {
            assert(map_index(s, k@) == Some(0int));
            assert(r == s.update(0, (k, v)));
            assert(r.drop_first() =~= s.drop_first());
            assert(r[0] == (k, v));
        } else {
            let d = s.drop_first();
            lemma_map_put(d, k, v, q);
            lemma_map_index(d, k@);
            match map_index(d, k@) {
                Some(i) => {
                    assert(map_index(s, k@) == Some(i + 1));
                    assert(r == s.update(i + 1, (k, v)));
                    assert(r.drop_first() =~= d.update(i, (k, v)));
                },
                None => {
                    assert(map_index(s, k@) is None);
                    assert(r == s.push((k, v)));
                    assert(r.drop_first() =~= d.push((k, v)));
                },
            }
            assert(r.drop_first() == map_put_spec(d, k, v));
            assert(r[0] == s[0]);
        }
    }
}

/// Lookup after a removal.
pub proof fn lemma_map_remove<T>(s: Seq<(String, T)>, k: Seq<char>, q: Seq<char>)
    ensures
        map_get(map_remove_spec(s, k), q) == if q == k { None } else { map_get(s, q) },
    decreases s.len(),
{
    if s.len() > 0 {
        lemma_map_remove(s.drop_last(), k, q);
        lemma_map_get_push(map_remove_spec(s.drop_last(), k), s.last(), q);
        lemma_map_get_push(s.drop_last(), s.last(), q);
        assert(s.drop_last().push(s.last()) == s);
    }
}

/// Lookup with one pair appended.
pub proof fn lemma_map_get_push<T>(s: Seq<(String, T)>, e: (String, T), q: Seq<char>)
    ensures
        map_get(s.push(e), q) == match map_get(s, q) {
            Some(v) => Some(v),
            None => if e.0@ == q { Some(e.1) } else { None },
        },
    decreases s.len(),
{
    if s.len() > 0 {
        let rest = s.drop_first();
        assert(s.push(e).drop_first() =~= rest.push(e));
        assert(s.push(e)[0] == s[0]);
        lemma_map_get_push(rest, e, q);
        if s[0].0@ == q {
            assert(map_get(s.push(e), q) == Some(s[0].1));
        } else {
            assert(map_get(s.push(e), q) == map_get(rest.push(e), q));
        }
    } else {
        assert(s.push(e).drop_first() =~= Seq::<(String, T)>::empty());
        assert(s.push(e)[0] == e);
        assert(map_get(s.push(e).drop_first(), q) is None);
        if e.0@ == q {
            assert(map_get(s.push(e), q) == Some(e.1));
        } else {
            assert(map_get(s.push(e), q) is None);
        }
    }
}

/// Index of the first pair under `k`.
pub fn map_find<T>(v: &Vec<(String, T)>, k: &str) -> (r: Option<usize>)
    ensures
        match r {
            Some(i) => map_index(v@, k@) == Some(i as int),
            None => map_index(v@, k@) is None,
        },
{
    let mut i: usize = 0;
    proof {
        lemma_map_index(v@, k@);
    }
    while i < v.len()
        invariant
            i <= v.len(),
            forall|j: int| 0 <= j < i ==> v@[j].0@ != k@,
            match map_index(v@, k@) {
                Some(x) => 0 <= x < v@.len() && v@[x].0@ == k@ && forall|j: int| 0 <= j < x ==> v@[j].0@ != k@,
                None => forall|j: int| 0 <= j < v@.len() ==> v@[j].0@ != k@,
            },
        decreases v.len() - i,
    {
        if str_eq(v[i].0.as_str(), k) {
            return Some(i);
        }
        i = i + 1;
    }
    None
}

/// Whether the map holds `k`.
pub fn map_contains<T>(v: &Vec<(String, T)>, k: &str) -> (r: bool)
    ensures
        r == (map_get(v@, k@) is Some),
{
    proof {
        lemma_map_index(v@, k@);
    }
    map_find(v, k).is_some()
}

/// The value under `k`.
pub fn map_lookup<'a, T>(v: &'a Vec<(String, T)>, k: &str) -> (r: Option<&'a T>)
    ensures
        match r {
            Some(x) => map_get(v@, k@) == Some(*x),
            None => map_get(v@, k@) is None,
        },
{
    proof {
        lemma_map_index(v@, k@);
    }
    match map_find(v, k) {
        Some(i) => {
            assert(map_get(v@, k@) == Some(v@[i as int].1));
            Some(&v[i].1)
        },
        None => None,
    }
}

/// Sets `k` to `val`.
pub fn map_put<T>(v: &mut Vec<(String, T)>, k: String, val: T)
    ensures
        final(v)@ == map_put_spec(old(v)@, k, val),
{
    proof {
        lemma_map_index(v@, k@);
    }
    match map_find(v, k.as_str()) {
        Some(i) => {
            v.set(i, (k, val));
        },
        None => {
            v.push((k, val));
        },
    }
}

/// Removes every pair under `k`.
pub fn map_remove<T>(v: Vec<(String, T)>, k: &str) -> (r: Vec<(String, T)>)
    ensures
        r@ == map_remove_spec(v@, k@),
{
    let mut out: Vec<(String, T)> = Vec::new();
    let mut rest = v;
    let ghost orig = rest@;
    let ghost mut i: int = 0;
    proof {
        assert(orig.take(0) =~= Seq::<(String, T)>::empty());
        assert(rest@ == orig.skip(0));
    }
    while rest.len() > 0
        invariant
            0 <= i <= orig.len(),
            rest@ == orig.skip(i),
            out@ == map_remove_spec(orig.take(i), k@),
        decreases rest.len(),
    {
        let item = rest.remove(0);
        proof {
            assert(item == orig[i]);
            assert(orig.take(i + 1).drop_last() == orig.take(i));
            assert(orig.take(i + 1).last() == item);
            assert(rest@ == orig.skip(i + 1));
        }
        if !str_eq(item.0.as_str(), k) {
            out.push(item);
        }
        proof {
            i = i + 1;
        }
    }
    assert(orig.take(orig.len() as int) == orig);
    out
}

} // verus!

verus! {

// ── The same operations, on the contents of the pairs ────────────────────────

/// The contents of a list of pairs.
pub open spec fn pairs_view<T: View>(s: Seq<(String, T)>) -> Seq<(Seq<char>, T::V)> {
    s.map_values(|p: (String, T)| (p.0@, p.1@))
}

/// The value stored under `k` (first occurrence).
pub open spec fn vget<V>(s: Seq<(Seq<char>, V)>, k: Seq<char>) -> Option<V>
    decreases s.len(),
{
    if s.len() == 0 {
        None
    } else if s[0].0 == k {
        Some(s[0].1)
    } else {
        vget(s.drop_first(), k)
    }
}

/// Index of the first pair with key `k`.
pub open spec fn vindex<V>(s: Seq<(Seq<char>, V)>, k: Seq<char>) -> Option<int>
    decreases s.len(),
{
    if s.len() == 0 {
        None
    } else if s[0].0 == k {
        Some(0)
    } else {
        match vindex(s.drop_first(), k) {
            Some(i) => Some(i + 1),
            None => None,
        }
    }
}

/// The list after `k` is set to `v`: the first pair under `k` is replaced,
/// or the pair is appended.
pub open spec fn vput<V>(s: Seq<(Seq<char>, V)>, k: Seq<char>, v: V) -> Seq<(Seq<char>, V)> {
    match vindex(s, k) {
        Some(i) => s.update(i, (k, v)),
        None => s.push((k, v)),
    }
}

/// The list without the pairs under `k`.
pub open spec fn vremove<V>(s: Seq<(Seq<char>, V)>, k: Seq<char>) -> Seq<(Seq<char>, V)>
    decreases s.len(),
{
    if s.len() == 0 {
        s
    } else if s.last().0 == k {
        vremove(s.drop_last(), k)
    } else {
        vremove(s.drop_last(), k).push(s.last())
    }
}

pub proof fn lemma_vindex<V>(s: Seq<(Seq<char>, V)>, k: Seq<char>)
    ensures
        match vindex(s, k) {
            Some(i) => 0 <= i < s.len() && s[i].0 == k && vget(s, k) == Some(s[i].1) && forall|j: int|
                0 <= j < i ==> s[j].0 != k,
            None => vget(s, k) is None && forall|j: int| 0 <= j < s.len() ==> s[j].0 != k,
        },
    decreases s.len(),
{
    if s.len() > 0 {
        lemma_vindex(s.drop_first(), k);
        if s[0].0 != k {
            match vindex(s.drop_first(), k) {
                Some(i) => {
                    assert forall|j: int| 0 <= j < i + 1 implies s[j].0 != k by {
                        if j > 0 {
                            assert(s[j] == s.drop_first()[j - 1]);
                        }
                    }
                },
                None => {
                    assert forall|j: int| 0 <= j < s.len() implies s[j].0 != k by {
                        if j > 0 {
                            assert(s[j] == s.drop_first()[j - 1]);
                        }
                    }
                },
            }
        }
    }
}

/// Lookup after a put.
pub proof fn lemma_vput<V>(s: Seq<(Seq<char>, V)>, k: Seq<char>, v: V, q: Seq<char>)
    ensures
        vget(vput(s, k, v), q) == if q == k { Some(v) } else { vget(s, q) },
    decreases s.len(),
{
    lemma_vindex(s, k);
    let r = vput(s, k, v);
    if s.len() == 0 {
        assert(r =~= seq![(k, v)]);
        assert(r.drop_first() =~= Seq::<(Seq<char>, V)>::empty());
        assert(vget(r.drop_first(), q) is None);
    } else {
        if s[0].0 == k {
            assert(vindex(s, k) == Some(0int));
            assert(r.drop_first() =~= s.drop_first());
            assert(r[0] == (k, v));
        } else {
            let d = s.drop_first();
            lemma_vput(d, k, v, q);
            lemma_vindex(d, k);
            match vindex(d, k) {
                Some(i) => {
                    assert(vindex(s, k) == Some(i + 1));
                    assert(r.drop_first() =~= d.update(i, (k, v)));
                },
                None => {
                    assert(vindex(s, k) is None);
                    assert(r.drop_first() =~= d.push((k, v)));
                },
            }
            assert(r.drop_first() == vput(d, k, v));
            assert(r[0] == s[0]);
        }
    }
}

/// Lookup with one pair appended.
pub proof fn lemma_vget_push<V>(s: Seq<(Seq<char>, V)>, e: (Seq<char>, V), q: Seq<char>)
    ensures
        vget(s, q) is Some ==> vget(s.push(e), q) == vget(s, q),
        vget(s, q) is None ==> vget(s.push(e), q) == (if e.0 == q { Some(e.1) } else { None }),
    decreases s.len(),
{
    if s.len() > 0 {
        let rest = s.drop_first();
        assert(s.push(e).drop_first() =~= rest.push(e));
        assert(s.push(e)[0] == s[0]);
        lemma_vget_push(rest, e, q);
    } else {
        assert(s.push(e).drop_first() =~= Seq::<(Seq<char>, V)>::empty());
        assert(s.push(e)[0] == e);
        assert(vget(s.push(e).drop_first(), q) is None);
    }
}

/// Lookup after a removal.
pub proof fn lemma_vremove<V>(s: Seq<(Seq<char>, V)>, k: Seq<char>, q: Seq<char>)
    ensures
        vget(vremove(s, k), q) == if q == k { None } else { vget(s, q) },
    decreases s.len(),
{
    if s.len() > 0 {
        lemma_vremove(s.drop_last(), k, q);
        lemma_vget_push(vremove(s.drop_last(), k), s.last(), q);
        lemma_vget_push(s.drop_last(), s.last(), q);
        assert(s.drop_last().push(s.last()) == s);
    }
}

/// Whether `id` is answered `a` in a pair of outcome maps: under exactly
/// one of them, with the answer's value.
pub open spec fn answered_as<V, E>(ok: Seq<(Seq<char>, V)>, err: Seq<(Seq<char>, E)>, id: Seq<char>, a: Result<V, E>) -> bool {
    match a {
        Ok(v) => vget(ok, id) == Some(v) && vget(err, id) is None,
        Err(e) => vget(err, id) == Some(e) && vget(ok, id) is None,
    }
}

/// Whether no key occurs twice in a list of pairs.
pub open spec fn keys_distinct<V>(s: Seq<(Seq<char>, V)>) -> bool {
    forall|i: int, j: int| 0 <= i < j < s.len() ==> #[trigger] s[i].0 != #[trigger] s[j].0
}

/// A put keeps the keys distinct, and adds a pair only for a new key.
pub proof fn lemma_vput_distinct<V>(s: Seq<(Seq<char>, V)>, k: Seq<char>, v: V)
    requires
        keys_distinct(s),
    ensures
        keys_distinct(vput(s, k, v)),
        vput(s, k, v).len() == s.len() + (if vget(s, k) is Some { 0int } else { 1int }),
{
    lemma_vindex(s, k);
    let r = vput(s, k, v);
    match vindex(s, k) {
        Some(x) => {
            assert forall|i: int, j: int| 0 <= i < j < r.len() implies #[trigger] r[i].0 != #[trigger] r[j].0 by {
                assert(r[i].0 == s[i].0);
                assert(r[j].0 == s[j].0);
            }
        },
        None => {
            assert forall|i: int, j: int| 0 <= i < j < r.len() implies #[trigger] r[i].0 != #[trigger] r[j].0 by {
                if j < s.len() {
                    assert(r[i] == s[i] && r[j] == s[j]);
                } else {
                    assert(r[j] == (k, v) && r[i] == s[i]);
                }
            }
        },
    }
}

/// A removal keeps the keys distinct, and drops one pair exactly when the
/// key was there.
pub proof fn lemma_vremove_distinct<V>(s: Seq<(Seq<char>, V)>, k: Seq<char>)
    requires
        keys_distinct(s),
    ensures
        keys_distinct(vremove(s, k)),
        vremove(s, k).len() == s.len() - (if vget(s, k) is Some { 1int } else { 0int }),
    decreases s.len(),
{
    if s.len() > 0 {
        let d = s.drop_last();
        let e = s.last();
        assert(keys_distinct(d)) by {
            assert forall|i: int, j: int| 0 <= i < j < d.len() implies #[trigger] d[i].0 != #[trigger] d[j].0 by {
                assert(d[i] == s[i] && d[j] == s[j]);
            }
        }
        lemma_vremove_distinct(d, k);
        lemma_vindex(d, e.0);
        assert(vget(d, e.0) is None) by {
            if vget(d, e.0) is Some {
                let x = vindex(d, e.0)->0;
                assert(d[x] == s[x]);
                assert(s[x].0 == s[s.len() - 1].0);
            }
        }
        lemma_vget_push(d, e, k);
        assert(d.push(e) == s);
        if e.0 == k {
        } else {
            let t = vremove(d, k);
            lemma_vremove(d, k, e.0);
            lemma_vindex(t, e.0);
            let r = t.push(e);
            assert forall|i: int, j: int| 0 <= i < j < r.len() implies #[trigger] r[i].0 != #[trigger] r[j].0 by {
                if j < t.len() {
                    assert(r[i] == t[i] && r[j] == t[j]);
                } else {
                    assert(r[i] == t[i]);
                }
            }
        }
    }
}

pub proof fn lemma_pairs_view_len<T: View>(s: Seq<(String, T)>)
    ensures
        pairs_view(s).len() == s.len(),
        forall|i: int| 0 <= i < s.len() ==> #[trigger] pairs_view(s)[i] == (s[i].0@, s[i].1@),
{
}

/// Index of the first pair under `k`.
pub fn vfind<T: View>(v: &Vec<(String, T)>, k: &str) -> (r: Option<usize>)
    ensures
        match r {
            Some(i) => vindex(pairs_view(v@), k@) == Some(i as int),
            None => vindex(pairs_view(v@), k@) is None,
        },
{
    let ghost pv = pairs_view(v@);
    proof {
        lemma_vindex(pv, k@);
        lemma_pairs_view_len(v@);
    }
    let mut i: usize = 0;
    while i < v.len()
        invariant
            i <= v.len(),
            pv == pairs_view(v@),
            pv.len() == v@.len(),
            forall|j: int| 0 <= j < v@.len() ==> #[trigger] pv[j] == (v@[j].0@, v@[j].1@),
            forall|j: int| 0 <= j < i ==> pv[j].0 != k@,
            match vindex(pv, k@) {
                Some(x) => 0 <= x < pv.len() && pv[x].0 == k@ && forall|j: int| 0 <= j < x ==> pv[j].0 != k@,
                None => forall|j: int| 0 <= j < pv.len() ==> pv[j].0 != k@,
            },
        decreases v.len() - i,
    {
        assert(pv[i as int] == (v@[i as int].0@, v@[i as int].1@));
        if str_eq(v[i].0.as_str(), k) {
            return Some(i);
        }
        i = i + 1;
    }
    None
}

/// Whether a key is present.
pub fn vcontains<T: View>(v: &Vec<(String, T)>, k: &str) -> (r: bool)
    ensures
        r == (vget(pairs_view(v@), k@) is Some),
{
    proof {
        lemma_vindex(pairs_view(v@), k@);
    }
    vfind(v, k).is_some()
}

/// The value under `k`.
pub fn vlookup<'a, T: View>(v: &'a Vec<(String, T)>, k: &str) -> (r: Option<&'a T>)
    ensures
        match r {
            Some(x) => vget(pairs_view(v@), k@) == Some(x@),
            None => vget(pairs_view(v@), k@) is None,
        },
{
    proof {
        lemma_vindex(pairs_view(v@), k@);
        lemma_pairs_view_len(v@);
    }
    match vfind(v, k) {
        Some(i) => {
            assert(pairs_view(v@)[i as int] == (v@[i as int].0@, v@[i as int].1@));
            Some(&v[i].1)
        },
        None => None,
    }
}

/// Sets `k` to `val`.
pub fn vput_exec<T: View>(v: &mut Vec<(String, T)>, k: String, val: T)
    ensures
        pairs_view(final(v)@) == vput(pairs_view(old(v)@), k@, val@),
{
    proof {
        lemma_vindex(pairs_view(v@), k@);
        lemma_pairs_view_len(v@);
    }
    let ghost kv = k@;
    let ghost vv = val@;
    match vfind(v, k.as_str()) {
        Some(i) => {
            v.set(i, (k, val));
            proof {
                lemma_pairs_view_len(v@);
                assert(pairs_view(v@) =~= pairs_view(old(v)@).update(i as int, (kv, vv)));
            }
        },
        None => {
            v.push((k, val));
            proof {
                lemma_pairs_view_len(v@);
                assert(pairs_view(v@) =~= pairs_view(old(v)@).push((kv, vv)));
            }
        },
    }
}

/// Removes every pair under `k`.
pub fn vremove_exec<T: View>(v: Vec<(String, T)>, k: &str) -> (r: Vec<(String, T)>)
    ensures
        pairs_view(r@) == vremove(pairs_view(v@), k@),
{
    let mut out: Vec<(String, T)> = Vec::new();
    let mut rest = v;
    let ghost orig = rest@;
    let ghost mut i: int = 0;
    proof {
        assert(orig.take(0) =~= Seq::<(String, T)>::empty());
        assert(rest@ == orig.skip(0));
        assert(pairs_view(out@) =~= vremove(pairs_view(orig.take(0)), k@));
    }
    while rest.len() > 0
        invariant
            0 <= i <= orig.len(),
            rest@ == orig.skip(i),
            pairs_view(out@) == vremove(pairs_view(orig.take(i)), k@),
        decreases rest.len(),
    {
        let item = rest.remove(0);
        let ghost pre = pairs_view(orig.take(i));
        proof {
            assert(item == orig[i]);
            assert(pairs_view(orig.take(i + 1)) =~= pre.push((item.0@, item.1@)));
            assert(pre.push((item.0@, item.1@)).drop_last() =~= pre);
            assert(rest@ == orig.skip(i + 1));
        }
        if !str_eq(item.0.as_str(), k) {
            let ghost before = out@;
            let ghost iv = (item.0@, item.1@);
            out.push(item);
            proof {
                assert(pairs_view(out@) =~= pairs_view(before).push(iv));
            }
        }
        proof {
            i = i + 1;
        }
    }
    assert(orig.take(orig.len() as int) == orig);
    out
}


/// `None` for an empty sequence.
pub open spec fn nonempty<A>(s: Seq<A>) -> Option<Seq<A>> {
    if s.len() == 0 {
        None
    } else {
        Some(s)
    }
}

/// The contents of an optional map.
pub open spec fn opt_pairs_view<T: View>(o: Option<Vec<(String, T)>>) -> Option<Seq<(Seq<char>, T::V)>> {
    match o {
        Some(v) => Some(pairs_view(v@)),
        None => None,
    }
}

/// The contents of an optional list of strings.
pub open spec fn opt_strings_view(o: Option<Vec<String>>) -> Option<Seq<Seq<char>>> {
    match o {
        Some(v) => Some(v@.map_values(|s: String| s@)),
        None => None,
    }
}

/// `None` for an empty vector.
pub fn nonempty_vec<T>(v: Vec<T>) -> (r: Option<Vec<T>>)
    ensures
        match r {
            Some(x) => x@ == v@ && v@.len() > 0,
            None => v@.len() == 0,
        },
{
    if v.len() == 0 {
        None
    } else {
        Some(v)
    }
}

} // verus!
