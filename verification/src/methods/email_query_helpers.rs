//! What changed between two results of an email query, and the order of a
//! result.
use vstd::prelude::*;

use crate::methods::email_advanced::types::AddedItem;
use crate::text::{str_eq, strings_view};
use crate::types::EmailSort;

verus! {

/// The ids of `prev` that are not in `cur`, in order.
pub open spec fn removed_ids(prev: Seq<Seq<char>>, cur: Seq<Seq<char>>) -> Seq<Seq<char>>
    decreases prev.len(),
{
    if prev.len() == 0 {
        seq![]
    } else if cur.contains(prev.last()) {
        removed_ids(prev.drop_last(), cur)
    } else {
        removed_ids(prev.drop_last(), cur).push(prev.last())
    }
}

/// The ids of `cur` that are not in `prev`, each with its position in `cur`.
pub open spec fn added_ids(prev: Seq<Seq<char>>, cur: Seq<Seq<char>>) -> Seq<(Seq<char>, u64)>
    decreases cur.len(),
{
    if cur.len() == 0 {
        seq![]
    } else if prev.contains(cur.last()) {
        added_ids(prev, cur.drop_last())
    } else {
        added_ids(prev, cur.drop_last()).push((cur.last(), (cur.len() - 1) as u64))
    }
}

/// The contents of a list of added items.
pub open spec fn added_view(s: Seq<AddedItem>) -> Seq<(Seq<char>, u64)> {
    s.map_values(|a: AddedItem| (a.id@, a.index))
}

/// Whether `id` is in `list`.
pub fn contains_id(list: &[String], id: &str) -> (r: bool)
    ensures
        r == strings_view(list@).contains(id@),
{
    let mut i: usize = 0;
    while i < list.len()
        invariant
            i <= list@.len(),
            forall|j: int| 0 <= j < i ==> list@[j]@ != id@,
        decreases list.len() - i,
    {
        if str_eq(list[i].as_str(), id) {
            assert(strings_view(list@)[i as int] == id@);
            return true;
        }
        i = i + 1;
    }
    assert forall|j: int| 0 <= j < strings_view(list@).len() implies strings_view(list@)[j] != id@ by {
        assert(strings_view(list@)[j] == list@[j]@);
    }
    false
}

/// The difference between two query results: the ids of `previous` missing
/// from `current`, and the ids of `current` missing from `previous` with
/// their positions in `current`.
pub fn compute_query_diff(previous: &[String], current: &[String]) -> (r: (Vec<String>, Vec<AddedItem>))
    ensures
        strings_view(r.0@) == removed_ids(strings_view(previous@), strings_view(current@)),
        added_view(r.1@) == added_ids(strings_view(previous@), strings_view(current@)),
{
    let ghost pv = strings_view(previous@);
    let ghost cv = strings_view(current@);
    let mut removed: Vec<String> = Vec::new();
    let mut i: usize = 0;
    proof {
        assert(pv.take(0) =~= Seq::<Seq<char>>::empty());
        assert(strings_view(removed@) =~= Seq::<Seq<char>>::empty());
    }
    while i < previous.len()
        invariant
            i <= previous@.len(),
            pv == strings_view(previous@),
            cv == strings_view(current@),
            strings_view(removed@) == removed_ids(pv.take(i as int), cv),
        decreases previous.len() - i,
    {
        proof {
            assert(pv.take(i + 1).drop_last() =~= pv.take(i as int));
            assert(pv.take(i + 1).last() == previous@[i as int]@);
        }
        if !contains_id(current, previous[i].as_str()) {
            let ghost before = removed@;
            removed.push(previous[i].clone());
            proof {
                assert(strings_view(removed@) =~= strings_view(before).push(previous@[i as int]@));
            }
        }
        i = i + 1;
    }
    proof {
        assert(pv.take(previous@.len() as int) =~= pv);
    }
    let mut added: Vec<AddedItem> = Vec::new();
    let mut k: usize = 0;
    proof {
        assert(cv.take(0) =~= Seq::<Seq<char>>::empty());
        assert(added_view(added@) =~= Seq::<(Seq<char>, u64)>::empty());
    }
    while k < current.len()
        invariant
            k <= current@.len(),
            pv == strings_view(previous@),
            cv == strings_view(current@),
            added_view(added@) == added_ids(pv, cv.take(k as int)),
        decreases current.len() - k,
    {
        proof {
            assert(cv.take(k + 1).drop_last() =~= cv.take(k as int));
            assert(cv.take(k + 1).last() == current@[k as int]@);
        }
        if !contains_id(previous, current[k].as_str()) {
            let ghost before = added@;
            let item = AddedItem { id: current[k].clone(), index: k as u64 };
            added.push(item);
            proof {
                assert(added_view(added@) =~= added_view(before).push((current@[k as int]@, k as u64)));
            }
        }
        k = k + 1;
    }
    proof {
        assert(cv.take(current@.len() as int) =~= cv);
    }
    (removed, added)
}

/// Whether a sort list asks for descending order first.
pub open spec fn descending_first(sort: Option<Vec<EmailSort>>) -> bool {
    match sort {
        Some(specs) => specs@.len() > 0 && specs@[0].is_ascending == Some(false),
        None => false,
    }
}

/// Orders query ids: they come newest first from storage, and are reversed
/// when the first comparator is descending.
pub fn apply_sort(ids: &mut Vec<String>, sort: Option<&Vec<EmailSort>>)
    ensures
        final(ids)@ == (if descending_first(
            match sort {
                Some(s) => Some(*s),
                None => None,
            },
        ) {
            old(ids)@.reverse()
        } else {
            old(ids)@
        }),
{
    let reverse = match sort {
        Some(specs) => specs.len() > 0 && specs[0].is_ascending == Some(false),
        None => false,
    };
    if reverse {
        let mut out: Vec<String> = Vec::new();
        let mut rest: Vec<String> = Vec::new();
        std::mem::swap(&mut rest, ids);
        let ghost orig = rest@;
        while rest.len() > 0
            invariant
                orig.len() == rest@.len() + out@.len(),
                rest@ == orig.take(rest@.len() as int),
                out@ == orig.skip(rest@.len() as int).reverse(),
            decreases rest.len(),
        {
            let ghost n = rest@.len();
            let x = rest.pop().unwrap();
            proof {
                assert(rest@ =~= orig.take(n - 1));
                assert(x == orig[n - 1]);
                assert(orig.skip(n - 1).reverse() =~= orig.skip(n as int).reverse().push(orig[n - 1]));
            }
            out.push(x);
        }
        proof {
            assert(orig.skip(0) =~= orig);
        }
        *ids = out;
    }
}


// ── Laws ────────────────────────────────────────────────────────────────────

/// An id is reported removed exactly when the previous result had it and
/// the current one has not.
pub proof fn law_removed_exactly(prev: Seq<Seq<char>>, cur: Seq<Seq<char>>, x: Seq<char>)
    ensures
        removed_ids(prev, cur).contains(x) <==> (prev.contains(x) && !cur.contains(x)),
    decreases prev.len(),
{
    if prev.len() > 0 {
        law_removed_exactly(prev.drop_last(), cur, x);
        assert(prev == prev.drop_last().push(prev.last()));
        assert(prev.contains(x) <==> (prev.drop_last().contains(x) || prev.last() == x)) by {
            if prev.contains(x) {
                let i = choose|i: int| 0 <= i < prev.len() && prev[i] == x;
                if i < prev.len() - 1 {
                    assert(prev.drop_last()[i] == x);
                }
            }
            if prev.drop_last().contains(x) {
                let i = choose|i: int| 0 <= i < prev.drop_last().len() && prev.drop_last()[i] == x;
                assert(prev[i] == x);
            }
            if prev.last() == x {
                assert(prev[prev.len() - 1] == x);
            }
        }
        let r0 = removed_ids(prev.drop_last(), cur);
        if !cur.contains(prev.last()) {
            assert(r0.push(prev.last()).contains(x) <==> (r0.contains(x) || prev.last() == x)) by {
                if r0.push(prev.last()).contains(x) {
                    let i = choose|i: int| 0 <= i < r0.len() + 1 && r0.push(prev.last())[i] == x;
                    if i < r0.len() {
                        assert(r0[i] == x);
                    }
                }
                if r0.contains(x) {
                    let i = choose|i: int| 0 <= i < r0.len() && r0[i] == x;
                    assert(r0.push(prev.last())[i] == x);
                }
                if prev.last() == x {
                    assert(r0.push(prev.last())[r0.len() as int] == x);
                }
            }
        }
    }
}

/// Every id reported added is in the current result at the reported
/// position, and was not in the previous one.
pub proof fn law_added_positions(prev: Seq<Seq<char>>, cur: Seq<Seq<char>>, k: int)
    requires
        0 <= k < added_ids(prev, cur).len(),
        cur.len() <= usize::MAX,
    ensures
        0 <= added_ids(prev, cur)[k].1 < cur.len(),
        cur[added_ids(prev, cur)[k].1 as int] == added_ids(prev, cur)[k].0,
        !prev.contains(added_ids(prev, cur)[k].0),
    decreases cur.len(),
{
    let a0 = added_ids(prev, cur.drop_last());
    if prev.contains(cur.last()) {
        law_added_positions(prev, cur.drop_last(), k);
        assert(cur.drop_last()[a0[k].1 as int] == cur[a0[k].1 as int]);
    } else if k < a0.len() {
        law_added_positions(prev, cur.drop_last(), k);
        assert(cur.drop_last()[a0[k].1 as int] == cur[a0[k].1 as int]);
    } else {
        assert(added_ids(prev, cur)[k] == (cur.last(), (cur.len() - 1) as u64));
    }
}

/// Query ids are reversed exactly when the first sort comparator asks for
/// descending order (`isAscending` false); with no sort, no comparator, or
/// a first comparator that is ascending or says nothing, they keep the
/// storage order. Later comparators play no part.
pub proof fn law_sort_direction(sort: Option<Vec<EmailSort>>)
    ensures
        sort is None ==> !descending_first(sort),
        sort matches Some(s) && s@.len() == 0 ==> !descending_first(sort),
        sort matches Some(s) && s@.len() > 0 && s@[0].is_ascending == Some(false) ==> descending_first(sort),
        sort matches Some(s) && s@.len() > 0 && s@[0].is_ascending == Some(true) ==> !descending_first(sort),
        sort matches Some(s) && s@.len() > 0 && s@[0].is_ascending is None ==> !descending_first(sort),
{
}

} // verus!
