//! `Email/changes` and `Email/queryChanges`.
use vstd::prelude::*;

use crate::methods::email_advanced::types::{
    AddedItem, EmailChangesRequest, EmailChangesResponse, EmailQueryChangesRequest, EmailQueryChangesResponse,
};
use crate::methods::email_query_helpers::{
    added_ids, added_view, apply_sort, compute_query_diff, descending_first, removed_ids,
};
use crate::methods::identity::forbidden_text;
use crate::methods::mailbox::unsigned_time_text;
use crate::methods::{ensure_account_ownership, forbidden_message};
use crate::outside::now_timestamp;
use crate::text::{concat, decimal, parse_u64, parse_u64_spec, str_eq, strings_view, u64_to_decimal};

verus! {

/// `Email/changes`: no change is recorded, so the answer is empty and the
/// new state is the current time; a state that is not a number is refused.
pub fn email_changes(request: EmailChangesRequest, principal: &crate::types::Principal) -> (r: Result<EmailChangesResponse, String>)
    ensures
        principal.account_id@ != request.account_id@ ==> r is Err && r->Err_0@ == forbidden_text(
            request.account_id@,
            principal.account_id@,
        ),
        principal.account_id@ == request.account_id@ && parse_u64_spec(request.since_state@) is None ==> r is Err
            && r->Err_0@ == "Invalid state: "@ + request.since_state@,
        principal.account_id@ == request.account_id@ && parse_u64_spec(request.since_state@) is Some ==> r is Ok && ({
            let resp = r->Ok_0;
            &&& resp.account_id@ == request.account_id@
            &&& resp.old_state@ == request.since_state@
            &&& exists|t: i64| resp.new_state@ == unsigned_time_text(t)
            &&& !resp.has_more_changes
            &&& resp.created@.len() == 0 && resp.updated@.len() == 0 && resp.destroyed@.len() == 0
        }),
{
    if let Err(e) = ensure_account_ownership(request.account_id.as_str(), principal) {
        return Err(forbidden_message(&e));
    }
    match parse_u64(request.since_state.as_str()) {
        None => {
            return Err(concat("Invalid state: ", request.since_state.as_str()));
        },
        Some(_) => {},
    }
    let t = now_timestamp();
    let new_state = u64_to_decimal(t as u64);
    assert(new_state@ == unsigned_time_text(t));
    Ok(
        EmailChangesResponse {
            account_id: request.account_id,
            old_state: request.since_state,
            new_state,
            has_more_changes: false,
            created: Vec::new(),
            updated: Vec::new(),
            destroyed: Vec::new(),
        },
    )
}

/// Position of the first `x` in `s`.
pub open spec fn position_of(s: Seq<Seq<char>>, x: Seq<char>) -> Option<int>
    decreases s.len(),
{
    if s.len() == 0 {
        None
    } else if s[0] == x {
        Some(0)
    } else {
        match position_of(s.drop_first(), x) {
            Some(i) => Some(i + 1),
            None => None,
        }
    }
}

/// The current result of a query: the ids found (in storage order) put in
/// the requested order, and cut after `upToId` when it occurs.
pub open spec fn current_result(req: EmailQueryChangesRequest, found: Seq<Seq<char>>) -> Seq<Seq<char>> {
    let sorted = if descending_first(req.sort) {
        found.reverse()
    } else {
        found
    };
    match req.up_to_id {
        Some(u) => match position_of(sorted, u@) {
            Some(p) => sorted.take(p + 1),
            None => sorted,
        },
        None => sorted,
    }
}

proof fn lemma_position_of(s: Seq<Seq<char>>, x: Seq<char>, i: int)
    requires
        0 <= i <= s.len(),
        forall|k: int| 0 <= k < i ==> s[k] != x,
        i < s.len() ==> s[i] == x,
    ensures
        position_of(s, x) == (if i < s.len() { Some(i) } else { None::<int> }),
    decreases i,
{
    if s.len() > 0 && i > 0 {
        assert forall|k: int| 0 <= k < i - 1 implies s.drop_first()[k] != x by {
            assert(s.drop_first()[k] == s[k + 1]);
        }
        lemma_position_of(s.drop_first(), x, i - 1);
    }
}

/// `Email/queryChanges` for the ids found by the query (`found`, in storage
/// order) at time `now`. No earlier result is kept, so every current id is
/// reported added; when that is more than `maxChanges`, the call is refused.
pub fn email_query_changes_with(request: EmailQueryChangesRequest, principal: &crate::types::Principal, found: Vec<String>, now: i64) -> (r: Result<EmailQueryChangesResponse, String>)
    ensures
        principal.account_id@ != request.account_id@ ==> r is Err && r->Err_0@ == forbidden_text(
            request.account_id@,
            principal.account_id@,
        ),
        principal.account_id@ == request.account_id@ && parse_u64_spec(request.since_query_state@) is None ==> r is Err
            && r->Err_0@ == "Invalid query state: "@ + request.since_query_state@,
        principal.account_id@ == request.account_id@ && parse_u64_spec(request.since_query_state@) is Some ==> ({
            let cur = current_result(request, strings_view(found@));
            let changes = removed_ids(seq![], cur).len() + added_ids(seq![], cur).len();
            &&& (request.max_changes matches Some(m) && changes > m) ==> r is Err && r->Err_0@
                == "cannotCalculateChanges: "@ + decimal(changes as nat) + " changes exceed maxChanges="@ + decimal(
                request.max_changes->0 as nat,
            )
            &&& !(request.max_changes matches Some(m) && changes > m) ==> r is Ok && ({
                let resp = r->Ok_0;
                &&& resp.account_id@ == request.account_id@
                &&& resp.old_query_state@ == request.since_query_state@
                &&& resp.new_query_state@ == unsigned_time_text(now)
                &&& strings_view(resp.removed@) == removed_ids(seq![], cur)
                &&& added_view(resp.added@) == added_ids(seq![], cur)
                &&& resp.total == (if request.calculate_total == Some(true) {
                    Some(cur.len() as u64)
                } else {
                    None
                })
            })
        }),
{
    if let Err(e) = ensure_account_ownership(request.account_id.as_str(), principal) {
        return Err(forbidden_message(&e));
    }
    match parse_u64(request.since_query_state.as_str()) {
        None => {
            return Err(concat("Invalid query state: ", request.since_query_state.as_str()));
        },
        Some(_) => {},
    }
    let ghost found_v = strings_view(found@);
    let mut current = found;
    apply_sort(&mut current, request.sort.as_ref());
    let ghost sorted = strings_view(current@);
    proof {
        let s = if descending_first(request.sort) {
            found_v.reverse()
        } else {
            found_v
        };
        assert(sorted =~= s);
    }
    if let Some(up_to) = &request.up_to_id {
        let mut i: usize = 0;
        while i < current.len() && !str_eq(current[i].as_str(), up_to.as_str())
            invariant
                i <= current@.len(),
                sorted == strings_view(current@),
                forall|k: int| 0 <= k < i ==> sorted[k] != up_to@,
            decreases current.len() - i,
        {
            i = i + 1;
        }
        proof {
            lemma_position_of(sorted, up_to@, i as int);
        }
        if i < current.len() {
            current.truncate(i + 1);
            proof {
                assert(strings_view(current@) =~= sorted.take(i + 1));
            }
        }
    }
    let ghost cur = strings_view(current@);
    assert(cur == current_result(request, found_v));
    let previous: Vec<String> = Vec::new();
    assert(strings_view(previous@) =~= Seq::<Seq<char>>::empty());
    let (removed, added) = compute_query_diff(previous.as_slice(), current.as_slice());
    let total_changes: u64 = removed.len() as u64 + added.len() as u64;
    proof {
        assert(strings_view(removed@).len() == removed@.len());
        assert(added_view(added@).len() == added@.len());
    }
    if let Some(explicit_max) = request.max_changes {
        if total_changes > explicit_max {
            let a = concat("cannotCalculateChanges: ", u64_to_decimal(total_changes).as_str());
            let b = concat(a.as_str(), " changes exceed maxChanges=");
            return Err(concat(b.as_str(), u64_to_decimal(explicit_max).as_str()));
        }
    }
    let new_query_state = u64_to_decimal(now as u64);
    let calc = match request.calculate_total {
        Some(b) => b,
        None => false,
    };
    Ok(
        EmailQueryChangesResponse {
            account_id: request.account_id,
            old_query_state: request.since_query_state,
            new_query_state,
            total: if calc {
                Some(current.len() as u64)
            } else {
                None
            },
            removed,
            added,
        },
    )
}

/// `Email/queryChanges` for the ids found by the query, at the current
/// time.
pub fn email_query_changes(request: EmailQueryChangesRequest, principal: &crate::types::Principal, found: Vec<String>) -> (r: Result<EmailQueryChangesResponse, String>)
    ensures
        principal.account_id@ != request.account_id@ ==> r is Err && r->Err_0@ == forbidden_text(
            request.account_id@,
            principal.account_id@,
        ),
        principal.account_id@ == request.account_id@ && parse_u64_spec(request.since_query_state@) is None ==> r is Err
            && r->Err_0@ == "Invalid query state: "@ + request.since_query_state@,
        principal.account_id@ == request.account_id@ && parse_u64_spec(request.since_query_state@) is Some ==> ({
            let cur = current_result(request, strings_view(found@));
            let changes = removed_ids(seq![], cur).len() + added_ids(seq![], cur).len();
            &&& (request.max_changes matches Some(m) && changes > m) ==> r is Err && r->Err_0@
                == "cannotCalculateChanges: "@ + decimal(changes as nat) + " changes exceed maxChanges="@ + decimal(
                request.max_changes->0 as nat,
            )
            &&& !(request.max_changes matches Some(m) && changes > m) ==> r is Ok && ({
                let resp = r->Ok_0;
                &&& resp.account_id@ == request.account_id@
                &&& resp.old_query_state@ == request.since_query_state@
                &&& exists|now: i64| resp.new_query_state@ == #[trigger] unsigned_time_text(now)
                &&& strings_view(resp.removed@) == removed_ids(seq![], cur)
                &&& added_view(resp.added@) == added_ids(seq![], cur)
                &&& resp.total == (if request.calculate_total == Some(true) {
                    Some(cur.len() as u64)
                } else {
                    None
                })
            })
        }),
{
    let now = now_timestamp();
    let r = email_query_changes_with(request, principal, found, now);
    proof {
        let _ = unsigned_time_text(now);
    }
    r
}

} // verus!
