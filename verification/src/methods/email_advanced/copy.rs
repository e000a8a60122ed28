//! `Email/copy`.
use vstd::prelude::*;

use crate::maps::{lemma_pairs_view_len, nonempty, nonempty_vec, opt_pairs_view, pairs_view, vput, vput_exec};
use crate::methods::email_advanced::types::{EmailCopyObject, EmailCopyRequest, EmailCopyResponse};
use crate::methods::identity::forbidden_text;
use crate::methods::mailbox::unsigned_time_text;
use crate::methods::{ensure_account_ownership, forbidden_message};
use crate::outside::{new_uuid_string, now_timestamp};
use crate::text::{concat, str_eq, string_from, strings_view, u64_to_decimal};
use crate::types::{clone_flag_map, flag_map_view, Email, EmailContent, JmapSetError, SetErrorView};

verus! {

/// The content of a message to copy.
pub struct CopyContent {
    pub id: Seq<char>,
    pub mailbox_ids: Seq<(Seq<char>, bool)>,
    pub keywords: Option<Seq<(Seq<char>, bool)>>,
    pub received_at: Option<i64>,
}

impl View for EmailCopyObject {
    type V = CopyContent;

    open spec fn view(&self) -> CopyContent {
        CopyContent {
            id: self.id@,
            mailbox_ids: flag_map_view(self.mailbox_ids@),
            keywords: match self.keywords {
                Some(k) => Some(flag_map_view(k@)),
                None => None,
            },
            received_at: self.received_at,
        }
    }
}

/// The copy of a message: a new id, the blob `blob_{id}`, the requested
/// mailboxes and keywords, and a fixed size, thread and preview.
pub open spec fn copied_email(obj: CopyContent, id: Seq<char>, now: i64) -> EmailContent {
    EmailContent {
        id,
        blob_id: "blob_"@ + obj.id,
        thread_id: Some("thread_1"@),
        mailbox_ids: obj.mailbox_ids,
        keywords: match obj.keywords {
            Some(k) => k,
            None => seq![],
        },
        size: 1000,
        received_at: match obj.received_at {
            Some(t) => t,
            None => now,
        },
        message_id: None,
        in_reply_to: None,
        references: None,
        sender: None,
        from: None,
        to: None,
        cc: None,
        bcc: None,
        reply_to: None,
        subject: None,
        sent_at: None,
        has_attachment: false,
        preview: Some("Copied email"@),
        body_values: None,
        text_body: None,
        html_body: None,
        attachments: None,
    }
}

/// The copies in order; the `i`-th gets the id `ids[i]`.
pub open spec fn copies_fold(creates: Seq<(Seq<char>, CopyContent)>, ids: Seq<Seq<char>>, now: i64) -> Seq<(Seq<char>, EmailContent)>
    decreases creates.len(),
{
    if creates.len() == 0 {
        seq![]
    } else {
        let n = creates.len() - 1;
        vput(copies_fold(creates.drop_last(), ids, now), creates[n].0, copied_email(creates[n].1, ids[n], now))
    }
}

fn copy_email(obj: &EmailCopyObject, id: String, now: i64) -> (r: Email)
    ensures
        r@ == copied_email(obj@, id@, now),
{
    Email {
        id,
        blob_id: concat("blob_", obj.id.as_str()),
        thread_id: Some(string_from("thread_1")),
        mailbox_ids: clone_flag_map(&obj.mailbox_ids),
        keywords: match &obj.keywords {
            Some(k) => clone_flag_map(k),
            None => {
                let v: Vec<(String, bool)> = Vec::new();
                assert(flag_map_view(v@) =~= Seq::<(Seq<char>, bool)>::empty());
                v
            },
        },
        size: 1000,
        received_at: match obj.received_at {
            Some(t) => t,
            None => now,
        },
        message_id: None,
        in_reply_to: None,
        references: None,
        sender: None,
        from: None,
        to: None,
        cc: None,
        bcc: None,
        reply_to: None,
        subject: None,
        sent_at: None,
        has_attachment: false,
        preview: Some(string_from("Copied email")),
        body_values: None,
        text_body: None,
        html_body: None,
        attachments: None,
    }
}

/// What `Email/copy` answers at time `now`, with the ids `ids` given to
/// the copies: refused unless the principal owns both accounts, refused
/// when a state named is not the current one (the time, in seconds), and
/// otherwise every copy created.
pub open spec fn copy_outcome(
    request: EmailCopyRequest,
    owner: Seq<char>,
    ids: Seq<Seq<char>>,
    now: i64,
    r: Result<EmailCopyResponse, String>,
) -> bool {
    let state = unsigned_time_text(now);
    if owner != request.from_account_id@ {
        r is Err && r->Err_0@ == forbidden_text(request.from_account_id@, owner)
    } else if owner != request.account_id@ {
        r is Err && r->Err_0@ == forbidden_text(request.account_id@, owner)
    } else if request.if_from_in_state matches Some(e) && e@ != state {
        r is Err && r->Err_0@ == "State mismatch in source account"@
    } else if request.if_in_state matches Some(e) && e@ != state {
        r is Err && r->Err_0@ == "State mismatch in destination account"@
    } else {
        &&& r is Ok
        &&& r->Ok_0.from_account_id@ == request.from_account_id@
        &&& r->Ok_0.account_id@ == request.account_id@
        &&& r->Ok_0.old_state@ == state
        &&& r->Ok_0.new_state@ == state
        &&& opt_pairs_view(r->Ok_0.created) == nonempty(copies_fold(pairs_view(request.create@), ids, now))
        &&& r->Ok_0.not_created is None
    }
}

/// `Email/copy` at time `now`, with the id given to each copy (`new_ids[i]`
/// for the `i`-th): the principal must own both accounts, and the states
/// named must be the current one (the time, in seconds).
pub fn email_copy_with(request: EmailCopyRequest, principal: &crate::types::Principal, new_ids: &Vec<String>, now: i64) -> (r: Result<EmailCopyResponse, String>)
    requires
        new_ids@.len() >= request.create@.len(),
    ensures
        principal.account_id@ != request.from_account_id@ ==> r is Err && r->Err_0@ == forbidden_text(
            request.from_account_id@,
            principal.account_id@,
        ),
        principal.account_id@ == request.from_account_id@ && principal.account_id@ != request.account_id@ ==> r is Err
            && r->Err_0@ == forbidden_text(request.account_id@, principal.account_id@),
        principal.account_id@ == request.from_account_id@ && principal.account_id@ == request.account_id@ ==> ({
            let state = unsigned_time_text(now);
            &&& (request.if_from_in_state matches Some(e) && e@ != state) ==> r is Err && r->Err_0@
                == "State mismatch in source account"@
            &&& (!(request.if_from_in_state matches Some(e) && e@ != state) && (request.if_in_state matches Some(e)
                && e@ != state)) ==> r is Err && r->Err_0@ == "State mismatch in destination account"@
            &&& (!(request.if_from_in_state matches Some(e) && e@ != state) && !(request.if_in_state matches Some(e)
                && e@ != state)) ==> r is Ok && r->Ok_0.from_account_id@ == request.from_account_id@
                && r->Ok_0.account_id@ == request.account_id@ && r->Ok_0.old_state@ == state && r->Ok_0.new_state@
                == state && opt_pairs_view(r->Ok_0.created) == nonempty(
                copies_fold(pairs_view(request.create@), strings_view(new_ids@), now),
            ) && r->Ok_0.not_created is None
        }),
{
    if let Err(e) = ensure_account_ownership(request.from_account_id.as_str(), principal) {
        return Err(forbidden_message(&e));
    }
    if let Err(e) = ensure_account_ownership(request.account_id.as_str(), principal) {
        return Err(forbidden_message(&e));
    }
    let old_state = u64_to_decimal(now as u64);
    assert(old_state@ == unsigned_time_text(now));
    if let Some(expected) = &request.if_from_in_state {
        if !str_eq(old_state.as_str(), expected.as_str()) {
            return Err(string_from("State mismatch in source account"));
        }
    }
    if let Some(expected) = &request.if_in_state {
        if !str_eq(old_state.as_str(), expected.as_str()) {
            return Err(string_from("State mismatch in destination account"));
        }
    }
    let ghost cv = pairs_view(request.create@);
    let ghost ids = strings_view(new_ids@);
    proof {
        lemma_pairs_view_len(request.create@);
        assert(cv.take(0) =~= Seq::<(Seq<char>, CopyContent)>::empty());
    }
    let mut created: Vec<(String, Email)> = Vec::new();
    proof {
        lemma_pairs_view_len(created@);
    }
    let mut i: usize = 0;
    while i < request.create.len()
        invariant
            i <= request.create@.len(),
            cv == pairs_view(request.create@),
            cv.len() == request.create@.len(),
            forall|j: int| 0 <= j < request.create@.len() ==> #[trigger] cv[j] == (request.create@[j].0@, request.create@[j].1@),
            new_ids@.len() >= request.create@.len(),
            ids == strings_view(new_ids@),
            pairs_view(created@) == copies_fold(cv.take(i as int), ids, now),
        decreases request.create.len() - i,
    {
        proof {
            assert(cv.take(i + 1).drop_last() =~= cv.take(i as int));
            assert(cv.take(i + 1)[i as int] == cv[i as int]);
            assert(ids[i as int] == new_ids@[i as int]@);
        }
        let email = copy_email(&request.create[i].1, new_ids[i].clone(), now);
        vput_exec(&mut created, request.create[i].0.clone(), email);
        i = i + 1;
    }
    proof {
        assert(cv.take(request.create@.len() as int) =~= cv);
    }
    let new_state = u64_to_decimal(now as u64);
    Ok(
        EmailCopyResponse {
            from_account_id: request.from_account_id.clone(),
            account_id: request.account_id.clone(),
            old_state,
            new_state,
            created: nonempty_vec(created),
            not_created: None,
        },
    )
}

/// `Email/copy`: every copy gets a fresh random id, and the state is the
/// current time.
pub fn email_copy(request: EmailCopyRequest, principal: &crate::types::Principal) -> (r: Result<EmailCopyResponse, String>)
    ensures
        exists|ids: Seq<Seq<char>>, now: i64|
            ids.len() == request.create@.len() && crate::outside::all_uuid_v4(ids) && #[trigger] copy_outcome(
                request,
                principal.account_id@,
                ids,
                now,
                r,
            ),
        principal.account_id@ == request.from_account_id@ && principal.account_id@ == request.account_id@
            && request.if_from_in_state is None && request.if_in_state is None ==> r is Ok,
{
    let n = request.create.len();
    let mut ids: Vec<String> = Vec::new();
    while ids.len() < n
        invariant
            ids@.len() <= n,
            crate::outside::all_uuid_v4(strings_view(ids@)),
        decreases n - ids@.len(),
    {
        let ghost before = strings_view(ids@);
        let u = new_uuid_string();
        let ghost uu = u@;
        ids.push(u);
        assert(strings_view(ids@) =~= before.push(uu));
    }
    let now = now_timestamp();
    let ghost req = request;
    let r = email_copy_with(request, principal, &ids, now);
    proof {
        assert(copy_outcome(req, principal.account_id@, strings_view(ids@), now, r));
    }
    r
}

} // verus!
