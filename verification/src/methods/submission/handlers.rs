//! The submission methods: `EmailSubmission/get`, `/set`, `/query` and
//! `/changes`, and the rules for cancelling and forgetting submissions.
use vstd::prelude::*;

use crate::json::{jm, jm_entries, lemma_jm_entries, obj_get, obj_lookup, JModel, JsonValue};
use crate::maps::{
    lemma_pairs_view_len, lemma_vput, nonempty, nonempty_vec, opt_pairs_view, opt_strings_view, pairs_view, vget,
    vput, vput_exec,
};
use crate::methods::identity::{
    forbidden_text, trim_leading_slashes, trim_slashes, AccountView, IdentityAccountState,
};
use crate::methods::mailbox::mailbox_types::Precedence;
use crate::methods::submission::create::{
    create_result, fetched_view, handle_submission_create, FetchedMessage, SmtpContent, SmtpEnvelope,
    SubmissionObjectContent,
};
use crate::methods::submission::store::{
    delete_outcome, in_undo_window, put_outcome, within_undo_window, StoredContent, StoredSubmission,
    SubmissionAccountState, SubmissionStateContent,
};
use crate::methods::submission::types::{
    opt_seq, EmailSubmission, EmailSubmissionChangesRequest, EmailSubmissionChangesResponse,
    EmailSubmissionGetRequest, EmailSubmissionGetResponse, EmailSubmissionQueryRequest,
    EmailSubmissionQueryResponse, EmailSubmissionSetRequest, EmailSubmissionSetResponse,
    SubmissionContent, UndoStatus,
};
use crate::methods::{ensure_account_ownership, forbidden_message};
use crate::outside::{new_uuid_string, now_millis};
use crate::text::{
    concat, contains_str, decimal, has_substring, parse_u64, parse_u64_spec, str_eq, string_from,
    strings_view, u64_to_decimal,
};
use crate::types::{JmapSetError, Principal, SetErrorView};

verus! {

/// How long after creation a pending submission may be cancelled.
pub const UNDO_WINDOW_SECS: i64 = 30;

/// The error type named in a submission error text.
pub open spec fn submission_error_type(msg: Seq<char>) -> Seq<char> {
    if has_substring(msg, "notFound"@) {
        "notFound"@
    } else if has_substring(msg, "cannotUnsend"@) {
        "cannotUnsend"@
    } else if has_substring(msg, "invalidProperties"@) {
        "invalidProperties"@
    } else if has_substring(msg, "methodNotAllowed"@) {
        "methodNotAllowed"@
    } else {
        "serverFail"@
    }
}

/// The error type named in a submission error text.
pub fn classify_submission_error(err_msg: &str) -> (r: &'static str)
    ensures
        r@ == submission_error_type(err_msg@),
{
    if contains_str(err_msg, "notFound") {
        "notFound"
    } else if contains_str(err_msg, "cannotUnsend") {
        "cannotUnsend"
    } else if contains_str(err_msg, "invalidProperties") {
        "invalidProperties"
    } else if contains_str(err_msg, "methodNotAllowed") {
        "methodNotAllowed"
    } else {
        "serverFail"
    }
}

/// The name of an undo status as its debug form writes it.
pub open spec fn status_name(s: UndoStatus) -> Seq<char> {
    match s {
        UndoStatus::Pending => "Pending"@,
        UndoStatus::Final => "Final"@,
        UndoStatus::Canceled => "Canceled"@,
    }
}

/// An undo status read from JSON: one of the three names.
pub open spec fn undo_status_from(v: JModel) -> Result<UndoStatus, Seq<char>> {
    match v {
        JModel::Str(s) => if s == "pending"@ {
            Ok(UndoStatus::Pending)
        } else if s == "final"@ {
            Ok(UndoStatus::Final)
        } else if s == "canceled"@ {
            Ok(UndoStatus::Canceled)
        } else {
            Err("unknown variant `"@ + s + "`, expected one of `pending`, `final`, `canceled`"@)
        },
        _ => Err("invalid type: expected one of `pending`, `final`, `canceled`"@),
    }
}

/// The first patch key, without its leading `/`, that is not `undoStatus`.
pub open spec fn first_bad_field(e: Seq<(Seq<char>, JModel)>) -> Option<Seq<char>>
    decreases e.len(),
{
    if e.len() == 0 {
        None
    } else if trim_slashes(e[0].0) != "undoStatus"@ {
        Some(trim_slashes(e[0].0))
    } else {
        first_bad_field(e.drop_first())
    }
}

/// The `undoStatus` member of a patch, under that key or `/undoStatus`.
pub open spec fn undo_member(e: Seq<(Seq<char>, JModel)>) -> Option<JModel> {
    match obj_lookup(e, "undoStatus"@) {
        Some(v) => Some(v),
        None => obj_lookup(e, "/undoStatus"@),
    }
}

/// What an update of submission `id` at time `now` gives: the cancelled
/// submission, or an error text. Only `undoStatus: "canceled"` is accepted,
/// and only for a pending submission inside the undo window.
pub open spec fn update_result(a: SubmissionStateContent, id: Seq<char>, patch: JModel, now: i64) -> Result<StoredContent, Seq<char>> {
    match vget(a.submissions, id) {
        None => Err("notFound: submission '"@ + id + "' not found"@),
        Some(stored) => match patch {
            JModel::Object(e) => match first_bad_field(e) {
                Some(f) => Err("invalidProperties: field '"@ + f + "' is immutable or unrecognised"@),
                None => match undo_member(e) {
                    None => Err("invalidProperties: patch must contain 'undoStatus'"@),
                    Some(v) => match undo_status_from(v) {
                        Err(m) => Err(m),
                        Ok(st) => if st != UndoStatus::Canceled {
                            Err("invalidProperties: undoStatus may only be set to 'canceled'"@)
                        } else if !in_undo_window(stored, UNDO_WINDOW_SECS, now) {
                            if stored.submission.undo_status != UndoStatus::Pending {
                                Err(
                                    "invalidProperties: submission is not in 'pending' state (current: "@
                                        + status_name(stored.submission.undo_status) + ")"@,
                                )
                            } else {
                                Err("cannotUnsend: the undo window of 30 seconds has expired"@)
                            }
                        } else {
                            Ok(
                                StoredContent {
                                    submission: SubmissionContent { undo_status: UndoStatus::Canceled, ..stored.submission },
                                    ..stored
                                },
                            )
                        },
                    },
                },
            },
            _ => Err("invalidProperties: patch must be a JSON object"@),
        },
    }
}

fn read_undo_status(v: &JsonValue) -> (r: Result<UndoStatus, String>)
    ensures
        match r {
            Ok(s) => undo_status_from(jm(*v)) == Ok::<UndoStatus, Seq<char>>(s),
            Err(m) => undo_status_from(jm(*v)) == Err::<UndoStatus, Seq<char>>(m@),
        },
{
    match v {
        JsonValue::Str(s) => {
            if str_eq(s.as_str(), "pending") {
                Ok(UndoStatus::Pending)
            } else if str_eq(s.as_str(), "final") {
                Ok(UndoStatus::Final)
            } else if str_eq(s.as_str(), "canceled") {
                Ok(UndoStatus::Canceled)
            } else {
                let a = concat("unknown variant `", s.as_str());
                Err(concat(a.as_str(), "`, expected one of `pending`, `final`, `canceled`"))
            }
        },
        _ => Err(string_from("invalid type: expected one of `pending`, `final`, `canceled`")),
    }
}

fn find_bad_field(e: &Vec<(String, JsonValue)>) -> (r: Option<String>)
    ensures
        match r {
            Some(f) => first_bad_field(jm_entries(e@)) == Some(f@),
            None => first_bad_field(jm_entries(e@)) is None,
        },
{
    let ghost ev = jm_entries(e@);
    proof {
        lemma_jm_entries(e@);
        assert(ev.skip(0) =~= ev);
    }
    let mut i: usize = 0;
    while i < e.len()
        invariant
            i <= e@.len(),
            ev == jm_entries(e@),
            ev.len() == e@.len(),
            forall|j: int| 0 <= j < e@.len() ==> #[trigger] ev[j] == (e@[j].0@, jm(e@[j].1)),
            first_bad_field(ev) == first_bad_field(ev.skip(i as int)),
        decreases e.len() - i,
    {
        let ghost rest = ev.skip(i as int);
        assert(rest[0] == ev[i as int]);
        let f = trim_leading_slashes(e[i].0.as_str());
        if !str_eq(f.as_str(), "undoStatus") {
            return Some(f);
        }
        assert(rest.drop_first() =~= ev.skip(i + 1));
        i = i + 1;
    }
    assert(ev.skip(i as int).len() == 0);
    None
}

fn status_text(s: UndoStatus) -> (r: &'static str)
    ensures
        r@ == status_name(s),
{
    match s {
        UndoStatus::Pending => "Pending",
        UndoStatus::Final => "Final",
        UndoStatus::Canceled => "Canceled",
    }
}

/// The view of an update result.
pub open spec fn submission_result_view(r: Result<EmailSubmission, String>) -> Result<SubmissionContent, Seq<char>> {
    match r {
        Ok(s) => Ok(s@),
        Err(m) => Err(m@),
    }
}

/// Applies an update to submission `id` at time `now`; on success the
/// cancelled submission is kept.
pub fn handle_submission_update(state: &mut SubmissionAccountState, id: &str, patch: &JsonValue, now: i64) -> (r: Result<EmailSubmission, String>)
    requires
        old(state).state_version < u64::MAX,
    ensures
        match update_result(old(state)@, id@, jm(*patch), now) {
            Ok(s) => final(state)@ == put_outcome(old(state)@, s) && submission_result_view(r) == Ok::<SubmissionContent, Seq<char>>(s.submission),
            Err(m) => final(state)@ == old(state)@ && submission_result_view(r) == Err::<SubmissionContent, Seq<char>>(m),
        },
{
    let stored = match state.get_submission(id) {
        Some(s) => s,
        None => {
            let a = concat("notFound: submission '", id);
            return Err(concat(a.as_str(), "' not found"));
        },
    };
    let entries = match patch {
        JsonValue::Object(e) => e,
        _ => {
            return Err(string_from("invalidProperties: patch must be a JSON object"));
        },
    };
    if let Some(f) = find_bad_field(entries) {
        let a = concat("invalidProperties: field '", f.as_str());
        return Err(concat(a.as_str(), "' is immutable or unrecognised"));
    }
    let raw = match obj_get(entries, "undoStatus") {
        Some(v) => v,
        None => match obj_get(entries, "/undoStatus") {
            Some(v) => v,
            None => {
                return Err(string_from("invalidProperties: patch must contain 'undoStatus'"));
            },
        },
    };
    let new_status = match read_undo_status(raw) {
        Ok(s) => s,
        Err(m) => {
            return Err(m);
        },
    };
    if new_status != UndoStatus::Canceled {
        return Err(string_from("invalidProperties: undoStatus may only be set to 'canceled'"));
    }
    if !within_undo_window(&stored, UNDO_WINDOW_SECS, now) {
        if stored.submission.undo_status != UndoStatus::Pending {
            let a = concat(
                "invalidProperties: submission is not in 'pending' state (current: ",
                status_text(stored.submission.undo_status),
            );
            return Err(concat(a.as_str(), ")"));
        }
        return Err(string_from("cannotUnsend: the undo window of 30 seconds has expired"));
    }
    let mut updated = stored;
    updated.submission.undo_status = UndoStatus::Canceled;
    let result = updated.submission.duplicate();
    state.put_submission(updated);
    Ok(result)
}

/// What forgetting submission `id` gives: final submissions stay.
pub open spec fn destroy_result(a: SubmissionStateContent, id: Seq<char>) -> Result<(), Seq<char>> {
    match vget(a.submissions, id) {
        None => Err("notFound: submission '"@ + id + "' not found"@),
        Some(stored) => if stored.submission.undo_status == UndoStatus::Final {
            Err("methodNotAllowed: cannot delete a submission with status 'final'"@)
        } else {
            Ok(())
        },
    }
}

/// Forgets submission `id` unless it is final.
pub fn handle_submission_destroy(state: &mut SubmissionAccountState, id: &str) -> (r: Result<(), String>)
    requires
        old(state).state_version < u64::MAX,
    ensures
        match destroy_result(old(state)@, id@) {
            Ok(()) => final(state)@ == delete_outcome(old(state)@, id@) && r is Ok,
            Err(m) => final(state)@ == old(state)@ && r == Err::<(), String>(r->Err_0) && r->Err_0@ == m,
        },
{
    let stored = match state.get_submission(id) {
        Some(s) => s,
        None => {
            let a = concat("notFound: submission '", id);
            return Err(concat(a.as_str(), "' not found"));
        },
    };
    match stored.submission.undo_status {
        UndoStatus::Final => Err(string_from("methodNotAllowed: cannot delete a submission with status 'final'")),
        _ => {
            state.delete_submission(id);
            Ok(())
        },
    }
}


// ── EmailSubmission/set ─────────────────────────────────────────────────────

/// What the caller found out, outside this library, for one create: the
/// stored message (or the lookup's error), and the message's thread.
#[derive(Debug)]
pub struct CreateLookup {
    pub fetched: Result<Option<FetchedMessage>, String>,
    pub thread_id: Option<String>,
}

/// The content of a create lookup.
pub struct LookupContent {
    pub fetched: Result<Option<Seq<(Seq<char>, Seq<Seq<char>>)>>, Seq<char>>,
    pub thread_id: Option<Seq<char>>,
}

impl View for CreateLookup {
    type V = LookupContent;

    open spec fn view(&self) -> LookupContent {
        LookupContent { fetched: fetched_view(self.fetched), thread_id: opt_seq(self.thread_id) }
    }
}

/// The contents of a list of lookups.
pub open spec fn lookups_view(s: Seq<CreateLookup>) -> Seq<LookupContent> {
    s.map_values(|l: CreateLookup| l@)
}

/// A message to hand to the transport once the call is done: its envelope,
/// and when to send it (milliseconds since the Unix epoch; now if absent).
#[derive(Debug)]
pub struct SendAction {
    pub submission_id: String,
    pub email_id: String,
    pub envelope: SmtpEnvelope,
    pub send_at: Option<i64>,
}

/// The content of a send action.
pub struct SendContent {
    pub submission_id: Seq<char>,
    pub email_id: Seq<char>,
    pub envelope: SmtpContent,
    pub send_at: Option<i64>,
}

impl View for SendAction {
    type V = SendContent;

    open spec fn view(&self) -> SendContent {
        SendContent {
            submission_id: self.submission_id@,
            email_id: self.email_id@,
            envelope: self.envelope@,
            send_at: self.send_at,
        }
    }
}

/// How far an `EmailSubmission/set` call has got.
pub struct SubmissionSetProgress {
    pub state: SubmissionStateContent,
    pub created: Seq<(Seq<char>, SubmissionContent)>,
    pub not_created: Seq<(Seq<char>, SetErrorView)>,
    pub updated: Seq<(Seq<char>, SubmissionContent)>,
    pub not_updated: Seq<(Seq<char>, SetErrorView)>,
    pub destroyed: Seq<Seq<char>>,
    pub not_destroyed: Seq<(Seq<char>, SetErrorView)>,
    pub sends: Seq<SendContent>,
}

/// An error whose type is read from its text.
pub open spec fn classified(m: Seq<char>) -> SetErrorView {
    SetErrorView { error_type: submission_error_type(m), description: Some(m) }
}

/// One create.
pub open spec fn submission_create_step(
    p: SubmissionSetProgress,
    account_id: Seq<char>,
    identities: AccountView,
    cid: Seq<char>,
    obj: SubmissionObjectContent,
    lookup: LookupContent,
    id: Seq<char>,
    now: i64,
) -> SubmissionSetProgress {
    match create_result(account_id, obj, identities, lookup.fetched, lookup.thread_id, id, now) {
        Err(e) => SubmissionSetProgress { not_created: vput(p.not_created, cid, e), ..p },
        Ok((stored, env)) => SubmissionSetProgress {
            state: put_outcome(p.state, stored),
            created: vput(p.created, cid, stored.submission),
            sends: p.sends.push(SendContent { submission_id: id, email_id: obj.email_id, envelope: env, send_at: obj.send_at }),
            ..p
        },
    }
}

/// One update.
pub open spec fn submission_update_step(p: SubmissionSetProgress, id: Seq<char>, patch: JModel, now: i64) -> SubmissionSetProgress {
    match update_result(p.state, id, patch, now) {
        Ok(s) => SubmissionSetProgress { state: put_outcome(p.state, s), updated: vput(p.updated, id, s.submission), ..p },
        Err(m) => SubmissionSetProgress { not_updated: vput(p.not_updated, id, classified(m)), ..p },
    }
}

/// One destroy.
pub open spec fn submission_destroy_step(p: SubmissionSetProgress, id: Seq<char>) -> SubmissionSetProgress {
    match destroy_result(p.state, id) {
        Ok(()) => SubmissionSetProgress { state: delete_outcome(p.state, id), destroyed: p.destroyed.push(id), ..p },
        Err(m) => SubmissionSetProgress { not_destroyed: vput(p.not_destroyed, id, classified(m)), ..p },
    }
}

/// The creates in order; the `i`-th uses `lookups[i]` and the id `ids[i]`.
pub open spec fn submission_creates_fold(
    p: SubmissionSetProgress,
    account_id: Seq<char>,
    identities: AccountView,
    creates: Seq<(Seq<char>, SubmissionObjectContent)>,
    lookups: Seq<LookupContent>,
    ids: Seq<Seq<char>>,
    now: i64,
) -> SubmissionSetProgress
    decreases creates.len(),
{
    if creates.len() == 0 {
        p
    } else {
        let n = creates.len() - 1;
        submission_create_step(
            submission_creates_fold(p, account_id, identities, creates.drop_last(), lookups, ids, now),
            account_id,
            identities,
            creates[n].0,
            creates[n].1,
            lookups[n],
            ids[n],
            now,
        )
    }
}

/// The updates in order.
pub open spec fn submission_updates_fold(p: SubmissionSetProgress, updates: Seq<(Seq<char>, JModel)>, now: i64) -> SubmissionSetProgress
    decreases updates.len(),
{
    if updates.len() == 0 {
        p
    } else {
        submission_update_step(submission_updates_fold(p, updates.drop_last(), now), updates.last().0, updates.last().1, now)
    }
}

/// The destroys in order.
pub open spec fn submission_destroys_fold(p: SubmissionSetProgress, ids: Seq<Seq<char>>) -> SubmissionSetProgress
    decreases ids.len(),
{
    if ids.len() == 0 {
        p
    } else {
        submission_destroy_step(submission_destroys_fold(p, ids.drop_last()), ids.last())
    }
}

/// The creates of a request.
pub open spec fn submission_creates(req: EmailSubmissionSetRequest) -> Seq<(Seq<char>, SubmissionObjectContent)> {
    match req.create {
        Some(v) => pairs_view(v@),
        None => seq![],
    }
}

/// The updates of a request.
pub open spec fn submission_updates(req: EmailSubmissionSetRequest) -> Seq<(Seq<char>, JModel)> {
    match req.update {
        Some(v) => jm_entries(v@),
        None => seq![],
    }
}

/// The destroys of a request.
pub open spec fn submission_destroys(req: EmailSubmissionSetRequest) -> Seq<Seq<char>> {
    match req.destroy {
        Some(v) => strings_view(v@),
        None => seq![],
    }
}

/// The number of operations in a request.
pub open spec fn submission_op_count(req: EmailSubmissionSetRequest) -> int {
    (submission_creates(req).len() + submission_updates(req).len() + submission_destroys(req).len()) as int
}

/// Creates, then updates, then destroys.
pub open spec fn submission_set_progress(
    a: SubmissionStateContent,
    identities: AccountView,
    req: EmailSubmissionSetRequest,
    lookups: Seq<LookupContent>,
    ids: Seq<Seq<char>>,
    now: i64,
) -> SubmissionSetProgress {
    let start = SubmissionSetProgress {
        state: a,
        created: seq![],
        not_created: seq![],
        updated: seq![],
        not_updated: seq![],
        destroyed: seq![],
        not_destroyed: seq![],
        sends: seq![],
    };
    submission_destroys_fold(
        submission_updates_fold(
            submission_creates_fold(start, req.account_id@, identities, submission_creates(req), lookups, ids, now),
            submission_updates(req),
            now,
        ),
        submission_destroys(req),
    )
}

/// The content of an optional submission.
pub open spec fn opt_submission(o: Option<EmailSubmission>) -> Option<SubmissionContent> {
    match o {
        Some(s) => Some(s@),
        None => None,
    }
}

/// The `updated` map of a response.
pub open spec fn submission_updated_view(o: Option<Vec<(String, Option<EmailSubmission>)>>) -> Option<Seq<(Seq<char>, Option<SubmissionContent>)>> {
    match o {
        Some(v) => Some(v@.map_values(|p: (String, Option<EmailSubmission>)| (p.0@, opt_submission(p.1)))),
        None => None,
    }
}

/// Every value wrapped in `Some`.
pub open spec fn submission_wrap_some(s: Seq<(Seq<char>, SubmissionContent)>) -> Seq<(Seq<char>, Option<SubmissionContent>)> {
    s.map_values(|p: (Seq<char>, SubmissionContent)| (p.0, Some(p.1)))
}

/// A response and its send actions match `p`.
pub open spec fn submission_response_matches(r: EmailSubmissionSetResponse, sends: Seq<SendAction>, account_id: Seq<char>, p: SubmissionSetProgress) -> bool {
    &&& r.account_id@ == account_id
    &&& opt_pairs_view(r.created) == nonempty(p.created)
    &&& submission_updated_view(r.updated) == nonempty(submission_wrap_some(p.updated))
    &&& opt_strings_view(r.destroyed) == nonempty(p.destroyed)
    &&& opt_pairs_view(r.not_created) == nonempty(p.not_created)
    &&& opt_pairs_view(r.not_updated) == nonempty(p.not_updated)
    &&& opt_pairs_view(r.not_destroyed) == nonempty(p.not_destroyed)
    &&& sends.map_values(|a: SendAction| a@) == p.sends
}

struct SubmissionOutcomes {
    created: Vec<(String, EmailSubmission)>,
    not_created: Vec<(String, JmapSetError)>,
    updated: Vec<(String, EmailSubmission)>,
    not_updated: Vec<(String, JmapSetError)>,
    destroyed: Vec<String>,
    not_destroyed: Vec<(String, JmapSetError)>,
    sends: Vec<SendAction>,
}

spec fn outcomes_progress(a: SubmissionStateContent, w: SubmissionOutcomes) -> SubmissionSetProgress {
    SubmissionSetProgress {
        state: a,
        created: pairs_view(w.created@),
        not_created: pairs_view(w.not_created@),
        updated: pairs_view(w.updated@),
        not_updated: pairs_view(w.not_updated@),
        destroyed: strings_view(w.destroyed@),
        not_destroyed: pairs_view(w.not_destroyed@),
        sends: w.sends@.map_values(|a: SendAction| a@),
    }
}

fn classified_error(m: String) -> (r: JmapSetError)
    ensures
        r@ == classified(m@),
{
    let t = classify_submission_error(m.as_str());
    JmapSetError { error_type: string_from(t), description: Some(m) }
}

fn submission_apply_create(
    state: &mut SubmissionAccountState,
    w: SubmissionOutcomes,
    account_id: &String,
    identities: &IdentityAccountState,
    cid: &String,
    obj: &crate::methods::submission::types::EmailSubmissionObject,
    lookup: CreateLookup,
    id: String,
    now: i64,
) -> (r: SubmissionOutcomes)
    requires
        old(state).state_version < u64::MAX,
    ensures
        outcomes_progress(final(state)@, r) == submission_create_step(
            outcomes_progress(old(state)@, w),
            account_id@,
            identities@,
            cid@,
            obj@,
            lookup@,
            id@,
            now,
        ),
{
    let SubmissionOutcomes { mut created, mut not_created, updated, not_updated, destroyed, not_destroyed, mut sends } = w;
    let ghost idv = id@;
    let sid = id.clone();
    match handle_submission_create(account_id.as_str(), obj, identities, lookup.fetched, lookup.thread_id, id, now, state) {
        Err(e) => {
            vput_exec(&mut not_created, cid.clone(), e);
        },
        Ok((submission, envelope)) => {
            let ghost before = sends@;
            let action = SendAction { submission_id: sid, email_id: obj.email_id.clone(), envelope, send_at: obj.send_at };
            let ghost av = action@;
            sends.push(action);
            proof {
                assert(sends@.map_values(|a: SendAction| a@) =~= before.map_values(|a: SendAction| a@).push(av));
            }
            vput_exec(&mut created, cid.clone(), submission);
        },
    }
    SubmissionOutcomes { created, not_created, updated, not_updated, destroyed, not_destroyed, sends }
}

fn submission_apply_update(state: &mut SubmissionAccountState, w: SubmissionOutcomes, id: &String, patch: &JsonValue, now: i64) -> (r: SubmissionOutcomes)
    requires
        old(state).state_version < u64::MAX,
    ensures
        outcomes_progress(final(state)@, r) == submission_update_step(outcomes_progress(old(state)@, w), id@, jm(*patch), now),
{
    let SubmissionOutcomes { created, not_created, mut updated, mut not_updated, destroyed, not_destroyed, sends } = w;
    match handle_submission_update(state, id.as_str(), patch, now) {
        Ok(s) => {
            vput_exec(&mut updated, id.clone(), s);
        },
        Err(m) => {
            vput_exec(&mut not_updated, id.clone(), classified_error(m));
        },
    }
    SubmissionOutcomes { created, not_created, updated, not_updated, destroyed, not_destroyed, sends }
}

fn submission_apply_destroy(state: &mut SubmissionAccountState, w: SubmissionOutcomes, id: &String) -> (r: SubmissionOutcomes)
    requires
        old(state).state_version < u64::MAX,
    ensures
        outcomes_progress(final(state)@, r) == submission_destroy_step(outcomes_progress(old(state)@, w), id@),
{
    let SubmissionOutcomes { created, not_created, updated, not_updated, mut destroyed, mut not_destroyed, sends } = w;
    match handle_submission_destroy(state, id.as_str()) {
        Ok(()) => {
            let ghost before = destroyed@;
            destroyed.push(id.clone());
            proof {
                assert(strings_view(destroyed@) =~= strings_view(before).push(id@));
            }
        },
        Err(m) => {
            vput_exec(&mut not_destroyed, id.clone(), classified_error(m));
        },
    }
    SubmissionOutcomes { created, not_created, updated, not_updated, destroyed, not_destroyed, sends }
}

fn wrap_submissions(v: &Vec<(String, EmailSubmission)>) -> (r: Vec<(String, Option<EmailSubmission>)>)
    ensures
        submission_updated_view(Some(r)) == Some(submission_wrap_some(pairs_view(v@))),
{
    proof {
        lemma_pairs_view_len(v@);
    }
    let mut out: Vec<(String, Option<EmailSubmission>)> = Vec::new();
    let mut i: usize = 0;
    while i < v.len()
        invariant
            i <= v.len(),
            out@.len() == i,
            forall|j: int| 0 <= j < i ==> (#[trigger] out@[j]).0@ == v@[j].0@ && opt_submission(out@[j].1) == Some(v@[j].1@),
        decreases v.len() - i,
    {
        out.push((v[i].0.clone(), Some(v[i].1.duplicate())));
        i = i + 1;
    }
    proof {
        assert(out@.map_values(|p: (String, Option<EmailSubmission>)| (p.0@, opt_submission(p.1))) =~= submission_wrap_some(pairs_view(v@)));
    }
    out
}

/// `EmailSubmission/set` on one account's submissions, with what was looked
/// up for each create (`lookups[i]`), the id given to each (`ids[i]`) and
/// the current time: refused for an account the principal does not own.
/// The returned actions are the messages to hand to the transport.
pub fn email_submission_set_with(
    state: &mut SubmissionAccountState,
    identities: &IdentityAccountState,
    request: EmailSubmissionSetRequest,
    principal: &Principal,
    lookups: Vec<CreateLookup>,
    ids: &Vec<String>,
    now: i64,
) -> (r: Result<(EmailSubmissionSetResponse, Vec<SendAction>), String>)
    requires
        lookups@.len() >= submission_creates(request).len(),
        ids@.len() >= submission_creates(request).len(),
        principal.account_id@ == request.account_id@ ==> old(state).state_version + submission_op_count(request)
            < u64::MAX,
    ensures
        principal.account_id@ != request.account_id@ ==> final(state)@ == old(state)@ && r is Err && r->Err_0@
            == forbidden_text(request.account_id@, principal.account_id@),
        principal.account_id@ == request.account_id@ ==> ({
            let p = submission_set_progress(
                old(state)@,
                identities@,
                request,
                lookups_view(lookups@),
                strings_view(ids@),
                now,
            );
            &&& r is Ok
            &&& final(state)@ == p.state
            &&& submission_response_matches(r->Ok_0.0, r->Ok_0.1@, request.account_id@, p)
            &&& r->Ok_0.0.old_state@ == decimal(old(state)@.state_version as nat)
            &&& r->Ok_0.0.new_state@ == decimal(p.state.state_version as nat)
        }),
{
    if let Err(e) = ensure_account_ownership(request.account_id.as_str(), principal) {
        return Err(forbidden_message(&e));
    }
    let ghost req = request;
    let ghost lv = lookups_view(lookups@);
    let ghost idv = strings_view(ids@);
    let ghost a0 = state@;
    let old_state = state.state_token();
    let mut w = SubmissionOutcomes {
        created: Vec::new(),
        not_created: Vec::new(),
        updated: Vec::new(),
        not_updated: Vec::new(),
        destroyed: Vec::new(),
        not_destroyed: Vec::new(),
        sends: Vec::new(),
    };
    let ghost start = SubmissionSetProgress {
        state: a0,
        created: seq![],
        not_created: seq![],
        updated: seq![],
        not_updated: seq![],
        destroyed: seq![],
        not_destroyed: seq![],
        sends: seq![],
    };
    proof {
        assert(pairs_view(w.created@) =~= Seq::<(Seq<char>, SubmissionContent)>::empty());
        assert(pairs_view(w.updated@) =~= Seq::<(Seq<char>, SubmissionContent)>::empty());
        assert(pairs_view(w.not_created@) =~= Seq::<(Seq<char>, SetErrorView)>::empty());
        assert(pairs_view(w.not_updated@) =~= Seq::<(Seq<char>, SetErrorView)>::empty());
        assert(pairs_view(w.not_destroyed@) =~= Seq::<(Seq<char>, SetErrorView)>::empty());
        assert(strings_view(w.destroyed@) =~= Seq::<Seq<char>>::empty());
        assert(w.sends@.map_values(|a: SendAction| a@) =~= Seq::<SendContent>::empty());
        assert(outcomes_progress(state@, w) == start);
    }
    let ghost nc = submission_creates(req).len();
    let ghost nu = submission_updates(req).len();
    let mut lookups = lookups;
    if let Some(creates) = &request.create {
        let ghost cv = pairs_view(creates@);
        proof {
            lemma_pairs_view_len(creates@);
            assert(cv.take(0) =~= Seq::<(Seq<char>, SubmissionObjectContent)>::empty());
        }
        let mut rest: Vec<CreateLookup> = Vec::new();
        std::mem::swap(&mut rest, &mut lookups);
        assert(lookups_view(rest@) =~= lv.skip(0));
        let mut i: usize = 0;
        while i < creates.len()
            invariant
                i <= creates.len(),
                req == request,
                cv == pairs_view(creates@),
                cv.len() == creates@.len(),
                nc == cv.len(),
                forall|j: int| 0 <= j < creates@.len() ==> #[trigger] cv[j] == (creates@[j].0@, creates@[j].1@),
                lookups_view(rest@) == lv.skip(i as int),
                lv.len() >= creates@.len(),
                ids@.len() >= creates@.len(),
                idv == strings_view(ids@),
                state@.state_version <= a0.state_version + i,
                a0.state_version + submission_op_count(req) < u64::MAX,
                submission_op_count(req) >= nc,
                outcomes_progress(state@, w) == submission_creates_fold(start, req.account_id@, identities@, cv.take(i as int), lv, idv, now),
            decreases creates.len() - i,
        {
            proof {
                assert(cv.take(i + 1).drop_last() =~= cv.take(i as int));
                assert(cv.take(i + 1)[i as int] == cv[i as int]);
                assert(idv[i as int] == ids@[i as int]@);
                assert(lookups_view(rest@).len() == rest@.len());
                assert(lookups_view(rest@)[0] == lv[i as int]);
            }
            let ghost rb = rest@;
            let lookup = rest.remove(0);
            proof {
                assert(lookups_view(rest@) =~= lookups_view(rb).drop_first());
                assert(lookups_view(rb).drop_first() =~= lv.skip(i + 1));
                assert(lookup == rb[0]);
                assert(lookups_view(rb)[0] == rb[0]@);
                assert(lookup@ == lv[i as int]);
            }
            w = submission_apply_create(
                state,
                w,
                &request.account_id,
                identities,
                &creates[i].0,
                &creates[i].1,
                lookup,
                ids[i].clone(),
                now,
            );
            i = i + 1;
        }
        proof {
            assert(cv.take(creates@.len() as int) =~= cv);
        }
    }
    let ghost after_creates = outcomes_progress(state@, w);
    assert(after_creates == submission_creates_fold(start, req.account_id@, identities@, submission_creates(req), lv, idv, now));
    assert(state@.state_version <= a0.state_version + nc);
    if let Some(updates) = &request.update {
        let ghost uv = jm_entries(updates@);
        proof {
            lemma_jm_entries(updates@);
            assert(uv.take(0) =~= Seq::<(Seq<char>, JModel)>::empty());
        }
        let mut i: usize = 0;
        while i < updates.len()
            invariant
                i <= updates.len(),
                uv == jm_entries(updates@),
                uv.len() == updates@.len(),
                nu == uv.len(),
                forall|j: int| 0 <= j < updates@.len() ==> #[trigger] uv[j] == (updates@[j].0@, jm(updates@[j].1)),
                state@.state_version <= a0.state_version + nc + i,
                a0.state_version + submission_op_count(req) < u64::MAX,
                submission_op_count(req) >= nc + nu,
                outcomes_progress(state@, w) == submission_updates_fold(after_creates, uv.take(i as int), now),
            decreases updates.len() - i,
        {
            proof {
                assert(uv.take(i + 1).drop_last() =~= uv.take(i as int));
                assert(uv.take(i + 1).last() == uv[i as int]);
            }
            w = submission_apply_update(state, w, &updates[i].0, &updates[i].1, now);
            i = i + 1;
        }
        proof {
            assert(uv.take(updates@.len() as int) =~= uv);
        }
    } else {
        assert(submission_updates(req) =~= Seq::<(Seq<char>, JModel)>::empty());
    }
    let ghost after_updates = outcomes_progress(state@, w);
    assert(after_updates == submission_updates_fold(after_creates, submission_updates(req), now));
    assert(state@.state_version <= a0.state_version + nc + nu);
    if let Some(destroys) = &request.destroy {
        let ghost dv = strings_view(destroys@);
        proof {
            assert(dv.take(0) =~= Seq::<Seq<char>>::empty());
        }
        let mut i: usize = 0;
        while i < destroys.len()
            invariant
                i <= destroys.len(),
                dv == strings_view(destroys@),
                state@.state_version <= a0.state_version + nc + nu + i,
                a0.state_version + submission_op_count(req) < u64::MAX,
                submission_op_count(req) == nc + nu + dv.len(),
                outcomes_progress(state@, w) == submission_destroys_fold(after_updates, dv.take(i as int)),
            decreases destroys.len() - i,
        {
            proof {
                assert(dv.take(i + 1).drop_last() =~= dv.take(i as int));
                assert(dv.take(i + 1).last() == destroys@[i as int]@);
            }
            w = submission_apply_destroy(state, w, &destroys[i]);
            i = i + 1;
        }
        proof {
            assert(dv.take(destroys@.len() as int) =~= dv);
        }
    } else {
        assert(submission_destroys(req) =~= Seq::<Seq<char>>::empty());
    }
    assert(outcomes_progress(state@, w) == submission_set_progress(a0, identities@, req, lv, idv, now));
    let updated = wrap_submissions(&w.updated);
    let new_state = state.state_token();
    Ok(
        (
            EmailSubmissionSetResponse {
                account_id: request.account_id.clone(),
                old_state,
                new_state,
                created: nonempty_vec(w.created),
                updated: nonempty_vec(updated),
                destroyed: nonempty_vec(w.destroyed),
                not_created: nonempty_vec(w.not_created),
                not_updated: nonempty_vec(w.not_updated),
                not_destroyed: nonempty_vec(w.not_destroyed),
            },
            w.sends,
        ),
    )
}

/// `EmailSubmission/set`: every create gets a fresh random id, and the
/// current time decides the undo window; the rest is
/// `email_submission_set_with`.
pub fn email_submission_set(
    state: &mut SubmissionAccountState,
    identities: &IdentityAccountState,
    request: EmailSubmissionSetRequest,
    principal: &Principal,
    lookups: Vec<CreateLookup>,
) -> (r: Result<(EmailSubmissionSetResponse, Vec<SendAction>), String>)
    requires
        lookups@.len() >= submission_creates(request).len(),
        principal.account_id@ == request.account_id@ ==> old(state).state_version + submission_op_count(request)
            < u64::MAX,
    ensures
        principal.account_id@ != request.account_id@ ==> final(state)@ == old(state)@ && r is Err && r->Err_0@
            == forbidden_text(request.account_id@, principal.account_id@),
        principal.account_id@ == request.account_id@ ==> exists|ids: Seq<Seq<char>>, now: i64|
            ids.len() == submission_creates(request).len() && crate::outside::all_uuid_v4(ids) && {
                let p = #[trigger] submission_set_progress(
                    old(state)@,
                    identities@,
                    request,
                    lookups_view(lookups@),
                    ids,
                    now,
                );
                &&& r is Ok
                &&& final(state)@ == p.state
                &&& submission_response_matches(r->Ok_0.0, r->Ok_0.1@, request.account_id@, p)
            },
{
    let n: usize = match &request.create {
        Some(c) => c.len(),
        None => 0,
    };
    proof {
        if request.create is Some {
            lemma_pairs_view_len(request.create->0@);
        }
    }
    let mut ids: Vec<String> = Vec::new();
    while ids.len() < n
        invariant
            ids@.len() <= n,
            crate::outside::all_uuid_v4(strings_view(ids@)),
        decreases n - ids@.len(),
    {
        let ghost before = strings_view(ids@);
        let u = new_uuid_string();
        let ghost uu = u@;
        ids.push(u);
        assert(strings_view(ids@) =~= before.push(uu));
    }
    let now = now_millis();
    let ghost req = request;
    let ghost a0 = state@;
    let ghost lv = lookups_view(lookups@);
    let r = email_submission_set_with(state, identities, request, principal, lookups, &ids, now);
    proof {
        let _ = submission_set_progress(a0, identities@, req, lv, strings_view(ids@), now);
    }
    r
}

// ── EmailSubmission/get, /query, /changes ───────────────────────────────────

/// `EmailSubmission/get`: no submission is listed; every id asked for is
/// reported not found, and the state is `1`.
pub fn email_submission_get(request: EmailSubmissionGetRequest, principal: &Principal) -> (r: Result<EmailSubmissionGetResponse, String>)
    ensures
        principal.account_id@ != request.account_id@ ==> r is Err && r->Err_0@ == forbidden_text(
            request.account_id@,
            principal.account_id@,
        ),
        principal.account_id@ == request.account_id@ ==> r is Ok && r->Ok_0.account_id@ == request.account_id@
            && r->Ok_0.state@ == "1"@ && r->Ok_0.list@.len() == 0 && strings_view(r->Ok_0.not_found@) == match request.ids {
            Some(v) => strings_view(v@),
            None => Seq::<Seq<char>>::empty(),
        },
{
    if let Err(e) = ensure_account_ownership(request.account_id.as_str(), principal) {
        return Err(forbidden_message(&e));
    }
    let not_found = match &request.ids {
        Some(v) => crate::methods::mailbox::clone_strings(v),
        None => {
            let v: Vec<String> = Vec::new();
            assert(strings_view(v@) =~= Seq::<Seq<char>>::empty());
            v
        },
    };
    Ok(EmailSubmissionGetResponse { account_id: request.account_id.clone(), state: string_from("1"), list: Vec::new(), not_found })
}

/// `EmailSubmission/query`: the answer is empty; the position and limit
/// are echoed (0 and 100 when not given).
pub fn email_submission_query(request: EmailSubmissionQueryRequest, principal: &Principal) -> (r: Result<EmailSubmissionQueryResponse, String>)
    ensures
        principal.account_id@ != request.account_id@ ==> r is Err && r->Err_0@ == forbidden_text(
            request.account_id@,
            principal.account_id@,
        ),
        principal.account_id@ == request.account_id@ ==> r is Ok && r->Ok_0.account_id@ == request.account_id@
            && r->Ok_0.query_state@ == "1"@ && !r->Ok_0.can_calculate_changes && r->Ok_0.ids@.len() == 0
            && r->Ok_0.position == match request.position {
            Some(p) => p,
            None => 0,
        } && r->Ok_0.limit == Some(
            match request.limit {
                Some(l) => l,
                None => 100u64,
            },
        ) && r->Ok_0.total == (if request.calculate_total == Some(true) {
            Some(0u64)
        } else {
            None
        }),
{
    if let Err(e) = ensure_account_ownership(request.account_id.as_str(), principal) {
        return Err(forbidden_message(&e));
    }
    let position: i64 = match request.position {
        Some(p) => p,
        None => 0,
    };
    let limit: u64 = match request.limit {
        Some(l) => l,
        None => 100,
    };
    let calc = match request.calculate_total {
        Some(b) => b,
        None => false,
    };
    Ok(
        EmailSubmissionQueryResponse {
            account_id: request.account_id,
            query_state: string_from("1"),
            can_calculate_changes: false,
            position,
            ids: Vec::new(),
            total: if calc {
                Some(0)
            } else {
                None
            },
            limit: Some(limit),
        },
    )
}

/// `EmailSubmission/changes`: no change is recorded; the new state is the
/// old one (0 when it is not a number) plus one.
pub fn email_submission_changes(request: EmailSubmissionChangesRequest, principal: &Principal) -> (r: Result<EmailSubmissionChangesResponse, String>)
    requires
        crate::methods::mailbox::since_number(request.since_state@) < u64::MAX,
    ensures
        principal.account_id@ != request.account_id@ ==> r is Err && r->Err_0@ == forbidden_text(
            request.account_id@,
            principal.account_id@,
        ),
        principal.account_id@ == request.account_id@ ==> r is Ok && r->Ok_0.account_id@ == request.account_id@
            && r->Ok_0.old_state@ == request.since_state@ && r->Ok_0.new_state@ == decimal(
            (crate::methods::mailbox::since_number(request.since_state@) + 1) as nat,
        ) && !r->Ok_0.has_more_changes && r->Ok_0.created@.len() == 0 && r->Ok_0.updated@.len() == 0
            && r->Ok_0.destroyed@.len() == 0,
{
    if let Err(e) = ensure_account_ownership(request.account_id.as_str(), principal) {
        return Err(forbidden_message(&e));
    }
    let since: u64 = match parse_u64(request.since_state.as_str()) {
        Some(n) => n,
        None => 0,
    };
    Ok(
        EmailSubmissionChangesResponse {
            account_id: request.account_id,
            old_state: request.since_state,
            new_state: u64_to_decimal(since + 1),
            has_more_changes: false,
            created: Vec::new(),
            updated: Vec::new(),
            destroyed: Vec::new(),
        },
    )
}


// ── Laws ────────────────────────────────────────────────────────────────────

/// A final submission is never forgotten.
pub proof fn law_final_submission_stays(a: SubmissionStateContent, id: Seq<char>)
    requires
        vget(a.submissions, id) matches Some(s) && s.submission.undo_status == UndoStatus::Final,
    ensures
        destroy_result(a, id) is Err,
{
}

/// An update succeeds only by cancelling a pending submission inside its
/// undo window, and then the submission reads as cancelled.
pub proof fn law_update_only_cancels(a: SubmissionStateContent, id: Seq<char>, patch: JModel, now: i64)
    requires
        update_result(a, id, patch, now) is Ok,
    ensures
        vget(a.submissions, id) is Some,
        in_undo_window(vget(a.submissions, id)->0, UNDO_WINDOW_SECS, now),
        update_result(a, id, patch, now)->Ok_0.submission.undo_status == UndoStatus::Canceled,
        update_result(a, id, patch, now)->Ok_0.submission.id == vget(a.submissions, id)->0.submission.id,
{
}

/// The send actions for the submission `id`, in order.
pub open spec fn sends_for(s: Seq<SendContent>, id: Seq<char>) -> Seq<SendContent>
    decreases s.len(),
{
    if s.len() == 0 {
        s
    } else if s.last().submission_id == id {
        sends_for(s.drop_last(), id).push(s.last())
    } else {
        sends_for(s.drop_last(), id)
    }
}

proof fn lemma_submission_creates_untouched(
    p: SubmissionSetProgress,
    account_id: Seq<char>,
    identities: AccountView,
    creates: Seq<(Seq<char>, SubmissionObjectContent)>,
    lookups: Seq<LookupContent>,
    ids: Seq<Seq<char>>,
    now: i64,
    c: Seq<char>,
    id: Seq<char>,
)
    requires
        forall|j: int| 0 <= j < creates.len() ==> (#[trigger] creates[j]).0 != c && ids[j] != id,
    ensures
        ({
            let q = submission_creates_fold(p, account_id, identities, creates, lookups, ids, now);
            &&& vget(q.created, c) == vget(p.created, c)
            &&& vget(q.not_created, c) == vget(p.not_created, c)
            &&& sends_for(q.sends, id) == sends_for(p.sends, id)
        }),
    decreases creates.len(),
{
    if creates.len() > 0 {
        let n = creates.len() - 1;
        let d = creates.drop_last();
        assert forall|j: int| 0 <= j < d.len() implies (#[trigger] d[j]).0 != c && ids[j] != id by {
            assert(d[j] == creates[j]);
        }
        lemma_submission_creates_untouched(p, account_id, identities, d, lookups, ids, now, c, id);
        let q = submission_creates_fold(p, account_id, identities, d, lookups, ids, now);
        assert(creates[n].0 != c && ids[n] != id);
        let (cid, obj) = creates[n];
        match create_result(account_id, obj, identities, lookups[n].fetched, lookups[n].thread_id, ids[n], now) {
            Err(e) => lemma_vput(q.not_created, cid, e, c),
            Ok((stored, env)) => {
                lemma_vput(q.created, cid, stored.submission, c);
                let sc = SendContent { submission_id: ids[n], email_id: obj.email_id, envelope: env, send_at: obj.send_at };
                assert(q.sends.push(sc).drop_last() =~= q.sends);
            },
        }
    }
}

/// In `EmailSubmission/set`, a create that succeeds is reported created as
/// a pending submission, is stored under its id, and gives exactly one
/// send action, with its envelope and its `sendAt` (send now when absent,
/// else at that time); a create that fails is reported not created, with
/// its error, and gives no send action. Creation ids are distinct, as the
/// keys of the request's `create` map are, and so are the ids given to the
/// creates.
pub proof fn law_one_send_per_created_submission(
    p: SubmissionSetProgress,
    account_id: Seq<char>,
    identities: AccountView,
    creates: Seq<(Seq<char>, SubmissionObjectContent)>,
    lookups: Seq<LookupContent>,
    ids: Seq<Seq<char>>,
    now: i64,
    k: int,
)
    requires
        crate::maps::keys_distinct(creates),
        ids.len() >= creates.len(),
        lookups.len() >= creates.len(),
        forall|i: int, j: int| 0 <= i < j < creates.len() ==> #[trigger] ids[i] != #[trigger] ids[j],
        0 <= k < creates.len(),
        vget(p.created, creates[k].0) is None,
        vget(p.not_created, creates[k].0) is None,
        sends_for(p.sends, ids[k]) == Seq::<SendContent>::empty(),
    ensures
        ({
            let q = submission_creates_fold(p, account_id, identities, creates, lookups, ids, now);
            let (cid, obj) = creates[k];
            match create_result(account_id, obj, identities, lookups[k].fetched, lookups[k].thread_id, ids[k], now) {
                Ok((stored, env)) => {
                    &&& vget(q.created, cid) == Some(stored.submission) && vget(q.not_created, cid) is None
                    &&& stored.submission.undo_status == UndoStatus::Pending && stored.submission.id == ids[k]
                    &&& vget(q.state.submissions, ids[k]) == Some(stored)
                    &&& sends_for(q.sends, ids[k]) == seq![
                        SendContent { submission_id: ids[k], email_id: obj.email_id, envelope: env, send_at: obj.send_at },
                    ]
                },
                Err(e) => {
                    &&& vget(q.not_created, cid) == Some(e) && vget(q.created, cid) is None
                    &&& sends_for(q.sends, ids[k]) == Seq::<SendContent>::empty()
                },
            }
        }),
    decreases creates.len(),
{
    let n = creates.len() - 1;
    let d = creates.drop_last();
    let q1 = submission_creates_fold(p, account_id, identities, d, lookups, ids, now);
    let (cn, on) = creates[n];
    let rn = create_result(account_id, on, identities, lookups[n].fetched, lookups[n].thread_id, ids[n], now);
    if k == n {
        assert forall|j: int| 0 <= j < d.len() implies (#[trigger] d[j]).0 != cn && ids[j] != ids[n] by {
            assert(d[j] == creates[j]);
        }
        lemma_submission_creates_untouched(p, account_id, identities, d, lookups, ids, now, cn, ids[n]);
        match rn {
            Err(e) => lemma_vput(q1.not_created, cn, e, cn),
            Ok((stored, env)) => {
                lemma_vput(q1.created, cn, stored.submission, cn);
                lemma_vput(q1.state.submissions, ids[n], stored, ids[n]);
                let sc = SendContent { submission_id: ids[n], email_id: on.email_id, envelope: env, send_at: on.send_at };
                assert(q1.sends.push(sc).drop_last() =~= q1.sends);
                assert(sends_for(q1.sends, ids[n]).push(sc) =~= seq![sc]);
            },
        }
    } else {
        assert(crate::maps::keys_distinct(d)) by {
            assert forall|i: int, j: int| 0 <= i < j < d.len() implies #[trigger] d[i].0 != #[trigger] d[j].0 by {
                assert(d[i] == creates[i] && d[j] == creates[j]);
            }
        }
        assert forall|i: int, j: int| 0 <= i < j < d.len() implies #[trigger] ids[i] != #[trigger] ids[j] by {
            assert(j < creates.len());
        }
        assert(d[k] == creates[k]);
        law_one_send_per_created_submission(p, account_id, identities, d, lookups, ids, now, k);
        assert(creates[k].0 != cn);
        assert(ids[k] != ids[n]);
        let ck = creates[k].0;
        match rn {
            Err(e) => lemma_vput(q1.not_created, cn, e, ck),
            Ok((stored, env)) => {
                lemma_vput(q1.created, cn, stored.submission, ck);
                lemma_vput(q1.state.submissions, ids[n], stored, ids[k]);
                let sc = SendContent { submission_id: ids[n], email_id: on.email_id, envelope: env, send_at: on.send_at };
                assert(q1.sends.push(sc).drop_last() =~= q1.sends);
            },
        }
    }
}

} // verus!
