//! Creating a submission: the sending identity and the message are looked
//! up, the SMTP envelope is built, and the submission is kept as pending.
use vstd::prelude::*;

use crate::maps::vget;
use crate::methods::identity::{AccountView, IdentityAccountState};
use crate::methods::submission::store::{put_outcome, StoredContent, StoredSubmission, SubmissionAccountState, SubmissionStateContent};
use crate::methods::submission::types::{
    address_contents, clone_opt, opt_envelope, opt_seq, AddressContent, EmailSubmission, EmailSubmissionObject,
    EnvelopeContent, SubmissionContent, UndoStatus,
};
use crate::outside::{is_uuid, lowercase, parse_uuid, parsed_uuid, to_lowercase, uuid_parses};
use crate::text::{
    chars_of, chars_range, concat, contains_char, find_char, has_char, index_of, last_index_of,
    rfind_char, split_on, split_on_exec, str_eq, string_from, string_of, strings_view, trim_chars, trim_ws,
};
use crate::types::{JmapSetError, SetErrorView};

verus! {

/// The SMTP envelope a message is sent with.
#[derive(Debug)]
pub struct SmtpEnvelope {
    pub mail_from: String,
    pub rcpt_to: Vec<String>,
}

/// The content of an SMTP envelope.
pub struct SmtpContent {
    pub mail_from: Seq<char>,
    pub rcpt_to: Seq<Seq<char>>,
}

impl View for SmtpEnvelope {
    type V = SmtpContent;

    open spec fn view(&self) -> SmtpContent {
        SmtpContent { mail_from: self.mail_from@, rcpt_to: strings_view(self.rcpt_to@) }
    }
}

/// The headers of a stored message: each name with its values.
#[derive(Debug)]
pub struct FetchedMessage {
    pub headers: Vec<(String, Vec<String>)>,
}

/// The content of a message's headers.
pub open spec fn headers_view(h: Seq<(String, Vec<String>)>) -> Seq<(Seq<char>, Seq<Seq<char>>)> {
    h.map_values(|p: (String, Vec<String>)| (p.0@, strings_view(p.1@)))
}

// ── Recipient addresses ─────────────────────────────────────────────────────

/// The address in one trimmed comma-separated token: the non-empty text
/// between the first `<` and the last `>`, else the token itself when it
/// holds an `@`.
pub open spec fn token_address(t: Seq<char>) -> Option<Seq<char>> {
    let angle: Option<Seq<char>> = match (index_of(t, '<'), last_index_of(t, '>')) {
        (Some(o), Some(c)) => if o < c && trim_ws(t.subrange(o + 1, c)).len() > 0 {
            Some(trim_ws(t.subrange(o + 1, c)))
        } else {
            None
        },
        _ => None,
    };
    match angle {
        Some(a) => Some(a),
        None => if has_char(t, '@') {
            Some(t)
        } else {
            None
        },
    }
}

/// The addresses of a list of tokens, in order.
pub open spec fn tokens_addresses(tokens: Seq<Seq<char>>) -> Seq<Seq<char>>
    decreases tokens.len(),
{
    if tokens.len() == 0 {
        seq![]
    } else {
        match token_address(trim_ws(tokens.last())) {
            Some(a) => tokens_addresses(tokens.drop_last()).push(a),
            None => tokens_addresses(tokens.drop_last()),
        }
    }
}

/// The addresses of one header value: its comma-separated tokens, trimmed.
pub open spec fn header_addresses(value: Seq<char>) -> Seq<Seq<char>> {
    tokens_addresses(split_on(value, ','))
}

fn address_in_token(t: &Vec<char>) -> (r: Option<String>)
    ensures
        match r {
            Some(a) => token_address(t@) == Some(a@),
            None => token_address(t@) is None,
        },
{
    match (find_char(t, '<'), rfind_char(t, '>')) {
        (Some(o), Some(c)) => {
            if o < c {
                let inner = chars_range(t, o + 1, c);
                let addr = trim_chars(&inner);
                if addr.len() > 0 {
                    return Some(string_of(addr.as_slice()));
                }
            }
        },
        _ => {},
    }
    if contains_char(t, '@') {
        Some(string_of(t.as_slice()))
    } else {
        None
    }
}

/// Appends the addresses of a `To`/`Cc`/`Bcc` header value: each
/// comma-separated token, trimmed, gives the text between `<` and `>` or,
/// failing that, itself when it holds an `@`.
pub fn extract_addresses_from_header(header_value: &str, out: &mut Vec<String>)
    ensures
        strings_view(final(out)@) == strings_view(old(out)@) + header_addresses(header_value@),
{
    let c = chars_of(header_value);
    let tokens = split_on_exec(&c, ',');
    let ghost tv = split_on(header_value@, ',');
    let ghost start = strings_view(out@);
    let mut i: usize = 0;
    proof {
        assert(tv.take(0) =~= Seq::<Seq<char>>::empty());
        assert(start + tokens_addresses(tv.take(0)) =~= start);
    }
    while i < tokens.len()
        invariant
            i <= tokens@.len(),
            tokens@.len() == tv.len(),
            tv == split_on(header_value@, ','),
            forall|j: int| 0 <= j < tokens@.len() ==> #[trigger] tokens@[j]@ == tv[j],
            strings_view(out@) == start + tokens_addresses(tv.take(i as int)),
        decreases tokens.len() - i,
    {
        proof {
            assert(tv.take(i + 1).drop_last() =~= tv.take(i as int));
            assert(tv.take(i + 1).last() == tv[i as int]);
        }
        let token = trim_chars(&tokens[i]);
        match address_in_token(&token) {
            Some(a) => {
                let ghost before = out@;
                let ghost av = a@;
                out.push(a);
                proof {
                    assert(strings_view(out@) =~= strings_view(before).push(av));
                    assert(start + tokens_addresses(tv.take(i + 1)) =~= (start + tokens_addresses(tv.take(i as int))).push(av));
                }
            },
            None => {},
        }
        i = i + 1;
    }
    proof {
        assert(tv.take(tokens@.len() as int) =~= tv);
    }
}

/// The addresses of a list of header values, in order.
pub open spec fn values_addresses(values: Seq<Seq<char>>) -> Seq<Seq<char>>
    decreases values.len(),
{
    if values.len() == 0 {
        seq![]
    } else {
        values_addresses(values.drop_last()) + header_addresses(values.last())
    }
}

/// Whether a lower-cased header name is `to`, `cc` or `bcc`.
pub open spec fn is_recipient_header(lower: Seq<char>) -> bool {
    lower == "to"@ || lower == "cc"@ || lower == "bcc"@
}

/// The recipient addresses of a message: those of its `To`, `Cc` and `Bcc`
/// headers (names compared without regard to case), in header order.
pub open spec fn recipients_of(headers: Seq<(Seq<char>, Seq<Seq<char>>)>) -> Seq<Seq<char>>
    decreases headers.len(),
{
    if headers.len() == 0 {
        seq![]
    } else if is_recipient_header(lowercase(headers.last().0)) {
        recipients_of(headers.drop_last()) + values_addresses(headers.last().1)
    } else {
        recipients_of(headers.drop_last())
    }
}

/// The recipient addresses of a message.
pub fn derive_recipients(headers: &Vec<(String, Vec<String>)>) -> (r: Vec<String>)
    ensures
        strings_view(r@) == recipients_of(headers_view(headers@)),
{
    let ghost hv = headers_view(headers@);
    let mut out: Vec<String> = Vec::new();
    let mut i: usize = 0;
    proof {
        assert(hv.take(0) =~= Seq::<(Seq<char>, Seq<Seq<char>>)>::empty());
        assert(strings_view(out@) =~= Seq::<Seq<char>>::empty());
    }
    while i < headers.len()
        invariant
            i <= headers@.len(),
            hv == headers_view(headers@),
            strings_view(out@) == recipients_of(hv.take(i as int)),
        decreases headers.len() - i,
    {
        proof {
            assert(hv.take(i + 1).drop_last() =~= hv.take(i as int));
            assert(hv.take(i + 1).last() == hv[i as int]);
        }
        let lc = to_lowercase(headers[i].0.as_str());
        if str_eq(lc.as_str(), "to") || str_eq(lc.as_str(), "cc") || str_eq(lc.as_str(), "bcc") {
            let values = &headers[i].1;
            let ghost vv = strings_view(values@);
            let ghost base = strings_view(out@);
            let mut k: usize = 0;
            proof {
                assert(vv.take(0) =~= Seq::<Seq<char>>::empty());
                assert(base + values_addresses(vv.take(0)) =~= base);
            }
            while k < values.len()
                invariant
                    k <= values@.len(),
                    vv == strings_view(values@),
                    strings_view(out@) == base + values_addresses(vv.take(k as int)),
                decreases values.len() - k,
            {
                proof {
                    assert(vv.take(k + 1).drop_last() =~= vv.take(k as int));
                    assert(vv.take(k + 1).last() == values@[k as int]@);
                }
                extract_addresses_from_header(values[k].as_str(), &mut out);
                proof {
                    assert(base + values_addresses(vv.take(k + 1)) =~= base + values_addresses(vv.take(k as int)) + header_addresses(values@[k as int]@));
                }
                k = k + 1;
            }
            proof {
                assert(vv.take(values@.len() as int) =~= vv);
            }
        }
        i = i + 1;
    }
    proof {
        assert(hv.take(headers@.len() as int) =~= hv);
    }
    out
}

// ── Envelope ────────────────────────────────────────────────────────────────

/// A `/set` error with a description.
pub open spec fn err_of(t: Seq<char>, d: Seq<char>) -> SetErrorView {
    SetErrorView { error_type: t, description: Some(d) }
}

/// The envelope of a submission: the one given (which must name a
/// recipient), else the identity's address and the message's recipients.
pub open spec fn envelope_for(given: Option<EnvelopeContent>, identity_email: Seq<char>, headers: Seq<(Seq<char>, Seq<Seq<char>>)>) -> Result<SmtpContent, SetErrorView> {
    match given {
        Some(env) => if env.rcpt_to.len() == 0 {
            Err(err_of("invalidProperties"@, "envelope.rcptTo must contain at least one address"@))
        } else {
            Ok(SmtpContent { mail_from: env.mail_from.email, rcpt_to: env.rcpt_to.map_values(|a: AddressContent| a.email) })
        },
        None => {
            let r = recipients_of(headers);
            if r.len() == 0 {
                Err(err_of("invalidProperties"@, "No envelope provided and no To/Cc/Bcc headers found in message"@))
            } else {
                Ok(SmtpContent { mail_from: identity_email, rcpt_to: r })
            }
        },
    }
}

/// The view of an envelope result.
pub open spec fn smtp_result_view(r: Result<SmtpEnvelope, JmapSetError>) -> Result<SmtpContent, SetErrorView> {
    match r {
        Ok(e) => Ok(e@),
        Err(e) => Err(e@),
    }
}

/// Builds the SMTP envelope of a submission.
pub fn build_envelope(obj: &EmailSubmissionObject, identity_email: &str, headers: &Vec<(String, Vec<String>)>) -> (r: Result<SmtpEnvelope, JmapSetError>)
    ensures
        smtp_result_view(r) == envelope_for(opt_envelope(obj.envelope), identity_email@, headers_view(headers@)),
{
    if let Some(env) = &obj.envelope {
        if env.rcpt_to.len() == 0 {
            return Err(JmapSetError::new("invalidProperties", "envelope.rcptTo must contain at least one address"));
        }
        let mut rcpt: Vec<String> = Vec::new();
        let mut i: usize = 0;
        while i < env.rcpt_to.len()
            invariant
                i <= env.rcpt_to@.len(),
                strings_view(rcpt@) == address_contents(env.rcpt_to@).map_values(|a: AddressContent| a.email).take(i as int),
            decreases env.rcpt_to.len() - i,
        {
            let ghost before = rcpt@;
            rcpt.push(env.rcpt_to[i].email.clone());
            proof {
                assert(strings_view(rcpt@) =~= strings_view(before).push(env.rcpt_to@[i as int].email@));
                assert(address_contents(env.rcpt_to@).map_values(|a: AddressContent| a.email).take(i + 1) =~= address_contents(env.rcpt_to@).map_values(|a: AddressContent| a.email).take(i as int).push(env.rcpt_to@[i as int].email@));
            }
            i = i + 1;
        }
        proof {
            assert(address_contents(env.rcpt_to@).map_values(|a: AddressContent| a.email).take(env.rcpt_to@.len() as int) =~= address_contents(env.rcpt_to@).map_values(|a: AddressContent| a.email));
        }
        return Ok(SmtpEnvelope { mail_from: env.mail_from.email.clone(), rcpt_to: rcpt });
    }
    let rcpt_to = derive_recipients(headers);
    if rcpt_to.len() == 0 {
        return Err(JmapSetError::new("invalidProperties", "No envelope provided and no To/Cc/Bcc headers found in message"));
    }
    Ok(SmtpEnvelope { mail_from: string_from(identity_email), rcpt_to })
}

// ── Create ──────────────────────────────────────────────────────────────────

/// The content of a submission to be created.
pub struct SubmissionObjectContent {
    pub identity_id: Seq<char>,
    pub email_id: Seq<char>,
    pub envelope: Option<EnvelopeContent>,
    pub send_at: Option<i64>,
}

impl View for EmailSubmissionObject {
    type V = SubmissionObjectContent;

    open spec fn view(&self) -> SubmissionObjectContent {
        SubmissionObjectContent {
            identity_id: self.identity_id@,
            email_id: self.email_id@,
            envelope: opt_envelope(self.envelope),
            send_at: self.send_at,
        }
    }
}

/// What looking up the message gave: an error text, nothing, or its
/// headers.
pub open spec fn fetched_view(f: Result<Option<FetchedMessage>, String>) -> Result<Option<Seq<(Seq<char>, Seq<Seq<char>>)>>, Seq<char>> {
    match f {
        Err(e) => Err(e@),
        Ok(None) => Ok(None),
        Ok(Some(m)) => Ok(Some(headers_view(m.headers@))),
    }
}

/// The submission a create keeps: pending, with no delivery reports.
pub open spec fn new_submission(obj: SubmissionObjectContent, id: Seq<char>, thread_id: Option<Seq<char>>, now: i64) -> StoredContent {
    StoredContent {
        submission: SubmissionContent {
            id,
            identity_id: obj.identity_id,
            email_id: obj.email_id,
            thread_id,
            envelope: obj.envelope,
            send_at: obj.send_at,
            undo_status: UndoStatus::Pending,
            delivery_status: None,
            dsn_blob_ids: None,
            mdn_blob_ids: None,
        },
        created_at: now,
    }
}

/// What a create gives: the kept submission and the envelope to send it
/// with, or an error. The identity must exist, the email id must be a UUID
/// naming a stored message, and the envelope must name a recipient.
pub open spec fn create_result(
    account_id: Seq<char>,
    obj: SubmissionObjectContent,
    identities: AccountView,
    fetched: Result<Option<Seq<(Seq<char>, Seq<Seq<char>>)>>, Seq<char>>,
    thread_id: Option<Seq<char>>,
    id: Seq<char>,
    now: i64,
) -> Result<(StoredContent, SmtpContent), SetErrorView> {
    match vget(identities.identities, obj.identity_id) {
        None => Err(err_of("notFound"@, "Identity '"@ + obj.identity_id + "' not found for account '"@ + account_id + "'"@)),
        Some(identity) => if !uuid_parses(obj.email_id) {
            Err(err_of("invalidProperties"@, "'"@ + obj.email_id + "' is not a valid message ID (expected UUID)"@))
        } else {
            match fetched {
                Err(e) => Err(err_of("serverFail"@, "message lookup error: "@ + e)),
                Ok(None) => Err(err_of("notFound"@, "Email '"@ + obj.email_id + "' not found for account '"@ + account_id + "'"@)),
                Ok(Some(headers)) => match envelope_for(obj.envelope, identity.email, headers) {
                    Err(e) => Err(e),
                    Ok(env) => Ok((new_submission(obj, id, thread_id, now), env)),
                },
            }
        },
    }
}

/// The view of a create result.
pub open spec fn create_result_view(r: Result<(EmailSubmission, SmtpEnvelope), JmapSetError>) -> Result<(SubmissionContent, SmtpContent), SetErrorView> {
    match r {
        Ok((s, e)) => Ok((s@, e@)),
        Err(e) => Err(e@),
    }
}

/// The message a text names: the 16 bytes of the UUID it spells, or an
/// `invalidProperties` error.
pub fn parse_message_id(id: &str) -> (r: Result<Vec<u8>, JmapSetError>)
    ensures
        match parsed_uuid(id@) {
            Some(b) => r is Ok && r->Ok_0@ == b,
            None => r is Err && r->Err_0@ == err_of(
                "invalidProperties"@,
                "'"@ + id@ + "' is not a valid message ID (expected UUID)"@,
            ),
        },
{
    match parse_uuid(id) {
        Some(b) => Ok(b),
        None => {
            let d = join3("'", id, "' is not a valid message ID (expected UUID)");
            Err(JmapSetError { error_type: string_from("invalidProperties"), description: Some(d) })
        },
    }
}

fn join3(a: &str, b: &str, c: &str) -> (r: String)
    ensures
        r@ == a@ + b@ + c@,
{
    let x = concat(a, b);
    concat(x.as_str(), c)
}

/// Creates one submission from the looked-up message (`fetched`), its
/// thread, a fresh id and the current time: on success it is kept as
/// pending in `submissions`, and the envelope to send it with is returned.
pub fn handle_submission_create(
    account_id: &str,
    obj: &EmailSubmissionObject,
    identities: &IdentityAccountState,
    fetched: Result<Option<FetchedMessage>, String>,
    thread_id: Option<String>,
    submission_id: String,
    now: i64,
    submissions: &mut SubmissionAccountState,
) -> (r: Result<(EmailSubmission, SmtpEnvelope), JmapSetError>)
    requires
        old(submissions).state_version < u64::MAX,
    ensures
        match create_result(account_id@, obj@, identities@, fetched_view(fetched), opt_seq(thread_id), submission_id@, now) {
            Ok((stored, env)) => final(submissions)@ == put_outcome(old(submissions)@, stored)
                && create_result_view(r) == Ok::<(SubmissionContent, SmtpContent), SetErrorView>((stored.submission, env)),
            Err(e) => final(submissions)@ == old(submissions)@ && create_result_view(r) == Err::<(SubmissionContent, SmtpContent), SetErrorView>(e),
        },
{
    let ghost fv = fetched_view(fetched);
    let identity = match identities.get_identity(obj.identity_id.as_str()) {
        Some(i) => i,
        None => {
            let a = join3("Identity '", obj.identity_id.as_str(), "' not found for account '");
            let d = concat(a.as_str(), account_id);
            let d2 = concat(d.as_str(), "'");
            return Err(JmapSetError { error_type: string_from("notFound"), description: Some(d2) });
        },
    };
    if !is_uuid(obj.email_id.as_str()) {
        let d = join3("'", obj.email_id.as_str(), "' is not a valid message ID (expected UUID)");
        return Err(JmapSetError { error_type: string_from("invalidProperties"), description: Some(d) });
    }
    let message = match fetched {
        Err(e) => {
            let d = concat("message lookup error: ", e.as_str());
            return Err(JmapSetError { error_type: string_from("serverFail"), description: Some(d) });
        },
        Ok(None) => {
            let a = join3("Email '", obj.email_id.as_str(), "' not found for account '");
            let d = concat(a.as_str(), account_id);
            let d2 = concat(d.as_str(), "'");
            return Err(JmapSetError { error_type: string_from("notFound"), description: Some(d2) });
        },
        Ok(Some(m)) => m,
    };
    let envelope = match build_envelope(obj, identity.email.as_str(), &message.headers) {
        Err(e) => {
            return Err(e);
        },
        Ok(env) => env,
    };
    let submission = EmailSubmission {
        id: submission_id,
        identity_id: obj.identity_id.clone(),
        email_id: obj.email_id.clone(),
        thread_id,
        envelope: match &obj.envelope {
            Some(e) => Some(e.duplicate()),
            None => None,
        },
        send_at: obj.send_at,
        undo_status: UndoStatus::Pending,
        delivery_status: None,
        dsn_blob_ids: None,
        mdn_blob_ids: None,
    };
    let stored = StoredSubmission { submission: submission.duplicate(), created_at: now };
    submissions.put_submission(stored);
    Ok((submission, envelope))
}

} // verus!
