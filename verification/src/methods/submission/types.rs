//! Email submission objects and the arguments and results of the
//! submission methods.
use vstd::prelude::*;

use crate::json::JsonValue;
use crate::maps::pairs_view;
use crate::text::strings_view;
use crate::types::JmapSetError;

verus! {

/// The content of an optional string.
pub open spec fn opt_seq(o: Option<String>) -> Option<Seq<char>> {
    match o {
        Some(s) => Some(s@),
        None => None,
    }
}

/// A copy of an optional string.
pub fn clone_opt(o: &Option<String>) -> (r: Option<String>)
    ensures
        opt_seq(r) == opt_seq(*o),
{
    match o {
        Some(s) => Some(s.clone()),
        None => None,
    }
}

/// An envelope address with optional SMTP parameters.
#[derive(Debug)]
pub struct Address {
    pub email: String,
    pub parameters: Option<Vec<(String, Option<String>)>>,
}

/// The content of an envelope address.
pub struct AddressContent {
    pub email: Seq<char>,
    pub parameters: Option<Seq<(Seq<char>, Option<Seq<char>>)>>,
}

/// The content of SMTP parameters.
pub open spec fn params_view(s: Seq<(String, Option<String>)>) -> Seq<(Seq<char>, Option<Seq<char>>)> {
    s.map_values(|p: (String, Option<String>)| (p.0@, opt_seq(p.1)))
}

impl View for Address {
    type V = AddressContent;

    open spec fn view(&self) -> AddressContent {
        AddressContent {
            email: self.email@,
            parameters: match self.parameters {
                Some(p) => Some(params_view(p@)),
                None => None,
            },
        }
    }
}

impl Address {
    /// A copy of the address.
    pub fn duplicate(&self) -> (r: Address)
        ensures
            r@ == self@,
    {
        let parameters = match &self.parameters {
            None => None,
            Some(p) => {
                let mut out: Vec<(String, Option<String>)> = Vec::new();
                let mut i: usize = 0;
                while i < p.len()
                    invariant
                        i <= p@.len(),
                        params_view(out@) == params_view(p@).take(i as int),
                    decreases p.len() - i,
                {
                    let ghost before = out@;
                    out.push((p[i].0.clone(), clone_opt(&p[i].1)));
                    proof {
                        assert(params_view(out@) =~= params_view(before).push((p@[i as int].0@, opt_seq(p@[i as int].1))));
                        assert(params_view(p@).take(i + 1) =~= params_view(p@).take(i as int).push((p@[i as int].0@, opt_seq(p@[i as int].1))));
                    }
                    i = i + 1;
                }
                proof {
                    assert(params_view(p@).take(p@.len() as int) =~= params_view(p@));
                }
                Some(out)
            },
        };
        Address { email: self.email.clone(), parameters }
    }
}

/// The content of a list of addresses.
pub open spec fn address_contents(s: Seq<Address>) -> Seq<AddressContent> {
    s.map_values(|a: Address| a@)
}

/// An SMTP envelope.
#[derive(Debug)]
pub struct Envelope {
    pub mail_from: Address,
    pub rcpt_to: Vec<Address>,
}

/// The content of an envelope.
pub struct EnvelopeContent {
    pub mail_from: AddressContent,
    pub rcpt_to: Seq<AddressContent>,
}

impl View for Envelope {
    type V = EnvelopeContent;

    open spec fn view(&self) -> EnvelopeContent {
        EnvelopeContent { mail_from: self.mail_from@, rcpt_to: address_contents(self.rcpt_to@) }
    }
}

impl Envelope {
    /// A copy of the envelope.
    pub fn duplicate(&self) -> (r: Envelope)
        ensures
            r@ == self@,
    {
        let mut rcpt: Vec<Address> = Vec::new();
        let mut i: usize = 0;
        while i < self.rcpt_to.len()
            invariant
                i <= self.rcpt_to@.len(),
                address_contents(rcpt@) == address_contents(self.rcpt_to@).take(i as int),
            decreases self.rcpt_to.len() - i,
        {
            let ghost before = rcpt@;
            rcpt.push(self.rcpt_to[i].duplicate());
            proof {
                assert(address_contents(rcpt@) =~= address_contents(before).push(self.rcpt_to@[i as int]@));
                assert(address_contents(self.rcpt_to@).take(i + 1) =~= address_contents(self.rcpt_to@).take(i as int).push(self.rcpt_to@[i as int]@));
            }
            i = i + 1;
        }
        proof {
            assert(address_contents(self.rcpt_to@).take(self.rcpt_to@.len() as int) =~= address_contents(self.rcpt_to@));
        }
        Envelope { mail_from: self.mail_from.duplicate(), rcpt_to: rcpt }
    }
}

/// The content of an optional envelope.
pub open spec fn opt_envelope(o: Option<Envelope>) -> Option<EnvelopeContent> {
    match o {
        Some(e) => Some(e@),
        None => None,
    }
}

/// Whether a submission can still be undone.
#[derive(Debug, Clone, Copy, PartialEq, Eq, Structural)]
pub enum UndoStatus {
    Pending,
    Final,
    Canceled,
}

/// Whether a message reached a recipient.
#[derive(Debug, Clone, Copy, PartialEq, Eq, Structural)]
pub enum DeliveryState {
    Queued,
    Yes,
    No,
    Unknown,
}

/// Whether a recipient displayed a message.
#[derive(Debug, Clone, Copy, PartialEq, Eq, Structural)]
pub enum DisplayedState {
    Unknown,
    Yes,
    No,
}

/// Delivery status for one recipient.
#[derive(Debug)]
pub struct DeliveryStatus {
    pub smtp_reply: String,
    pub delivered: DeliveryState,
    pub displayed: DisplayedState,
}

/// The content of a delivery status.
pub struct DeliveryContent {
    pub smtp_reply: Seq<char>,
    pub delivered: DeliveryState,
    pub displayed: DisplayedState,
}

impl View for DeliveryStatus {
    type V = DeliveryContent;

    open spec fn view(&self) -> DeliveryContent {
        DeliveryContent { smtp_reply: self.smtp_reply@, delivered: self.delivered, displayed: self.displayed }
    }
}

impl DeliveryStatus {
    /// A copy of the status.
    pub fn duplicate(&self) -> (r: DeliveryStatus)
        ensures
            r@ == self@,
    {
        DeliveryStatus { smtp_reply: self.smtp_reply.clone(), delivered: self.delivered, displayed: self.displayed }
    }
}

/// The content of an optional map of delivery statuses.
pub open spec fn opt_delivery(o: Option<Vec<(String, DeliveryStatus)>>) -> Option<Seq<(Seq<char>, DeliveryContent)>> {
    match o {
        Some(v) => Some(pairs_view(v@)),
        None => None,
    }
}

/// The content of an optional list of strings.
pub open spec fn opt_strings(o: Option<Vec<String>>) -> Option<Seq<Seq<char>>> {
    match o {
        Some(v) => Some(strings_view(v@)),
        None => None,
    }
}

fn clone_delivery(o: &Option<Vec<(String, DeliveryStatus)>>) -> (r: Option<Vec<(String, DeliveryStatus)>>)
    ensures
        opt_delivery(r) == opt_delivery(*o),
{
    match o {
        None => None,
        Some(v) => {
            proof {
                crate::maps::lemma_pairs_view_len(v@);
            }
            let mut out: Vec<(String, DeliveryStatus)> = Vec::new();
            let mut i: usize = 0;
            while i < v.len()
                invariant
                    i <= v@.len(),
                    pairs_view(v@).len() == v@.len(),
                    forall|j: int| 0 <= j < v@.len() ==> #[trigger] pairs_view(v@)[j] == (v@[j].0@, v@[j].1@),
                    pairs_view(out@) == pairs_view(v@).take(i as int),
                decreases v.len() - i,
            {
                let ghost before = out@;
                out.push((v[i].0.clone(), v[i].1.duplicate()));
                proof {
                    crate::maps::lemma_pairs_view_len(out@);
                    crate::maps::lemma_pairs_view_len(before);
                    assert(pairs_view(out@) =~= pairs_view(before).push(pairs_view(v@)[i as int]));
                    assert(pairs_view(v@).take(i + 1) =~= pairs_view(v@).take(i as int).push(pairs_view(v@)[i as int]));
                }
                i = i + 1;
            }
            proof {
                assert(pairs_view(v@).take(v@.len() as int) =~= pairs_view(v@));
            }
            Some(out)
        },
    }
}

fn clone_strings_opt(o: &Option<Vec<String>>) -> (r: Option<Vec<String>>)
    ensures
        opt_strings(r) == opt_strings(*o),
{
    match o {
        None => None,
        Some(v) => Some(crate::methods::mailbox::clone_strings(v)),
    }
}

/// A submission of a message for delivery. Times are milliseconds since
/// the Unix epoch.
#[derive(Debug)]
pub struct EmailSubmission {
    pub id: String,
    pub identity_id: String,
    pub email_id: String,
    pub thread_id: Option<String>,
    pub envelope: Option<Envelope>,
    pub send_at: Option<i64>,
    pub undo_status: UndoStatus,
    pub delivery_status: Option<Vec<(String, DeliveryStatus)>>,
    pub dsn_blob_ids: Option<Vec<String>>,
    pub mdn_blob_ids: Option<Vec<String>>,
}

/// The content of a submission.
pub struct SubmissionContent {
    pub id: Seq<char>,
    pub identity_id: Seq<char>,
    pub email_id: Seq<char>,
    pub thread_id: Option<Seq<char>>,
    pub envelope: Option<EnvelopeContent>,
    pub send_at: Option<i64>,
    pub undo_status: UndoStatus,
    pub delivery_status: Option<Seq<(Seq<char>, DeliveryContent)>>,
    pub dsn_blob_ids: Option<Seq<Seq<char>>>,
    pub mdn_blob_ids: Option<Seq<Seq<char>>>,
}

impl View for EmailSubmission {
    type V = SubmissionContent;

    open spec fn view(&self) -> SubmissionContent {
        SubmissionContent {
            id: self.id@,
            identity_id: self.identity_id@,
            email_id: self.email_id@,
            thread_id: opt_seq(self.thread_id),
            envelope: opt_envelope(self.envelope),
            send_at: self.send_at,
            undo_status: self.undo_status,
            delivery_status: opt_delivery(self.delivery_status),
            dsn_blob_ids: opt_strings(self.dsn_blob_ids),
            mdn_blob_ids: opt_strings(self.mdn_blob_ids),
        }
    }
}

impl EmailSubmission {
    /// A copy of the submission.
    pub fn duplicate(&self) -> (r: EmailSubmission)
        ensures
            r@ == self@,
    {
        EmailSubmission {
            id: self.id.clone(),
            identity_id: self.identity_id.clone(),
            email_id: self.email_id.clone(),
            thread_id: clone_opt(&self.thread_id),
            envelope: match &self.envelope {
                Some(e) => Some(e.duplicate()),
                None => None,
            },
            send_at: self.send_at,
            undo_status: self.undo_status,
            delivery_status: clone_delivery(&self.delivery_status),
            dsn_blob_ids: clone_strings_opt(&self.dsn_blob_ids),
            mdn_blob_ids: clone_strings_opt(&self.mdn_blob_ids),
        }
    }
}

/// `EmailSubmission/get` arguments.
#[derive(Debug)]
pub struct EmailSubmissionGetRequest {
    pub account_id: String,
    pub ids: Option<Vec<String>>,
    pub properties: Option<Vec<String>>,
}

/// `EmailSubmission/get` result.
#[derive(Debug)]
pub struct EmailSubmissionGetResponse {
    pub account_id: String,
    pub state: String,
    pub list: Vec<EmailSubmission>,
    pub not_found: Vec<String>,
}

/// A submission to be created.
#[derive(Debug)]
pub struct EmailSubmissionObject {
    pub identity_id: String,
    pub email_id: String,
    pub envelope: Option<Envelope>,
    pub send_at: Option<i64>,
}

/// `EmailSubmission/set` arguments; `create` and `update` are keyed by
/// creation id and submission id.
#[derive(Debug)]
pub struct EmailSubmissionSetRequest {
    pub account_id: String,
    pub if_in_state: Option<String>,
    pub create: Option<Vec<(String, EmailSubmissionObject)>>,
    pub update: Option<Vec<(String, JsonValue)>>,
    pub destroy: Option<Vec<String>>,
    pub on_success_update_email: Option<Vec<(String, JsonValue)>>,
    pub on_success_destroy_email: Option<Vec<String>>,
}

/// `EmailSubmission/set` result; every map is left out when it would be
/// empty.
#[derive(Debug)]
pub struct EmailSubmissionSetResponse {
    pub account_id: String,
    pub old_state: String,
    pub new_state: String,
    pub created: Option<Vec<(String, EmailSubmission)>>,
    pub updated: Option<Vec<(String, Option<EmailSubmission>)>>,
    pub destroyed: Option<Vec<String>>,
    pub not_created: Option<Vec<(String, JmapSetError)>>,
    pub not_updated: Option<Vec<(String, JmapSetError)>>,
    pub not_destroyed: Option<Vec<(String, JmapSetError)>>,
}

/// `EmailSubmission/query` filter.
#[derive(Debug)]
pub struct EmailSubmissionFilterCondition {
    pub identity_ids: Option<Vec<String>>,
    pub email_ids: Option<Vec<String>>,
    pub thread_ids: Option<Vec<String>>,
    pub undo_status: Option<UndoStatus>,
    pub before: Option<i64>,
    pub after: Option<i64>,
}

/// `EmailSubmission/query` sort comparator.
#[derive(Debug)]
pub struct EmailSubmissionSort {
    pub property: String,
    pub is_ascending: Option<bool>,
}

/// `EmailSubmission/query` arguments.
#[derive(Debug)]
pub struct EmailSubmissionQueryRequest {
    pub account_id: String,
    pub filter: Option<EmailSubmissionFilterCondition>,
    pub sort: Option<Vec<EmailSubmissionSort>>,
    pub position: Option<i64>,
    pub limit: Option<u64>,
    pub calculate_total: Option<bool>,
}

/// `EmailSubmission/query` result.
#[derive(Debug)]
pub struct EmailSubmissionQueryResponse {
    pub account_id: String,
    pub query_state: String,
    pub can_calculate_changes: bool,
    pub position: i64,
    pub ids: Vec<String>,
    pub total: Option<u64>,
    pub limit: Option<u64>,
}

/// `EmailSubmission/changes` arguments.
#[derive(Debug)]
pub struct EmailSubmissionChangesRequest {
    pub account_id: String,
    pub since_state: String,
    pub max_changes: Option<u64>,
}

/// `EmailSubmission/changes` result.
#[derive(Debug)]
pub struct EmailSubmissionChangesResponse {
    pub account_id: String,
    pub old_state: String,
    pub new_state: String,
    pub has_more_changes: bool,
    pub created: Vec<String>,
    pub updated: Vec<String>,
    pub destroyed: Vec<String>,
}

} // verus!
