//! Shared protocol types: the authenticated principal, errors, addresses.
use vstd::prelude::*;

use crate::text::{concat, replace_char, replace_char_exec, str_eq, string_from};

verus! {

/// The authenticated caller of a request.
#[derive(Debug)]
pub struct Principal {
    /// Login name.
    pub username: String,
    /// The one account this principal owns.
    pub account_id: String,
    /// OAuth scopes granted to the caller.
    pub scopes: Vec<String>,
}

impl Principal {
    /// Whether the principal owns the account `account_id`.
    pub fn owns_account(&self, account_id: &str) -> (r: bool)
        ensures
            r == (self.account_id@ == account_id@),
    {
        str_eq(self.account_id.as_str(), account_id)
    }
}

/// The account id that belongs to a user name: `account-` followed by the
/// name with every `@` replaced by `-`.
pub open spec fn account_id_spec(username: Seq<char>) -> Seq<char> {
    "account-"@ + replace_char(username, '@', '-')
}

/// The account id that belongs to a user name.
pub fn derive_account_id(username: &str) -> (r: String)
    ensures
        r@ == account_id_spec(username@),
{
    let replaced = replace_char_exec(username, '@', '-');
    concat("account-", replaced.as_str())
}

/// The kinds of JMAP request-level and method-level errors.
#[derive(Debug, Clone, Copy, PartialEq, Eq)]
pub enum JmapErrorType {
    UnknownCapability,
    NotRequest,
    Limit,
    UnknownMethod,
    InvalidArguments,
    Forbidden,
    ServerFail,
}

/// The type URI of an error kind.
pub open spec fn error_type_uri(t: JmapErrorType) -> Seq<char> {
    match t {
        JmapErrorType::UnknownCapability => "urn:ietf:params:jmap:error:unknownCapability"@,
        JmapErrorType::NotRequest => "urn:ietf:params:jmap:error:notRequest"@,
        JmapErrorType::Limit => "urn:ietf:params:jmap:error:limit"@,
        JmapErrorType::UnknownMethod => "urn:ietf:params:jmap:error:unknownMethod"@,
        JmapErrorType::InvalidArguments => "urn:ietf:params:jmap:error:invalidArguments"@,
        JmapErrorType::Forbidden => "urn:ietf:params:jmap:error:forbidden"@,
        JmapErrorType::ServerFail => "urn:ietf:params:jmap:error:serverFail"@,
    }
}

impl JmapErrorType {
    /// The type URI of this error kind.
    pub fn as_str(&self) -> (r: &'static str)
        ensures
            r@ == error_type_uri(*self),
    {
        match self {
            JmapErrorType::UnknownCapability => "urn:ietf:params:jmap:error:unknownCapability",
            JmapErrorType::NotRequest => "urn:ietf:params:jmap:error:notRequest",
            JmapErrorType::Limit => "urn:ietf:params:jmap:error:limit",
            JmapErrorType::UnknownMethod => "urn:ietf:params:jmap:error:unknownMethod",
            JmapErrorType::InvalidArguments => "urn:ietf:params:jmap:error:invalidArguments",
            JmapErrorType::Forbidden => "urn:ietf:params:jmap:error:forbidden",
            JmapErrorType::ServerFail => "urn:ietf:params:jmap:error:serverFail",
        }
    }
}

/// A JMAP error object.
#[derive(Debug)]
pub struct JmapError {
    /// The kind of error.
    pub error_type: JmapErrorType,
    /// HTTP status, for request-level errors.
    pub status: Option<u16>,
    /// Human-readable detail.
    pub detail: Option<String>,
    /// The name of the exceeded limit, for `limit` errors.
    pub limit: Option<String>,
}

impl JmapError {
    /// An error of the given kind with no other information.
    pub fn new(error_type: JmapErrorType) -> (r: Self)
        ensures
            r.error_type == error_type,
            r.status is None,
            r.detail is None,
            r.limit is None,
    {
        JmapError { error_type, status: None, detail: None, limit: None }
    }

    /// The same error with an HTTP status.
    pub fn with_status(self, status: u16) -> (r: Self)
        ensures
            r == (JmapError { status: Some(status), ..self }),
    {
        JmapError { status: Some(status), ..self }
    }

    /// The same error with a detail text.
    pub fn with_detail(self, detail: String) -> (r: Self)
        ensures
            r == (JmapError { detail: Some(detail), ..self }),
    {
        JmapError { detail: Some(detail), ..self }
    }

    /// The same error naming an exceeded limit.
    pub fn with_limit(self, limit: String) -> (r: Self)
        ensures
            r == (JmapError { limit: Some(limit), ..self }),
    {
        JmapError { limit: Some(limit), ..self }
    }
}

/// An error for one object of a `/set` call.
#[derive(Debug)]
pub struct JmapSetError {
    /// Error type, such as `notFound`.
    pub error_type: String,
    /// Human-readable description.
    pub description: Option<String>,
}

/// The content of a `/set` error.
pub struct SetErrorView {
    pub error_type: Seq<char>,
    pub description: Option<Seq<char>>,
}

impl View for JmapSetError {
    type V = SetErrorView;

    open spec fn view(&self) -> SetErrorView {
        SetErrorView {
            error_type: self.error_type@,
            description: match self.description {
                Some(d) => Some(d@),
                None => None,
            },
        }
    }
}

impl JmapSetError {
    /// A `/set` error of the given type with a description.
    pub fn new(error_type: &str, description: &str) -> (r: Self)
        ensures
            r@ == (SetErrorView { error_type: error_type@, description: Some(description@) }),
    {
        JmapSetError { error_type: string_from(error_type), description: Some(string_from(description)) }
    }
}

/// A copy of an optional list of addresses.
pub fn clone_addresses(o: &Option<Vec<EmailAddress>>) -> (r: Option<Vec<EmailAddress>>)
    ensures
        opt_addresses_view(r) == opt_addresses_view(*o),
{
    match o {
        None => None,
        Some(v) => {
            let mut out: Vec<EmailAddress> = Vec::new();
            let mut i: usize = 0;
            while i < v.len()
                invariant
                    i <= v@.len(),
                    addresses_view(out@) == addresses_view(v@).take(i as int),
                decreases v.len() - i,
            {
                let ghost before = out@;
                out.push(v[i].duplicate());
                proof {
                    assert(addresses_view(out@) =~= addresses_view(before).push(v@[i as int]@));
                    assert(addresses_view(v@).take(i + 1) =~= addresses_view(v@).take(i as int).push(v@[i as int]@));
                }
                i = i + 1;
            }
            proof {
                assert(addresses_view(v@).take(v@.len() as int) =~= addresses_view(v@));
            }
            Some(out)
        },
    }
}

/// A mail address with an optional display name.
#[derive(Debug)]
pub struct EmailAddress {
    /// Display name.
    pub name: Option<String>,
    /// The address itself.
    pub email: String,
}

/// The content of a mail address.
pub struct AddressView {
    pub name: Option<Seq<char>>,
    pub email: Seq<char>,
}

impl View for EmailAddress {
    type V = AddressView;

    open spec fn view(&self) -> AddressView {
        AddressView {
            name: match self.name {
                Some(n) => Some(n@),
                None => None,
            },
            email: self.email@,
        }
    }
}

/// The contents of a list of addresses.
pub open spec fn addresses_view(s: Seq<EmailAddress>) -> Seq<AddressView> {
    s.map_values(|a: EmailAddress| a@)
}

/// The contents of an optional list of addresses.
pub open spec fn opt_addresses_view(o: Option<Vec<EmailAddress>>) -> Option<Seq<AddressView>> {
    match o {
        Some(v) => Some(addresses_view(v@)),
        None => None,
    }
}

impl EmailAddress {
    /// A copy of the address.
    pub fn duplicate(&self) -> (r: Self)
        ensures
            r@ == self@,
    {
        EmailAddress {
            name: match &self.name {
                Some(n) => Some(n.clone()),
                None => None,
            },
            email: self.email.clone(),
        }
    }

    /// An address without a display name.
    pub fn new(email: String) -> (r: Self)
        ensures
            r.name is None,
            r.email == email,
    {
        EmailAddress { name: None, email }
    }
}


// ── Email objects ───────────────────────────────────────────────────────────

/// The decoded text of one body part.
#[derive(Debug)]
pub struct EmailBodyValue {
    pub value: String,
    pub is_encoding_problem: bool,
    pub is_truncated: bool,
}

/// One part of a message body.
#[derive(Debug)]
pub struct EmailBodyPart {
    pub part_id: String,
    pub blob_id: Option<String>,
    pub size: u64,
    pub media_type: String,
}

/// A message as JMAP shows it. Times are milliseconds since the Unix epoch;
/// `mailbox_ids` and `keywords` are maps from id or keyword to `true`.
#[derive(Debug)]
pub struct Email {
    pub id: String,
    pub blob_id: String,
    pub thread_id: Option<String>,
    pub mailbox_ids: Vec<(String, bool)>,
    pub keywords: Vec<(String, bool)>,
    pub size: u64,
    pub received_at: i64,
    pub message_id: Option<Vec<String>>,
    pub in_reply_to: Option<Vec<String>>,
    pub references: Option<Vec<String>>,
    pub sender: Option<Vec<EmailAddress>>,
    pub from: Option<Vec<EmailAddress>>,
    pub to: Option<Vec<EmailAddress>>,
    pub cc: Option<Vec<EmailAddress>>,
    pub bcc: Option<Vec<EmailAddress>>,
    pub reply_to: Option<Vec<EmailAddress>>,
    pub subject: Option<String>,
    pub sent_at: Option<i64>,
    pub has_attachment: bool,
    pub preview: Option<String>,
    pub body_values: Option<Vec<(String, EmailBodyValue)>>,
    pub text_body: Option<Vec<EmailBodyPart>>,
    pub html_body: Option<Vec<EmailBodyPart>>,
    pub attachments: Option<Vec<EmailBodyPart>>,
}

/// A condition of an email query.
#[derive(Debug)]
pub struct EmailFilterCondition {
    pub in_mailbox: Option<String>,
    pub in_mailbox_other_than: Option<Vec<String>>,
    pub before: Option<i64>,
    pub after: Option<i64>,
    pub min_size: Option<u64>,
    pub max_size: Option<u64>,
    pub all_in_thread_have_keyword: Option<String>,
    pub some_in_thread_have_keyword: Option<String>,
    pub none_in_thread_have_keyword: Option<String>,
    pub has_keyword: Option<String>,
    pub not_keyword: Option<String>,
    pub has_attachment: Option<bool>,
    pub text: Option<String>,
    pub from: Option<String>,
    pub to: Option<String>,
    pub cc: Option<String>,
    pub bcc: Option<String>,
    pub subject: Option<String>,
    pub body: Option<String>,
    pub header: Option<Vec<String>>,
}

/// One sort comparator of an email query.
#[derive(Debug)]
pub struct EmailSort {
    pub property: String,
    pub is_ascending: Option<bool>,
    pub collation: Option<String>,
}


/// The content of a body value.
pub struct BodyValueContent {
    pub value: Seq<char>,
    pub is_encoding_problem: bool,
    pub is_truncated: bool,
}

impl View for EmailBodyValue {
    type V = BodyValueContent;

    open spec fn view(&self) -> BodyValueContent {
        BodyValueContent { value: self.value@, is_encoding_problem: self.is_encoding_problem, is_truncated: self.is_truncated }
    }
}

/// The content of a body part.
pub struct BodyPartContent {
    pub part_id: Seq<char>,
    pub blob_id: Option<Seq<char>>,
    pub size: u64,
    pub media_type: Seq<char>,
}

impl View for EmailBodyPart {
    type V = BodyPartContent;

    open spec fn view(&self) -> BodyPartContent {
        BodyPartContent {
            part_id: self.part_id@,
            blob_id: match self.blob_id {
                Some(b) => Some(b@),
                None => None,
            },
            size: self.size,
            media_type: self.media_type@,
        }
    }
}

/// The content of an optional list of body parts.
pub open spec fn opt_parts(o: Option<Vec<EmailBodyPart>>) -> Option<Seq<BodyPartContent>> {
    match o {
        Some(v) => Some(v@.map_values(|p: EmailBodyPart| p@)),
        None => None,
    }
}

/// The content of an optional list of strings.
pub open spec fn opt_texts(o: Option<Vec<String>>) -> Option<Seq<Seq<char>>> {
    match o {
        Some(v) => Some(v@.map_values(|s: String| s@)),
        None => None,
    }
}

/// The content of an optional string.
pub open spec fn opt_chars(o: Option<String>) -> Option<Seq<char>> {
    match o {
        Some(s) => Some(s@),
        None => None,
    }
}

/// The content of a message.
pub struct EmailContent {
    pub id: Seq<char>,
    pub blob_id: Seq<char>,
    pub thread_id: Option<Seq<char>>,
    pub mailbox_ids: Seq<(Seq<char>, bool)>,
    pub keywords: Seq<(Seq<char>, bool)>,
    pub size: u64,
    pub received_at: i64,
    pub message_id: Option<Seq<Seq<char>>>,
    pub in_reply_to: Option<Seq<Seq<char>>>,
    pub references: Option<Seq<Seq<char>>>,
    pub sender: Option<Seq<AddressView>>,
    pub from: Option<Seq<AddressView>>,
    pub to: Option<Seq<AddressView>>,
    pub cc: Option<Seq<AddressView>>,
    pub bcc: Option<Seq<AddressView>>,
    pub reply_to: Option<Seq<AddressView>>,
    pub subject: Option<Seq<char>>,
    pub sent_at: Option<i64>,
    pub has_attachment: bool,
    pub preview: Option<Seq<char>>,
    pub body_values: Option<Seq<(Seq<char>, BodyValueContent)>>,
    pub text_body: Option<Seq<BodyPartContent>>,
    pub html_body: Option<Seq<BodyPartContent>>,
    pub attachments: Option<Seq<BodyPartContent>>,
}

/// The content of a map of flags.
pub open spec fn flag_map_view(s: Seq<(String, bool)>) -> Seq<(Seq<char>, bool)> {
    s.map_values(|p: (String, bool)| (p.0@, p.1))
}

impl View for Email {
    type V = EmailContent;

    open spec fn view(&self) -> EmailContent {
        EmailContent {
            id: self.id@,
            blob_id: self.blob_id@,
            thread_id: opt_chars(self.thread_id),
            mailbox_ids: flag_map_view(self.mailbox_ids@),
            keywords: flag_map_view(self.keywords@),
            size: self.size,
            received_at: self.received_at,
            message_id: opt_texts(self.message_id),
            in_reply_to: opt_texts(self.in_reply_to),
            references: opt_texts(self.references),
            sender: opt_addresses_view(self.sender),
            from: opt_addresses_view(self.from),
            to: opt_addresses_view(self.to),
            cc: opt_addresses_view(self.cc),
            bcc: opt_addresses_view(self.bcc),
            reply_to: opt_addresses_view(self.reply_to),
            subject: opt_chars(self.subject),
            sent_at: self.sent_at,
            has_attachment: self.has_attachment,
            preview: opt_chars(self.preview),
            body_values: match self.body_values {
                Some(v) => Some(v@.map_values(|p: (String, EmailBodyValue)| (p.0@, p.1@))),
                None => None,
            },
            text_body: opt_parts(self.text_body),
            html_body: opt_parts(self.html_body),
            attachments: opt_parts(self.attachments),
        }
    }
}

/// A copy of a map of flags.
pub fn clone_flag_map(v: &Vec<(String, bool)>) -> (r: Vec<(String, bool)>)
    ensures
        flag_map_view(r@) == flag_map_view(v@),
{
    let mut out: Vec<(String, bool)> = Vec::new();
    let mut i: usize = 0;
    while i < v.len()
        invariant
            i <= v@.len(),
            flag_map_view(out@) == flag_map_view(v@).take(i as int),
        decreases v.len() - i,
    {
        let ghost before = out@;
        out.push((v[i].0.clone(), v[i].1));
        proof {
            assert(flag_map_view(out@) =~= flag_map_view(before).push((v@[i as int].0@, v@[i as int].1)));
            assert(flag_map_view(v@).take(i + 1) =~= flag_map_view(v@).take(i as int).push((v@[i as int].0@, v@[i as int].1)));
        }
        i = i + 1;
    }
    proof {
        assert(flag_map_view(v@).take(v@.len() as int) =~= flag_map_view(v@));
    }
    out
}


// ── Push subscriptions ──────────────────────────────────────────────────────

/// The keys a push endpoint encrypts with.
#[derive(Debug)]
pub struct PushKeys {
    pub p256dh: String,
    pub auth: String,
}

/// The content of push keys.
pub struct KeysContent {
    pub p256dh: Seq<char>,
    pub auth: Seq<char>,
}

impl View for PushKeys {
    type V = KeysContent;

    open spec fn view(&self) -> KeysContent {
        KeysContent { p256dh: self.p256dh@, auth: self.auth@ }
    }
}

impl PushKeys {
    /// A copy of the keys.
    pub fn duplicate(&self) -> (r: PushKeys)
        ensures
            r@ == self@,
    {
        PushKeys { p256dh: self.p256dh.clone(), auth: self.auth.clone() }
    }
}

/// The content of optional push keys.
pub open spec fn opt_keys(o: Option<PushKeys>) -> Option<KeysContent> {
    match o {
        Some(k) => Some(k@),
        None => None,
    }
}

/// A registered push endpoint. `expires` is milliseconds since the Unix
/// epoch.
#[derive(Debug)]
pub struct PushSubscription {
    pub id: String,
    pub device_client_id: String,
    pub url: String,
    pub keys: Option<PushKeys>,
    pub verification_code: Option<String>,
    pub expires: Option<i64>,
    pub types: Vec<String>,
    pub verified: bool,
    pub principal_id: String,
}

/// The content of a push subscription.
pub struct SubscriptionContent {
    pub id: Seq<char>,
    pub device_client_id: Seq<char>,
    pub url: Seq<char>,
    pub keys: Option<KeysContent>,
    pub verification_code: Option<Seq<char>>,
    pub expires: Option<i64>,
    pub types: Seq<Seq<char>>,
    pub verified: bool,
    pub principal_id: Seq<char>,
}

impl View for PushSubscription {
    type V = SubscriptionContent;

    open spec fn view(&self) -> SubscriptionContent {
        SubscriptionContent {
            id: self.id@,
            device_client_id: self.device_client_id@,
            url: self.url@,
            keys: opt_keys(self.keys),
            verification_code: opt_chars(self.verification_code),
            expires: self.expires,
            types: self.types@.map_values(|t: String| t@),
            verified: self.verified,
            principal_id: self.principal_id@,
        }
    }
}

impl PushSubscription {
    /// A copy of the subscription.
    pub fn duplicate(&self) -> (r: PushSubscription)
        ensures
            r@ == self@,
    {
        PushSubscription {
            id: self.id.clone(),
            device_client_id: self.device_client_id.clone(),
            url: self.url.clone(),
            keys: match &self.keys {
                Some(k) => Some(k.duplicate()),
                None => None,
            },
            verification_code: match &self.verification_code {
                Some(c) => Some(c.clone()),
                None => None,
            },
            expires: self.expires,
            types: crate::methods::mailbox::clone_strings(&self.types),
            verified: self.verified,
            principal_id: self.principal_id.clone(),
        }
    }
}

} // verus!
