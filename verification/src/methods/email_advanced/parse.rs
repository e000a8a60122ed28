//! `Email/parse`: reading messages held as blobs without storing them.
use vstd::prelude::*;

use crate::blob::{BlobStorage, StorageContent};
use crate::maps::{lemma_pairs_view_len, pairs_view, vget, vput, vput_exec};
use crate::methods::email_advanced::import::{is_valid_rfc5322, valid_rfc5322};
use crate::methods::email_advanced::types::{EmailParseRequest, EmailParseResponse};
use crate::methods::email_query_helpers::contains_id;
use crate::methods::identity::forbidden_text;
use crate::methods::{ensure_account_ownership, forbidden_message};
use crate::text::strings_view;
use crate::types::{Email, EmailContent};

verus! {

/// Which optional properties a property list keeps.
#[derive(Clone, Copy)]
pub struct KeptProperties {
    pub thread_id: bool,
    pub mailbox_ids: bool,
    pub keywords: bool,
    pub message_id: bool,
    pub in_reply_to: bool,
    pub references: bool,
    pub sender: bool,
    pub from: bool,
    pub to: bool,
    pub cc: bool,
    pub bcc: bool,
    pub reply_to: bool,
    pub subject: bool,
    pub sent_at: bool,
    pub preview: bool,
    pub body_values: bool,
    pub text_body: bool,
    pub html_body: bool,
    pub attachments: bool,
}

/// Which optional properties a property list keeps.
pub open spec fn kept_properties(props: Seq<Seq<char>>) -> KeptProperties {
    KeptProperties {
        thread_id: props.contains("threadId"@),
        mailbox_ids: props.contains("mailboxIds"@),
        keywords: props.contains("keywords"@),
        message_id: props.contains("messageId"@),
        in_reply_to: props.contains("inReplyTo"@),
        references: props.contains("references"@),
        sender: props.contains("sender"@),
        from: props.contains("from"@),
        to: props.contains("to"@),
        cc: props.contains("cc"@),
        bcc: props.contains("bcc"@),
        reply_to: props.contains("replyTo"@),
        subject: props.contains("subject"@),
        sent_at: props.contains("sentAt"@),
        preview: props.contains("preview"@),
        body_values: props.contains("bodyValues"@),
        text_body: props.contains("textBody"@),
        html_body: props.contains("htmlBody"@),
        attachments: props.contains("attachments"@),
    }
}

/// A message with only the kept properties; the others are cleared.
pub open spec fn keep_only(e: EmailContent, k: KeptProperties) -> EmailContent {
    EmailContent {
        thread_id: if k.thread_id {
            e.thread_id
        } else {
            None
        },
        mailbox_ids: if k.mailbox_ids {
            e.mailbox_ids
        } else {
            seq![]
        },
        keywords: if k.keywords {
            e.keywords
        } else {
            seq![]
        },
        message_id: if k.message_id {
            e.message_id
        } else {
            None
        },
        in_reply_to: if k.in_reply_to {
            e.in_reply_to
        } else {
            None
        },
        references: if k.references {
            e.references
        } else {
            None
        },
        sender: if k.sender {
            e.sender
        } else {
            None
        },
        from: if k.from {
            e.from
        } else {
            None
        },
        to: if k.to {
            e.to
        } else {
            None
        },
        cc: if k.cc {
            e.cc
        } else {
            None
        },
        bcc: if k.bcc {
            e.bcc
        } else {
            None
        },
        reply_to: if k.reply_to {
            e.reply_to
        } else {
            None
        },
        subject: if k.subject {
            e.subject
        } else {
            None
        },
        sent_at: if k.sent_at {
            e.sent_at
        } else {
            None
        },
        preview: if k.preview {
            e.preview
        } else {
            None
        },
        body_values: if k.body_values {
            e.body_values
        } else {
            None
        },
        text_body: if k.text_body {
            e.text_body
        } else {
            None
        },
        html_body: if k.html_body {
            e.html_body
        } else {
            None
        },
        attachments: if k.attachments {
            e.attachments
        } else {
            None
        },
        ..e
    }
}

/// A message with only the listed properties; the others are cleared
/// (`id`, `blobId`, `size`, `receivedAt` and `hasAttachment` always stay).
pub open spec fn filtered_email(e: EmailContent, props: Seq<Seq<char>>) -> EmailContent {
    keep_only(e, kept_properties(props))
}

fn properties_kept(properties: &[String]) -> (r: KeptProperties)
    ensures
        r == kept_properties(strings_view(properties@)),
{
    KeptProperties {
        thread_id: contains_id(properties, "threadId"),
        mailbox_ids: contains_id(properties, "mailboxIds"),
        keywords: contains_id(properties, "keywords"),
        message_id: contains_id(properties, "messageId"),
        in_reply_to: contains_id(properties, "inReplyTo"),
        references: contains_id(properties, "references"),
        sender: contains_id(properties, "sender"),
        from: contains_id(properties, "from"),
        to: contains_id(properties, "to"),
        cc: contains_id(properties, "cc"),
        bcc: contains_id(properties, "bcc"),
        reply_to: contains_id(properties, "replyTo"),
        subject: contains_id(properties, "subject"),
        sent_at: contains_id(properties, "sentAt"),
        preview: contains_id(properties, "preview"),
        body_values: contains_id(properties, "bodyValues"),
        text_body: contains_id(properties, "textBody"),
        html_body: contains_id(properties, "htmlBody"),
        attachments: contains_id(properties, "attachments"),
    }
}

fn keep_fields(email: Email, k: KeptProperties) -> (r: Email)
    ensures
        r@ == keep_only(email@, k),
{
    let empty_mailboxes: Vec<(String, bool)> = Vec::new();
    let empty_keywords: Vec<(String, bool)> = Vec::new();
    assert(crate::types::flag_map_view(empty_mailboxes@) =~= Seq::<(Seq<char>, bool)>::empty());
    assert(crate::types::flag_map_view(empty_keywords@) =~= Seq::<(Seq<char>, bool)>::empty());
    Email {
        id: email.id,
        blob_id: email.blob_id,
        size: email.size,
        received_at: email.received_at,
        has_attachment: email.has_attachment,
        thread_id: if k.thread_id {
            email.thread_id
        } else {
            None
        },
        mailbox_ids: if k.mailbox_ids {
            email.mailbox_ids
        } else {
            empty_mailboxes
        },
        keywords: if k.keywords {
            email.keywords
        } else {
            empty_keywords
        },
        message_id: if k.message_id {
            email.message_id
        } else {
            None
        },
        in_reply_to: if k.in_reply_to {
            email.in_reply_to
        } else {
            None
        },
        references: if k.references {
            email.references
        } else {
            None
        },
        sender: if k.sender {
            email.sender
        } else {
            None
        },
        from: if k.from {
            email.from
        } else {
            None
        },
        to: if k.to {
            email.to
        } else {
            None
        },
        cc: if k.cc {
            email.cc
        } else {
            None
        },
        bcc: if k.bcc {
            email.bcc
        } else {
            None
        },
        reply_to: if k.reply_to {
            email.reply_to
        } else {
            None
        },
        subject: if k.subject {
            email.subject
        } else {
            None
        },
        sent_at: if k.sent_at {
            email.sent_at
        } else {
            None
        },
        preview: if k.preview {
            email.preview
        } else {
            None
        },
        body_values: if k.body_values {
            email.body_values
        } else {
            None
        },
        text_body: if k.text_body {
            email.text_body
        } else {
            None
        },
        html_body: if k.html_body {
            email.html_body
        } else {
            None
        },
        attachments: if k.attachments {
            email.attachments
        } else {
            None
        },
    }
}

/// A message with only the listed properties.
pub fn filter_email_properties(email: Email, properties: &[String]) -> (r: Email)
    ensures
        r@ == filtered_email(email@, strings_view(properties@)),
{
    let k = properties_kept(properties);
    keep_fields(email, k)
}

/// Where an `Email/parse` call has got: parsed messages, unparsable blob
/// ids, and blob ids not found.
pub struct ParseProgress {
    pub parsed: Seq<(Seq<char>, EmailContent)>,
    pub not_parsable: Seq<Seq<char>>,
    pub not_found: Seq<Seq<char>>,
}

/// The content of an optional message.
pub open spec fn opt_email(o: Option<Email>) -> Option<EmailContent> {
    match o {
        Some(e) => Some(e@),
        None => None,
    }
}

/// The properties a parse keeps: all when none, or an empty list, is given.
pub open spec fn parse_filter(req: EmailParseRequest, e: EmailContent) -> EmailContent {
    match req.properties {
        Some(p) => if p@.len() > 0 {
            filtered_email(e, strings_view(p@))
        } else {
            e
        },
        None => e,
    }
}

/// The parse outcomes in order; `converted[i]` is what reading the `i`-th
/// blob's message gave (nothing when it failed).
pub open spec fn parses_fold(req: EmailParseRequest, ids: Seq<Seq<char>>, blobs: StorageContent, converted: Seq<Option<EmailContent>>) -> ParseProgress
    decreases ids.len(),
{
    if ids.len() == 0 {
        ParseProgress { parsed: seq![], not_parsable: seq![], not_found: seq![] }
    } else {
        let n = ids.len() - 1;
        let p = parses_fold(req, ids.drop_last(), blobs, converted);
        match vget(blobs.blobs, ids[n]) {
            None => ParseProgress { not_found: p.not_found.push(ids[n]), ..p },
            Some(b) => if !valid_rfc5322(b.data) {
                ParseProgress { not_parsable: p.not_parsable.push(ids[n]), ..p }
            } else {
                match converted[n] {
                    None => ParseProgress { not_parsable: p.not_parsable.push(ids[n]), ..p },
                    Some(e) => ParseProgress { parsed: vput(p.parsed, ids[n], parse_filter(req, e)), ..p },
                }
            },
        }
    }
}

/// `Email/parse`, given what reading each blob's message gave
/// (`converted[i]` for the `i`-th blob id): refused for an account the
/// principal does not own.
pub fn email_parse(request: EmailParseRequest, principal: &crate::types::Principal, blobs: &BlobStorage, converted: Vec<Option<Email>>) -> (r: Result<EmailParseResponse, String>)
    requires
        converted@.len() >= request.blob_ids@.len(),
    ensures
        principal.account_id@ != request.account_id@ ==> r is Err && r->Err_0@ == forbidden_text(
            request.account_id@,
            principal.account_id@,
        ),
        principal.account_id@ == request.account_id@ ==> r is Ok && ({
            let p = parses_fold(
                request,
                strings_view(request.blob_ids@),
                blobs@,
                converted@.map_values(|o: Option<Email>| opt_email(o)),
            );
            &&& r->Ok_0.account_id@ == request.account_id@
            &&& pairs_view(r->Ok_0.parsed@) == p.parsed
            &&& strings_view(r->Ok_0.not_parsable@) == p.not_parsable
            &&& strings_view(r->Ok_0.not_found@) == p.not_found
        }),
{
    if let Err(e) = ensure_account_ownership(request.account_id.as_str(), principal) {
        return Err(forbidden_message(&e));
    }
    let ghost req = request;
    let ghost ids = strings_view(request.blob_ids@);
    let ghost cv = converted@.map_values(|o: Option<Email>| opt_email(o));
    let mut parsed: Vec<(String, Email)> = Vec::new();
    let mut not_parsable: Vec<String> = Vec::new();
    let mut not_found: Vec<String> = Vec::new();
    proof {
        lemma_pairs_view_len(parsed@);
        assert(ids.take(0) =~= Seq::<Seq<char>>::empty());
        assert(strings_view(not_parsable@) =~= Seq::<Seq<char>>::empty());
        assert(strings_view(not_found@) =~= Seq::<Seq<char>>::empty());
    }
    let mut rest = converted;
    let ghost orig = rest@;
    let mut i: usize = 0;
    while i < request.blob_ids.len()
        invariant
            i <= request.blob_ids@.len(),
            req == request,
            ids == strings_view(request.blob_ids@),
            orig.len() >= request.blob_ids@.len(),
            cv == orig.map_values(|o: Option<Email>| opt_email(o)),
            rest@ == orig.skip(i as int),
            ({
                let p = parses_fold(req, ids.take(i as int), blobs@, cv);
                &&& pairs_view(parsed@) == p.parsed
                &&& strings_view(not_parsable@) == p.not_parsable
                &&& strings_view(not_found@) == p.not_found
            }),
        decreases request.blob_ids.len() - i,
    {
        proof {
            assert(ids.take(i + 1).drop_last() =~= ids.take(i as int));
            assert(ids.take(i + 1)[i as int] == request.blob_ids@[i as int]@);
        }
        let ghost rb = rest@;
        let item = rest.remove(0);
        proof {
            assert(item == orig[i as int]);
            assert(rest@ =~= orig.skip(i + 1));
            assert(cv[i as int] == opt_email(item));
        }
        let id = &request.blob_ids[i];
        match blobs.get(id.as_str()) {
            None => {
                let ghost before = not_found@;
                not_found.push(id.clone());
                proof {
                    assert(strings_view(not_found@) =~= strings_view(before).push(id@));
                }
            },
            Some(b) => {
                if !is_valid_rfc5322(b.data()) {
                    let ghost before = not_parsable@;
                    not_parsable.push(id.clone());
                    proof {
                        assert(strings_view(not_parsable@) =~= strings_view(before).push(id@));
                    }
                } else {
                    match item {
                        None => {
                            let ghost before = not_parsable@;
                            not_parsable.push(id.clone());
                            proof {
                                assert(strings_view(not_parsable@) =~= strings_view(before).push(id@));
                            }
                        },
                        Some(email) => {
                            let email = match &request.properties {
                                Some(props) => {
                                    if props.len() > 0 {
                                        filter_email_properties(email, props.as_slice())
                                    } else {
                                        email
                                    }
                                },
                                None => email,
                            };
                            vput_exec(&mut parsed, id.clone(), email);
                        },
                    }
                }
            },
        }
        i = i + 1;
    }
    proof {
        assert(ids.take(request.blob_ids@.len() as int) =~= ids);
    }
    Ok(EmailParseResponse { account_id: request.account_id.clone(), parsed, not_parsable, not_found })
}

} // verus!
