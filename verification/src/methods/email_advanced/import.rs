//! `Email/import`: the checks on an imported message, where it goes, and
//! the email object that describes it.
use vstd::prelude::*;

use crate::blob::{compute_blob_id, hex_text, BlobStorage, StorageContent};
use crate::maps::{answered_as, lemma_pairs_view_len, lemma_vput, nonempty, nonempty_vec, opt_pairs_view, pairs_view, vget, vput, vput_exec};
use crate::methods::email::{
    date_of, get_first_header, header_addresses_of, header_first, header_has_reversed_brackets, header_list_view,
    header_values, find_header, no_flags, parse_date_header, parse_email_addresses, FlagsContent, MessageFlags,
};
use crate::methods::email_advanced::types::{EmailImportObject, EmailImportRequest, EmailImportResponse};
use crate::methods::identity::forbidden_text;
use crate::methods::mailbox::unsigned_time_text;
use crate::methods::{ensure_account_ownership, forbidden_message};
use crate::outside::{now_timestamp, parse_uuid, parsed_uuid, sha256, sha256_digest};
use crate::text::{concat, str_eq, string_from, strings_view, u64_to_decimal};
use crate::types::{
    clone_flag_map, flag_map_view, opt_addresses_view, AddressView, Email, EmailContent, JmapSetError, SetErrorView,
};

verus! {

// ── Checks ──────────────────────────────────────────────────────────────────

/// Whether `w` occurs in `d`.
pub open spec fn has_window(d: Seq<u8>, w: Seq<u8>) -> bool {
    exists|i: int| 0 <= i && i + w.len() <= d.len() && #[trigger] d.subrange(i, i + w.len()) == w
}

/// Whether raw message bytes have the header/body separator of RFC 5322
/// (an empty line, CRLF or bare LF), or end with a line break.
pub open spec fn valid_rfc5322(d: Seq<u8>) -> bool {
    has_window(d, seq![13u8, 10u8, 13u8, 10u8]) || has_window(d, seq![10u8, 10u8]) || (d.len() >= 2 && d.subrange(
        d.len() - 2,
        d.len() as int,
    ) == seq![13u8, 10u8]) || (d.len() >= 1 && d.last() == 10u8)
}

fn find_window(d: &[u8], w: &[u8]) -> (r: bool)
    ensures
        r == has_window(d@, w@),
{
    if w.len() > d.len() {
        assert forall|i: int| 0 <= i && i + w@.len() <= d@.len() implies #[trigger] d@.subrange(i, i + w@.len()) != w@ by {}
        return false;
    }
    if w.len() == 0 {
        assert(d@.subrange(0int, 0int + w@.len()) =~= w@);
        return true;
    }
    let dl: usize = d.len();
    assert(d@.len() == dl);
    let last: usize = d.len() - w.len();
    let mut i: usize = 0;
    while i <= last
        invariant
            last == d@.len() - w@.len(),
            last < dl,
            d@.len() == dl,
            i <= last + 1,
            forall|k: int| 0 <= k < i ==> #[trigger] d@.subrange(k, k + w@.len()) != w@,
        decreases last + 1 - i,
    {
        let mut j: usize = 0;
        let mut same = true;
        while j < w.len()
            invariant
                i + w@.len() <= d@.len(),
                d@.len() == dl,
                j <= w@.len(),
                same == (forall|k: int| 0 <= k < j ==> d@[i + k] == w@[k]),
            decreases w.len() - j,
        {
            if d[i + j] != w[j] {
                same = false;
            }
            j = j + 1;
        }
        if same {
            assert(d@.subrange(i as int, i + w@.len()) =~= w@);
            return true;
        } else {
            assert(d@.subrange(i as int, i + w@.len()) != w@) by {
                let k = choose|k: int| 0 <= k < w@.len() && d@[i + k] != w@[k];
                assert(d@.subrange(i as int, i + w@.len())[k] == d@[i + k]);
            }
        }
        i = i + 1;
    }
    false
}

/// Whether raw message bytes have the RFC 5322 header/body separator.
pub fn is_valid_rfc5322(data: &[u8]) -> (r: bool)
    ensures
        r == valid_rfc5322(data@),
{
    let crlfcrlf: [u8; 4] = [13, 10, 13, 10];
    let lflf: [u8; 2] = [10, 10];
    assert(crlfcrlf@ =~= seq![13u8, 10u8, 13u8, 10u8]);
    assert(lflf@ =~= seq![10u8, 10u8]);
    if find_window(data, &crlfcrlf) {
        return true;
    }
    if find_window(data, &lflf) {
        return true;
    }
    let n = data.len();
    if n >= 2 && data[n - 2] == 13 && data[n - 1] == 10 {
        assert(data@.subrange(n - 2, n as int) =~= seq![13u8, 10u8]);
        return true;
    }
    if n >= 2 {
        assert(data@.subrange(n - 2, n as int)[0] == data@[n - 2]);
        assert(data@.subrange(n - 2, n as int)[1] == data@[n - 1]);
    }
    n >= 1 && data[n - 1] == 10
}

// ── Flags and mailboxes ─────────────────────────────────────────────────────

/// Flags after one keyword of an import is applied: the four system
/// keywords set their flag to the value; others are ignored.
pub open spec fn import_flag_step(f: FlagsContent, k: Seq<char>, v: bool) -> FlagsContent {
    if k == "$seen"@ {
        FlagsContent { seen: v, ..f }
    } else if k == "$answered"@ {
        FlagsContent { answered: v, ..f }
    } else if k == "$flagged"@ {
        FlagsContent { flagged: v, ..f }
    } else if k == "$draft"@ {
        FlagsContent { draft: v, ..f }
    } else {
        f
    }
}

/// The flags of an import's keywords, applied in order.
pub open spec fn import_flags(keywords: Seq<(Seq<char>, bool)>) -> FlagsContent
    decreases keywords.len(),
{
    if keywords.len() == 0 {
        no_flags()
    } else {
        import_flag_step(import_flags(keywords.drop_last()), keywords.last().0, keywords.last().1)
    }
}

/// The flags of an import's keywords.
pub fn keywords_to_flags(keywords: &Vec<(String, bool)>) -> (r: MessageFlags)
    ensures
        r@ == import_flags(flag_map_view(keywords@)),
{
    let ghost kv = flag_map_view(keywords@);
    let mut flags = MessageFlags::new();
    let mut i: usize = 0;
    assert(kv.take(0) =~= Seq::<(Seq<char>, bool)>::empty());
    while i < keywords.len()
        invariant
            i <= keywords@.len(),
            kv == flag_map_view(keywords@),
            flags@ == import_flags(kv.take(i as int)),
        decreases keywords.len() - i,
    {
        proof {
            assert(kv.take(i + 1).drop_last() =~= kv.take(i as int));
            assert(kv.take(i + 1).last() == (keywords@[i as int].0@, keywords@[i as int].1));
        }
        let k = keywords[i].0.as_str();
        let v = keywords[i].1;
        if str_eq(k, "$seen") {
            flags.seen = v;
        } else if str_eq(k, "$answered") {
            flags.answered = v;
        } else if str_eq(k, "$flagged") {
            flags.flagged = v;
        } else if str_eq(k, "$draft") {
            flags.draft = v;
        }
        i = i + 1;
    }
    assert(kv.take(keywords@.len() as int) =~= kv);
    flags
}

/// The UUID bytes of a mailbox id: the id itself when it is a UUID, else
/// the first 16 bytes of the SHA-256 digest of its UTF-8 text, with the
/// version-4 and RFC 4122 variant bits set.
pub open spec fn mailbox_uuid(s: Seq<char>) -> Seq<u8> {
    match parsed_uuid(s) {
        Some(b) => b,
        None => {
            let h = sha256_digest(vstd::utf8::encode_utf8(s)).take(16);
            h.update(6, (h[6] & 0x0f) | 0x40).update(8, (h[8] & 0x3f) | 0x80)
        },
    }
}

/// The UUID bytes of a mailbox id.
pub fn parse_or_create_mailbox_id(s: &str) -> (r: Vec<u8>)
    ensures
        r@ == mailbox_uuid(s@),
{
    match parse_uuid(s) {
        Some(b) => b,
        None => {
            let digest = sha256(s.as_bytes());
            let mut bytes: Vec<u8> = Vec::new();
            let mut i: usize = 0;
            while i < 16
                invariant
                    i <= 16,
                    digest@.len() == 32,
                    bytes@ == digest@.take(i as int),
                decreases 16 - i,
            {
                bytes.push(digest[i]);
                assert(digest@.take(i + 1) =~= digest@.take(i as int).push(digest@[i as int]));
                i = i + 1;
            }
            let b6 = (bytes[6] & 0x0f) | 0x40;
            bytes.set(6, b6);
            let b8 = (bytes[8] & 0x3f) | 0x80;
            bytes.set(8, b8);
            bytes
        },
    }
}

/// The mailboxes an import names with `true`, in order.
pub open spec fn active_mailboxes(ids: Seq<(Seq<char>, bool)>) -> Seq<Seq<char>>
    decreases ids.len(),
{
    if ids.len() == 0 {
        seq![]
    } else if ids.last().1 {
        active_mailboxes(ids.drop_last()).push(ids.last().0)
    } else {
        active_mailboxes(ids.drop_last())
    }
}

/// Where an imported message goes, and the flags it gets.
#[derive(Debug)]
pub struct ImportTargets {
    /// UUID bytes of the mailbox the message is stored in.
    pub primary: Vec<u8>,
    /// UUID bytes of the other mailboxes it is copied to.
    pub extras: Vec<Vec<u8>>,
    /// Flags from the keywords, when any are given.
    pub flags: Option<MessageFlags>,
}

/// Where an imported message goes: `None` when no mailbox is named.
pub fn import_targets(obj: &EmailImportObject) -> (r: Option<ImportTargets>)
    ensures
        match r {
            None => active_mailboxes(flag_map_view(obj.mailbox_ids@)).len() == 0,
            Some(t) => {
                let act = active_mailboxes(flag_map_view(obj.mailbox_ids@));
                &&& act.len() > 0
                &&& t.primary@ == mailbox_uuid(act[0])
                &&& t.extras@.len() == act.len() - 1
                &&& forall|i: int| 0 <= i < t.extras@.len() ==> #[trigger] t.extras@[i]@ == mailbox_uuid(act[i + 1])
                &&& match obj.keywords {
                    Some(k) => t.flags matches Some(f) && f@ == import_flags(flag_map_view(k@)),
                    None => t.flags is None,
                }
            },
        },
{
    let ghost mv = flag_map_view(obj.mailbox_ids@);
    let mut active: Vec<String> = Vec::new();
    let mut i: usize = 0;
    assert(mv.take(0) =~= Seq::<(Seq<char>, bool)>::empty());
    assert(strings_view(active@) =~= Seq::<Seq<char>>::empty());
    while i < obj.mailbox_ids.len()
        invariant
            i <= obj.mailbox_ids@.len(),
            mv == flag_map_view(obj.mailbox_ids@),
            strings_view(active@) == active_mailboxes(mv.take(i as int)),
        decreases obj.mailbox_ids.len() - i,
    {
        proof {
            assert(mv.take(i + 1).drop_last() =~= mv.take(i as int));
            assert(mv.take(i + 1).last() == (obj.mailbox_ids@[i as int].0@, obj.mailbox_ids@[i as int].1));
        }
        if obj.mailbox_ids[i].1 {
            let ghost before = active@;
            active.push(obj.mailbox_ids[i].0.clone());
            proof {
                assert(strings_view(active@) =~= strings_view(before).push(obj.mailbox_ids@[i as int].0@));
            }
        }
        i = i + 1;
    }
    assert(mv.take(obj.mailbox_ids@.len() as int) =~= mv);
    let ghost act = strings_view(active@);
    if active.len() == 0 {
        return None;
    }
    let primary = parse_or_create_mailbox_id(active[0].as_str());
    let mut extras: Vec<Vec<u8>> = Vec::new();
    let mut k: usize = 1;
    while k < active.len()
        invariant
            1 <= k <= active@.len(),
            act == strings_view(active@),
            extras@.len() == k - 1,
            forall|j: int| 0 <= j < extras@.len() ==> #[trigger] extras@[j]@ == mailbox_uuid(act[j + 1]),
        decreases active.len() - k,
    {
        extras.push(parse_or_create_mailbox_id(active[k].as_str()));
        k = k + 1;
    }
    let flags = match &obj.keywords {
        Some(kw) => Some(keywords_to_flags(kw)),
        None => None,
    };
    Some(ImportTargets { primary, extras, flags })
}

// ── The email object ────────────────────────────────────────────────────────

/// The content of a message to import.
pub struct ImportContent {
    pub blob_id: Seq<char>,
    pub mailbox_ids: Seq<(Seq<char>, bool)>,
    pub keywords: Option<Seq<(Seq<char>, bool)>>,
    pub received_at: Option<i64>,
}

impl View for EmailImportObject {
    type V = ImportContent;

    open spec fn view(&self) -> ImportContent {
        ImportContent {
            blob_id: self.blob_id@,
            mailbox_ids: flag_map_view(self.mailbox_ids@),
            keywords: match self.keywords {
                Some(k) => Some(flag_map_view(k@)),
                None => None,
            },
            received_at: self.received_at,
        }
    }
}

/// Whether some address header could not be read.
pub open spec fn address_headers_unreadable(h: Seq<(Seq<char>, Seq<Seq<char>>)>) -> bool {
    header_has_reversed_brackets(h, "from"@) || header_has_reversed_brackets(h, "to"@) || header_has_reversed_brackets(
        h,
        "cc"@,
    ) || header_has_reversed_brackets(h, "bcc"@) || header_has_reversed_brackets(h, "reply-to"@)
        || header_has_reversed_brackets(h, "sender"@)
}

/// The first value of a header as a one-element list.
pub open spec fn first_as_list(h: Seq<(Seq<char>, Seq<Seq<char>>)>, name: Seq<char>) -> Option<Seq<Seq<char>>> {
    match header_first(h, name) {
        Some(v) => Some(seq![v]),
        None => None,
    }
}

/// The email object of an imported message: its storage id, the
/// content-addressed blob id of the raw bytes, the requested mailboxes and
/// keywords, its size, the requested receive time (else `now`), and the
/// fields read from its headers (none when they could not be read).
pub open spec fn placeholder_email(id: Seq<char>, obj: ImportContent, size: u64, raw: Seq<u8>, headers: Option<Seq<(Seq<char>, Seq<Seq<char>>)>>, now: i64) -> EmailContent {
    EmailContent {
        id,
        blob_id: hex_text(sha256_digest(raw)),
        thread_id: None,
        mailbox_ids: obj.mailbox_ids,
        keywords: match obj.keywords {
            Some(k) => k,
            None => seq![],
        },
        size,
        received_at: match obj.received_at {
            Some(t) => t,
            None => now,
        },
        message_id: match headers {
            Some(h) => first_as_list(h, "message-id"@),
            None => None,
        },
        in_reply_to: match headers {
            Some(h) => first_as_list(h, "in-reply-to"@),
            None => None,
        },
        references: match headers {
            Some(h) => header_values(h, "references"@),
            None => None,
        },
        sender: match headers {
            Some(h) => header_addresses_of(h, "sender"@),
            None => None,
        },
        from: match headers {
            Some(h) => header_addresses_of(h, "from"@),
            None => None,
        },
        to: match headers {
            Some(h) => header_addresses_of(h, "to"@),
            None => None,
        },
        cc: match headers {
            Some(h) => header_addresses_of(h, "cc"@),
            None => None,
        },
        bcc: match headers {
            Some(h) => header_addresses_of(h, "bcc"@),
            None => None,
        },
        reply_to: match headers {
            Some(h) => header_addresses_of(h, "reply-to"@),
            None => None,
        },
        subject: match headers {
            Some(h) => header_first(h, "subject"@),
            None => None,
        },
        sent_at: match headers {
            Some(h) => date_of(header_first(h, "date"@)),
            None => None,
        },
        has_attachment: false,
        preview: None,
        body_values: None,
        text_body: None,
        html_body: None,
        attachments: None,
    }
}

fn first_as_vec(headers: &Vec<(String, Vec<String>)>, name: &str) -> (r: Option<Vec<String>>)
    ensures
        crate::types::opt_texts(r) == first_as_list(header_list_view(headers@), name@),
{
    match get_first_header(headers, name) {
        Some(v) => {
            let mut out: Vec<String> = Vec::new();
            let ghost vv = v@;
            out.push(v);
            assert(out@.map_values(|s: String| s@) =~= seq![vv]);
            Some(out)
        },
        None => None,
    }
}

fn all_values(headers: &Vec<(String, Vec<String>)>, name: &str) -> (r: Option<Vec<String>>)
    ensures
        crate::types::opt_texts(r) == header_values(header_list_view(headers@), name@),
{
    match find_header(headers, name) {
        Some(i) => {
            let v = crate::methods::mailbox::clone_strings(&headers[i].1);
            Some(v)
        },
        None => None,
    }
}

/// The email object of an imported message.
pub fn make_placeholder_email(id: &str, import_obj: &EmailImportObject, size: usize, raw: &[u8], headers: &Option<Vec<(String, Vec<String>)>>, now: i64) -> (r: Email)
    requires
        headers matches Some(h) ==> !address_headers_unreadable(header_list_view(h@)),
    ensures
        r@ == placeholder_email(
            id@,
            import_obj@,
            size as u64,
            raw@,
            match headers {
                Some(h) => Some(header_list_view(h@)),
                None => None,
            },
            now,
        ),
{
    let (message_id, in_reply_to, references, subject, sent_at, from, to, cc, bcc, reply_to, sender) = match headers {
        Some(h) => {
            let date = get_first_header(h, "date");
            let sent_at = match &date {
                Some(d) => parse_date_header(Some(d.as_str())),
                None => parse_date_header(None),
            };
            (
                first_as_vec(h, "message-id"),
                first_as_vec(h, "in-reply-to"),
                all_values(h, "references"),
                get_first_header(h, "subject"),
                sent_at,
                parse_email_addresses(h, "from"),
                parse_email_addresses(h, "to"),
                parse_email_addresses(h, "cc"),
                parse_email_addresses(h, "bcc"),
                parse_email_addresses(h, "reply-to"),
                parse_email_addresses(h, "sender"),
            )
        },
        None => (None, None, None, None, None, None, None, None, None, None, None),
    };
    Email {
        id: string_from(id),
        blob_id: compute_blob_id(raw),
        thread_id: None,
        mailbox_ids: clone_flag_map(&import_obj.mailbox_ids),
        keywords: match &import_obj.keywords {
            Some(k) => clone_flag_map(k),
            None => {
                let v: Vec<(String, bool)> = Vec::new();
                assert(flag_map_view(v@) =~= Seq::<(Seq<char>, bool)>::empty());
                v
            },
        },
        size: size as u64,
        received_at: match import_obj.received_at {
            Some(t) => t,
            None => now,
        },
        message_id,
        in_reply_to,
        references,
        sender,
        from,
        to,
        cc,
        bcc,
        reply_to,
        subject,
        sent_at,
        has_attachment: false,
        preview: None,
        body_values: None,
        text_body: None,
        html_body: None,
        attachments: None,
    }
}


// ── Email/import ────────────────────────────────────────────────────────────

/// What the caller found out, outside this library, for one import: the
/// message's headers as its MIME parser read them (or the parser's error),
/// and the id the message store gave the stored message (or its error).
#[derive(Debug)]
pub struct ImportLookup {
    pub parsed: Result<Vec<(String, Vec<String>)>, String>,
    pub stored: Result<String, String>,
}

/// The content of an import lookup.
pub struct ImportLookupContent {
    pub parsed: Result<Seq<(Seq<char>, Seq<Seq<char>>)>, Seq<char>>,
    pub stored: Result<Seq<char>, Seq<char>>,
}

impl View for ImportLookup {
    type V = ImportLookupContent;

    open spec fn view(&self) -> ImportLookupContent {
        ImportLookupContent {
            parsed: match self.parsed {
                Ok(h) => Ok(header_list_view(h@)),
                Err(e) => Err(e@),
            },
            stored: match self.stored {
                Ok(id) => Ok(id@),
                Err(e) => Err(e@),
            },
        }
    }
}

/// A `/set` error with a description.
pub open spec fn import_error(t: Seq<char>, d: Seq<char>) -> SetErrorView {
    SetErrorView { error_type: t, description: Some(d) }
}

/// What importing one message gives: its blob must exist and hold an
/// RFC 5322 message that parses, at least one mailbox must be named, and
/// the store must accept it.
pub open spec fn import_result(obj: ImportContent, blobs: StorageContent, lookup: ImportLookupContent, now: i64) -> Result<EmailContent, SetErrorView> {
    match vget(blobs.blobs, obj.blob_id) {
        None => Err(import_error("blobNotFound"@, "Blob '"@ + obj.blob_id + "' not found"@)),
        Some(b) => if !valid_rfc5322(b.data) {
            Err(import_error("invalidEmail"@, "Data does not contain a valid RFC 5322 header/body separator"@))
        } else {
            match lookup.parsed {
                Err(e) => Err(import_error("invalidEmail"@, "Failed to parse MIME message: "@ + e)),
                Ok(headers) => if active_mailboxes(obj.mailbox_ids).len() == 0 {
                    Err(import_error("invalidArguments"@, "At least one mailboxId must be specified"@))
                } else {
                    match lookup.stored {
                        Err(e) => Err(import_error("serverFail"@, "Failed to store message: "@ + e)),
                        Ok(mid) => Ok(placeholder_email(mid, obj, b.data.len() as u64, b.data, Some(headers), now)),
                    }
                },
            }
        },
    }
}

/// The import outcomes in order: created emails and refused creation ids.
pub open spec fn imports_fold(
    entries: Seq<(Seq<char>, ImportContent)>,
    blobs: StorageContent,
    lookups: Seq<ImportLookupContent>,
    now: i64,
) -> (Seq<(Seq<char>, EmailContent)>, Seq<(Seq<char>, SetErrorView)>)
    decreases entries.len(),
{
    if entries.len() == 0 {
        (seq![], seq![])
    } else {
        let n = entries.len() - 1;
        let (c, nc) = imports_fold(entries.drop_last(), blobs, lookups, now);
        match import_result(entries[n].1, blobs, lookups[n], now) {
            Ok(e) => (vput(c, entries[n].0, e), nc),
            Err(err) => (c, vput(nc, entries[n].0, err)),
        }
    }
}

/// Whether a parsed message's address headers can be read.
pub open spec fn parsed_readable(l: ImportLookupContent) -> bool {
    match l.parsed {
        Ok(h) => !address_headers_unreadable(h),
        Err(_) => true,
    }
}

/// Whether every parsed message's address headers can be read.
pub open spec fn lookups_readable(lookups: Seq<ImportLookupContent>) -> bool {
    forall|i: int| 0 <= i < lookups.len() ==> parsed_readable(#[trigger] lookups[i])
}

/// The contents of a list of import lookups.
pub open spec fn import_lookups_view(s: Seq<ImportLookup>) -> Seq<ImportLookupContent> {
    s.map_values(|l: ImportLookup| l@)
}

fn err_with(t: &str, prefix: &str, detail: &str, suffix: &str) -> (r: JmapSetError)
    ensures
        r@ == import_error(t@, prefix@ + detail@ + suffix@),
{
    let a = concat(prefix, detail);
    JmapSetError { error_type: string_from(t), description: Some(concat(a.as_str(), suffix)) }
}

fn import_one(obj: &EmailImportObject, blobs: &BlobStorage, lookup: &ImportLookup, now: i64) -> (r: Result<Email, JmapSetError>)
    requires
        parsed_readable(lookup@),
    ensures
        match r {
            Ok(e) => import_result(obj@, blobs@, lookup@, now) == Ok::<EmailContent, SetErrorView>(e@),
            Err(e) => import_result(obj@, blobs@, lookup@, now) == Err::<EmailContent, SetErrorView>(e@),
        },
{
    let blob = match blobs.get(obj.blob_id.as_str()) {
        Some(b) => b,
        None => {
            return Err(err_with("blobNotFound", "Blob '", obj.blob_id.as_str(), "' not found"));
        },
    };
    let raw = blob.data();
    if !is_valid_rfc5322(raw) {
        return Err(JmapSetError::new("invalidEmail", "Data does not contain a valid RFC 5322 header/body separator"));
    }
    let headers = match &lookup.parsed {
        Err(e) => {
            proof {
                reveal_strlit("");
                assert("Failed to parse MIME message: "@ + e@ + ""@ =~= "Failed to parse MIME message: "@ + e@);
            }
            return Err(err_with("invalidEmail", "Failed to parse MIME message: ", e.as_str(), ""));
        },
        Ok(h) => h,
    };
    if import_targets(obj).is_none() {
        return Err(JmapSetError::new("invalidArguments", "At least one mailboxId must be specified"));
    }
    let mid = match &lookup.stored {
        Err(e) => {
            proof {
                reveal_strlit("");
                assert("Failed to store message: "@ + e@ + ""@ =~= "Failed to store message: "@ + e@);
            }
            return Err(err_with("serverFail", "Failed to store message: ", e.as_str(), ""));
        },
        Ok(m) => m,
    };
    let mut copy: Vec<(String, Vec<String>)> = Vec::new();
    let mut i: usize = 0;
    while i < headers.len()
        invariant
            i <= headers@.len(),
            header_list_view(copy@) == header_list_view(headers@).take(i as int),
        decreases headers.len() - i,
    {
        let ghost before = copy@;
        copy.push((headers[i].0.clone(), crate::methods::mailbox::clone_strings(&headers[i].1)));
        proof {
            assert(header_list_view(copy@) =~= header_list_view(before).push((headers@[i as int].0@, strings_view(headers@[i as int].1@))));
            assert(header_list_view(headers@).take(i + 1) =~= header_list_view(headers@).take(i as int).push((headers@[i as int].0@, strings_view(headers@[i as int].1@))));
        }
        i = i + 1;
    }
    assert(header_list_view(headers@).take(headers@.len() as int) =~= header_list_view(headers@));
    let parsed = Some(copy);
    Ok(make_placeholder_email(mid.as_str(), obj, raw.len(), raw, &parsed, now))
}

/// `Email/import` at time `now`, given what was looked up for each message
/// (`lookups[i]` for the `i`-th): refused for an account the principal does
/// not own. The state is the time, in seconds.
pub fn email_import_with(request: EmailImportRequest, principal: &crate::types::Principal, blobs: &BlobStorage, lookups: &Vec<ImportLookup>, now: i64) -> (r: Result<EmailImportResponse, String>)
    requires
        lookups@.len() >= request.emails@.len(),
        lookups_readable(import_lookups_view(lookups@)),
    ensures
        principal.account_id@ != request.account_id@ ==> r is Err && r->Err_0@ == forbidden_text(
            request.account_id@,
            principal.account_id@,
        ),
        principal.account_id@ == request.account_id@ ==> r is Ok && ({
            let (c, nc) = imports_fold(pairs_view(request.emails@), blobs@, import_lookups_view(lookups@), now);
            &&& r->Ok_0.account_id@ == request.account_id@
            &&& r->Ok_0.old_state@ == unsigned_time_text(now)
            &&& r->Ok_0.new_state@ == unsigned_time_text(now)
            &&& opt_pairs_view(r->Ok_0.created) == nonempty(c)
            &&& opt_pairs_view(r->Ok_0.not_created) == nonempty(nc)
        }),
{
    if let Err(e) = ensure_account_ownership(request.account_id.as_str(), principal) {
        return Err(forbidden_message(&e));
    }
    let old_state = u64_to_decimal(now as u64);
    let ghost ev = pairs_view(request.emails@);
    let ghost lv = import_lookups_view(lookups@);
    proof {
        lemma_pairs_view_len(request.emails@);
        assert(ev.take(0) =~= Seq::<(Seq<char>, ImportContent)>::empty());
    }
    let mut created: Vec<(String, Email)> = Vec::new();
    let mut not_created: Vec<(String, JmapSetError)> = Vec::new();
    proof {
        lemma_pairs_view_len(created@);
        lemma_pairs_view_len(not_created@);
    }
    let mut i: usize = 0;
    while i < request.emails.len()
        invariant
            i <= request.emails@.len(),
            ev == pairs_view(request.emails@),
            ev.len() == request.emails@.len(),
            forall|j: int| 0 <= j < request.emails@.len() ==> #[trigger] ev[j] == (request.emails@[j].0@, request.emails@[j].1@),
            lv == import_lookups_view(lookups@),
            lookups@.len() >= request.emails@.len(),
            lookups_readable(lv),
            (pairs_view(created@), pairs_view(not_created@)) == imports_fold(ev.take(i as int), blobs@, lv, now),
        decreases request.emails.len() - i,
    {
        proof {
            assert(ev.take(i + 1).drop_last() =~= ev.take(i as int));
            assert(ev.take(i + 1)[i as int] == ev[i as int]);
            assert(lv[i as int] == lookups@[i as int]@);
        }
        match import_one(&request.emails[i].1, blobs, &lookups[i], now) {
            Ok(e) => {
                vput_exec(&mut created, request.emails[i].0.clone(), e);
            },
            Err(err) => {
                vput_exec(&mut not_created, request.emails[i].0.clone(), err);
            },
        }
        i = i + 1;
    }
    proof {
        assert(ev.take(request.emails@.len() as int) =~= ev);
    }
    let new_state = u64_to_decimal(now as u64);
    Ok(
        EmailImportResponse {
            account_id: request.account_id.clone(),
            old_state,
            new_state,
            created: nonempty_vec(created),
            not_created: nonempty_vec(not_created),
        },
    )
}

/// `Email/import` at the current time.
pub fn email_import(request: EmailImportRequest, principal: &crate::types::Principal, blobs: &BlobStorage, lookups: &Vec<ImportLookup>) -> (r: Result<EmailImportResponse, String>)
    requires
        lookups@.len() >= request.emails@.len(),
        lookups_readable(import_lookups_view(lookups@)),
    ensures
        principal.account_id@ != request.account_id@ ==> r is Err && r->Err_0@ == forbidden_text(
            request.account_id@,
            principal.account_id@,
        ),
        principal.account_id@ == request.account_id@ ==> r is Ok && r->Ok_0.account_id@ == request.account_id@
            && exists|now: i64| ({
            let (c, nc) = #[trigger] imports_fold(pairs_view(request.emails@), blobs@, import_lookups_view(lookups@), now);
            &&& r->Ok_0.old_state@ == unsigned_time_text(now)
            &&& r->Ok_0.new_state@ == unsigned_time_text(now)
            &&& opt_pairs_view(r->Ok_0.created) == nonempty(c)
            &&& opt_pairs_view(r->Ok_0.not_created) == nonempty(nc)
        }),
{
    let now = now_timestamp();
    let ghost req = request;
    let r = email_import_with(request, principal, blobs, lookups, now);
    proof {
        let _ = imports_fold(pairs_view(req.emails@), blobs@, import_lookups_view(lookups@), now);
    }
    r
}

/// In `Email/import`, every message is answered exactly once, under its
/// creation id, by `import_result`: the checks come in the order blob,
/// RFC 5322 separator, MIME parse, mailboxes, store, and the first that
/// fails gives the error. Creation ids are distinct, as the keys of the
/// request's `emails` map are.
pub proof fn law_each_import_answered(
    entries: Seq<(Seq<char>, ImportContent)>,
    blobs: StorageContent,
    lookups: Seq<ImportLookupContent>,
    now: i64,
)
    requires
        crate::maps::keys_distinct(entries),
    ensures
        forall|k: int|
            0 <= k < entries.len() ==> answered_as(
                imports_fold(entries, blobs, lookups, now).0,
                imports_fold(entries, blobs, lookups, now).1,
                (#[trigger] entries[k]).0,
                import_result(entries[k].1, blobs, lookups[k], now),
            ),
    decreases entries.len(),
{
    if entries.len() > 0 {
        let n = entries.len() - 1;
        let d = entries.drop_last();
        let cid = entries[n].0;
        assert(crate::maps::keys_distinct(d)) by {
            assert forall|i: int, j: int| 0 <= i < j < d.len() implies #[trigger] d[i].0 != #[trigger] d[j].0 by {
                assert(d[i] == entries[i] && d[j] == entries[j]);
            }
        }
        law_each_import_answered(d, blobs, lookups, now);
        lemma_imports_untouched(d, blobs, lookups, now, cid);
        let (c, nc) = imports_fold(d, blobs, lookups, now);
        let a = import_result(entries[n].1, blobs, lookups[n], now);
        assert forall|k: int| 0 <= k < entries.len() implies answered_as(
            imports_fold(entries, blobs, lookups, now).0,
            imports_fold(entries, blobs, lookups, now).1,
            (#[trigger] entries[k]).0,
            import_result(entries[k].1, blobs, lookups[k], now),
        ) by {
            let q = entries[k].0;
            match a {
                Ok(e) => lemma_vput(c, cid, e, q),
                Err(err) => lemma_vput(nc, cid, err, q),
            }
            if k < n {
                assert(d[k] == entries[k]);
                assert(q != cid);
            }
        }
    }
}

proof fn lemma_imports_untouched(
    entries: Seq<(Seq<char>, ImportContent)>,
    blobs: StorageContent,
    lookups: Seq<ImportLookupContent>,
    now: i64,
    q: Seq<char>,
)
    requires
        forall|j: int| 0 <= j < entries.len() ==> (#[trigger] entries[j]).0 != q,
    ensures
        vget(imports_fold(entries, blobs, lookups, now).0, q) is None,
        vget(imports_fold(entries, blobs, lookups, now).1, q) is None,
    decreases entries.len(),
{
    if entries.len() > 0 {
        let n = entries.len() - 1;
        let d = entries.drop_last();
        assert forall|j: int| 0 <= j < d.len() implies (#[trigger] d[j]).0 != q by {
            assert(d[j] == entries[j]);
        }
        lemma_imports_untouched(d, blobs, lookups, now, q);
        let (c, nc) = imports_fold(d, blobs, lookups, now);
        assert(entries[n].0 != q);
        match import_result(entries[n].1, blobs, lookups[n], now) {
            Ok(e) => lemma_vput(c, entries[n].0, e, q),
            Err(err) => lemma_vput(nc, entries[n].0, err, q),
        }
    } else {
        assert(vget(Seq::<(Seq<char>, EmailContent)>::empty(), q) is None);
        assert(vget(Seq::<(Seq<char>, SetErrorView)>::empty(), q) is None);
    }
}

} // verus!
