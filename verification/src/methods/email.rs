//! Email objects (RFC 8621 §4): message flags and keywords, reading
//! addresses and dates from headers, and the parts of `Email/get`,
//! `Email/set` and `Email/query` that decide.
use vstd::prelude::*;

use crate::outside::{is_uuid, rfc2822_date, rfc2822_representable, rfc2822_text, ascii_lowercase_text, is_ascii_text, lowercase, parse_rfc2822, rfc2822_instant, to_lowercase, uuid_parses};
use crate::text::{
    chars_of, chars_range, find_char, index_of, last_index_of, split_on, split_on_exec, str_eq, string_from, string_of,
    strings_view, trim_chars, trim_ws,
};
use crate::json::{get_member, jm, jm_entries, lemma_jm_entries, member, obj_lookup, JModel, JsonValue};
use crate::maps::{lemma_pairs_view_len, nonempty, nonempty_vec, opt_pairs_view, pairs_view, vget, vlookup, vput, vput_exec};
use crate::methods::identity::forbidden_text;
use crate::methods::{ensure_account_ownership, forbidden_message};
use crate::text::{concat, contains_str, has_substring, seq_starts_with, starts_with_chars};
use crate::types::{
    opt_texts, addresses_view, flag_map_view, opt_addresses_view, AddressView, Email, EmailAddress, EmailBodyPart,
    EmailBodyValue, EmailContent, EmailFilterCondition, EmailSort, JmapSetError, SetErrorView, opt_chars,
};

verus! {

// ── Message flags ───────────────────────────────────────────────────────────

/// The flags a message store keeps for a message: the system flags and
/// custom keywords.
#[derive(Debug)]
pub struct MessageFlags {
    pub seen: bool,
    pub answered: bool,
    pub flagged: bool,
    pub deleted: bool,
    pub draft: bool,
    pub custom: Vec<String>,
}

/// The content of message flags.
pub struct FlagsContent {
    pub seen: bool,
    pub answered: bool,
    pub flagged: bool,
    pub deleted: bool,
    pub draft: bool,
    pub custom: Seq<Seq<char>>,
}

impl View for MessageFlags {
    type V = FlagsContent;

    open spec fn view(&self) -> FlagsContent {
        FlagsContent {
            seen: self.seen,
            answered: self.answered,
            flagged: self.flagged,
            deleted: self.deleted,
            draft: self.draft,
            custom: strings_view(self.custom@),
        }
    }
}

/// No flag set.
pub open spec fn no_flags() -> FlagsContent {
    FlagsContent { seen: false, answered: false, flagged: false, deleted: false, draft: false, custom: seq![] }
}

/// Flags with a custom keyword added (kept once).
pub open spec fn with_custom(f: FlagsContent, k: Seq<char>) -> FlagsContent {
    if f.custom.contains(k) {
        f
    } else {
        FlagsContent { custom: f.custom.push(k), ..f }
    }
}

/// Everything but `k`.
pub open spec fn other_than(k: Seq<char>) -> spec_fn(Seq<char>) -> bool {
    |c: Seq<char>| c != k
}

/// Flags with a custom keyword removed.
pub open spec fn without_custom(f: FlagsContent, k: Seq<char>) -> FlagsContent {
    FlagsContent { custom: f.custom.filter(other_than(k)), ..f }
}

impl MessageFlags {
    /// No flag set.
    pub fn new() -> (r: Self)
        ensures
            r@ == no_flags(),
    {
        let r = MessageFlags { seen: false, answered: false, flagged: false, deleted: false, draft: false, custom: Vec::new() };
        assert(strings_view(r.custom@) =~= Seq::<Seq<char>>::empty());
        r
    }

    /// Adds a custom keyword, once.
    pub fn add_custom(&mut self, k: String)
        ensures
            final(self)@ == with_custom(old(self)@, k@),
    {
        if !crate::methods::email_query_helpers::contains_id(self.custom.as_slice(), k.as_str()) {
            let ghost before = self.custom@;
            let ghost kv = k@;
            self.custom.push(k);
            proof {
                assert(strings_view(self.custom@) =~= strings_view(before).push(kv));
            }
        }
    }

    /// Removes a custom keyword.
    pub fn remove_custom(&mut self, k: &str)
        ensures
            final(self)@ == without_custom(old(self)@, k@),
    {
        let ghost orig = strings_view(self.custom@);
        let mut kept: Vec<String> = Vec::new();
        let mut i: usize = 0;
        proof {
            reveal(Seq::filter);
            assert(orig.take(0).filter(other_than(k@)) =~= Seq::<Seq<char>>::empty());
            assert(strings_view(kept@) =~= Seq::<Seq<char>>::empty());
        }
        while i < self.custom.len()
            invariant
                i <= self.custom@.len(),
                orig == strings_view(self.custom@),
                strings_view(kept@) == orig.take(i as int).filter(other_than(k@)),
            decreases self.custom.len() - i,
        {
            proof {
                assert(orig.take(i + 1).drop_last() =~= orig.take(i as int));
                assert(orig.take(i + 1).last() == orig[i as int]);
                assert(orig[i as int] == self.custom@[i as int]@);
                let t = orig.take(i + 1);
                reveal(Seq::filter);
                assert(t.filter(other_than(k@)) == (if other_than(k@)(t.last()) {
                    t.drop_last().filter(other_than(k@)).push(t.last())
                } else {
                    t.drop_last().filter(other_than(k@))
                }));
            }
            if !str_eq(self.custom[i].as_str(), k) {
                let ghost before = kept@;
                kept.push(self.custom[i].clone());
                proof {
                    assert(strings_view(kept@) =~= strings_view(before).push(self.custom@[i as int]@));
                }
            }
            i = i + 1;
        }
        proof {
            assert(orig.take(orig.len() as int) =~= orig);
        }
        self.custom = kept;
    }
}

// ── Headers ─────────────────────────────────────────────────────────────────

/// The values of the first header named `name` (compared after lower-casing
/// the header's name).
pub open spec fn header_values(headers: Seq<(Seq<char>, Seq<Seq<char>>)>, name: Seq<char>) -> Option<Seq<Seq<char>>>
    decreases headers.len(),
{
    if headers.len() == 0 {
        None
    } else if lowercase(headers[0].0) == name {
        Some(headers[0].1)
    } else {
        header_values(headers.drop_first(), name)
    }
}

/// The first value of the first header named `name`.
pub open spec fn header_first(headers: Seq<(Seq<char>, Seq<Seq<char>>)>, name: Seq<char>) -> Option<Seq<char>> {
    match header_values(headers, name) {
        Some(v) => if v.len() > 0 {
            Some(v[0])
        } else {
            None
        },
        None => None,
    }
}

/// The content of a message's headers.
pub open spec fn header_list_view(h: Seq<(String, Vec<String>)>) -> Seq<(Seq<char>, Seq<Seq<char>>)> {
    h.map_values(|p: (String, Vec<String>)| (p.0@, strings_view(p.1@)))
}

/// The index of the first header named `name`.
pub fn find_header(headers: &Vec<(String, Vec<String>)>, name: &str) -> (r: Option<usize>)
    ensures
        match r {
            Some(i) => i < headers@.len() && header_values(header_list_view(headers@), name@) == Some(
                strings_view(headers@[i as int].1@),
            ),
            None => header_values(header_list_view(headers@), name@) is None,
        },
{
    let ghost hv = header_list_view(headers@);
    let mut i: usize = 0;
    assert(hv.skip(0) =~= hv);
    while i < headers.len()
        invariant
            i <= headers@.len(),
            hv == header_list_view(headers@),
            header_values(hv, name@) == header_values(hv.skip(i as int), name@),
        decreases headers.len() - i,
    {
        let ghost rest = hv.skip(i as int);
        assert(rest[0] == (headers@[i as int].0@, strings_view(headers@[i as int].1@)));
        let lc = to_lowercase(headers[i].0.as_str());
        if str_eq(lc.as_str(), name) {
            return Some(i);
        }
        assert(rest.drop_first() =~= hv.skip(i + 1));
        i = i + 1;
    }
    assert(hv.skip(i as int).len() == 0);
    None
}

/// The first value of the first header named `name`.
pub fn get_first_header(headers: &Vec<(String, Vec<String>)>, name: &str) -> (r: Option<String>)
    ensures
        match r {
            Some(v) => header_first(header_list_view(headers@), name@) == Some(v@),
            None => header_first(header_list_view(headers@), name@) is None,
        },
{
    match find_header(headers, name) {
        Some(i) => {
            if headers[i].1.len() > 0 {
                assert(strings_view(headers@[i as int].1@)[0] == headers@[i as int].1@[0]@);
                Some(headers[i].1[0].clone())
            } else {
                None
            }
        },
        None => None,
    }
}

// ── Addresses ───────────────────────────────────────────────────────────────

/// `s` without leading and trailing `"` characters.
pub open spec fn trim_quotes(s: Seq<char>) -> Seq<char>
    decreases s.len(),
{
    if s.len() > 0 && s[0] == '"' {
        trim_quotes(s.drop_first())
    } else if s.len() > 0 && s.last() == '"' {
        trim_quotes(s.drop_last())
    } else {
        s
    }
}

/// Whether reading a token would cut its text between a `<` and an earlier
/// `>`.
pub open spec fn reversed_brackets(t: Seq<char>) -> bool {
    match (index_of(t, '<'), index_of(t, '>')) {
        (Some(start), Some(end)) => end <= start,
        _ => false,
    }
}

/// The address in one trimmed, non-empty token: `Name <addr>` gives the
/// name (without quotes, absent when empty) and the address; anything else
/// is an address.
pub open spec fn token_to_address(t: Seq<char>) -> AddressView {
    match (index_of(t, '<'), index_of(t, '>')) {
        (Some(start), Some(end)) => {
            let name = trim_quotes(trim_ws(t.subrange(0, start)));
            AddressView {
                name: if name.len() == 0 {
                    None
                } else {
                    Some(name)
                },
                email: trim_ws(t.subrange(start + 1, end)),
            }
        },
        _ => AddressView { name: None, email: t },
    }
}

/// The addresses of a header value: its comma-separated tokens, trimmed,
/// with the empty ones skipped.
pub open spec fn tokens_to_addresses(tokens: Seq<Seq<char>>) -> Seq<AddressView>
    decreases tokens.len(),
{
    if tokens.len() == 0 {
        seq![]
    } else if trim_ws(tokens.last()).len() == 0 {
        tokens_to_addresses(tokens.drop_last())
    } else {
        tokens_to_addresses(tokens.drop_last()).push(token_to_address(trim_ws(tokens.last())))
    }
}

/// Whether some token of a header value has its `>` before its `<`.
pub open spec fn value_has_reversed_brackets(value: Seq<char>) -> bool {
    exists|i: int| 0 <= i < split_on(value, ',').len() && #[trigger] reversed_brackets(trim_ws(split_on(value, ',')[i]))
}

fn trim_quote_chars(s: &Vec<char>) -> (r: Vec<char>)
    ensures
        r@ == trim_quotes(s@),
    decreases s@.len(),
{
    if s.len() > 0 && s[0] == '"' {
        let rest = crate::text::chars_skip(s, 1);
        assert(rest@ =~= s@.drop_first());
        trim_quote_chars(&rest)
    } else if s.len() > 0 && s[s.len() - 1] == '"' {
        let rest = chars_range(s, 0, s.len() - 1);
        assert(rest@ =~= s@.drop_last());
        trim_quote_chars(&rest)
    } else {
        let mut out: Vec<char> = Vec::new();
        let mut i: usize = 0;
        while i < s.len()
            invariant
                i <= s@.len(),
                out@ == s@.take(i as int),
            decreases s.len() - i,
        {
            out.push(s[i]);
            assert(s@.take(i + 1) =~= s@.take(i as int).push(s@[i as int]));
            i = i + 1;
        }
        assert(s@.take(s@.len() as int) =~= s@);
        out
    }
}

fn address_of_token(t: &Vec<char>) -> (r: EmailAddress)
    requires
        !reversed_brackets(t@),
    ensures
        r@ == token_to_address(t@),
{
    match (find_char(t, '<'), find_char(t, '>')) {
        (Some(start), Some(end)) => {
            let before = chars_range(t, 0, start);
            let name = trim_quote_chars(&trim_chars(&before));
            let inner = chars_range(t, start + 1, end);
            let email = trim_chars(&inner);
            EmailAddress {
                name: if name.len() == 0 {
                    None
                } else {
                    Some(string_of(name.as_slice()))
                },
                email: string_of(email.as_slice()),
            }
        },
        _ => EmailAddress::new(string_of(t.as_slice())),
    }
}

/// The addresses of a header value.
pub fn parse_address_list(value: &str) -> (r: Vec<EmailAddress>)
    requires
        !value_has_reversed_brackets(value@),
    ensures
        addresses_view(r@) == tokens_to_addresses(split_on(value@, ',')),
{
    let c = chars_of(value);
    let tokens = split_on_exec(&c, ',');
    let ghost tv = split_on(value@, ',');
    let mut out: Vec<EmailAddress> = Vec::new();
    let mut i: usize = 0;
    proof {
        assert(tv.take(0) =~= Seq::<Seq<char>>::empty());
        assert(addresses_view(out@) =~= Seq::<AddressView>::empty());
    }
    while i < tokens.len()
        invariant
            i <= tokens@.len(),
            tokens@.len() == tv.len(),
            tv == split_on(value@, ','),
            !value_has_reversed_brackets(value@),
            forall|j: int| 0 <= j < tokens@.len() ==> #[trigger] tokens@[j]@ == tv[j],
            addresses_view(out@) == tokens_to_addresses(tv.take(i as int)),
        decreases tokens.len() - i,
    {
        proof {
            assert(tv.take(i + 1).drop_last() =~= tv.take(i as int));
            assert(tv.take(i + 1).last() == tv[i as int]);
        }
        let t = trim_chars(&tokens[i]);
        if t.len() > 0 {
            proof {
                assert(!reversed_brackets(trim_ws(tv[i as int])));
            }
            let a = address_of_token(&t);
            let ghost before = out@;
            let ghost av = a@;
            out.push(a);
            proof {
                assert(addresses_view(out@) =~= addresses_view(before).push(av));
            }
        }
        i = i + 1;
    }
    proof {
        assert(tv.take(tokens@.len() as int) =~= tv);
    }
    out
}

/// Whether the first value of header `name` could not be read without
/// cutting between a `<` and an earlier `>`.
pub open spec fn header_has_reversed_brackets(headers: Seq<(Seq<char>, Seq<Seq<char>>)>, name: Seq<char>) -> bool {
    match header_first(headers, name) {
        Some(v) => value_has_reversed_brackets(v),
        None => false,
    }
}

/// The addresses of the first value of header `name`, if there is one.
pub open spec fn header_addresses_of(headers: Seq<(Seq<char>, Seq<Seq<char>>)>, name: Seq<char>) -> Option<Seq<AddressView>> {
    match header_first(headers, name) {
        Some(v) => Some(tokens_to_addresses(split_on(v, ','))),
        None => None,
    }
}

/// The addresses of the first value of header `name`, if there is one.
pub fn parse_email_addresses(headers: &Vec<(String, Vec<String>)>, header_name: &str) -> (r: Option<Vec<EmailAddress>>)
    requires
        !header_has_reversed_brackets(header_list_view(headers@), header_name@),
    ensures
        crate::types::opt_addresses_view(r) == header_addresses_of(header_list_view(headers@), header_name@),
{
    match get_first_header(headers, header_name) {
        Some(v) => Some(parse_address_list(v.as_str())),
        None => None,
    }
}

/// Whether some token of a header value has its `>` before its `<`.
pub fn has_reversed_brackets(value: &str) -> (r: bool)
    ensures
        r == value_has_reversed_brackets(value@),
{
    let c = chars_of(value);
    let tokens = split_on_exec(&c, ',');
    let ghost tv = split_on(value@, ',');
    let mut i: usize = 0;
    while i < tokens.len()
        invariant
            i <= tokens@.len(),
            tokens@.len() == tv.len(),
            tv == split_on(value@, ','),
            forall|j: int| 0 <= j < tokens@.len() ==> #[trigger] tokens@[j]@ == tv[j],
            forall|j: int| 0 <= j < i ==> !#[trigger] reversed_brackets(trim_ws(tv[j])),
        decreases tokens.len() - i,
    {
        let t = trim_chars(&tokens[i]);
        let found = match (find_char(&t, '<'), find_char(&t, '>')) {
            (Some(start), Some(end)) => end <= start,
            _ => false,
        };
        if found {
            assert(reversed_brackets(trim_ws(tv[i as int])));
            return true;
        }
        i = i + 1;
    }
    false
}

/// Whether the first value of header `name` has a token with its `>` before
/// its `<`.
pub fn header_has_reversed(headers: &Vec<(String, Vec<String>)>, name: &str) -> (r: bool)
    ensures
        r == header_has_reversed_brackets(header_list_view(headers@), name@),
{
    match get_first_header(headers, name) {
        Some(v) => has_reversed_brackets(v.as_str()),
        None => false,
    }
}

/// Whether every address header of a message can be read (see
/// `addresses_readable`).
pub fn addresses_are_readable(headers: &Vec<(String, Vec<String>)>) -> (r: bool)
    ensures
        r == addresses_readable(header_list_view(headers@)),
{
    !header_has_reversed(headers, "from") && !header_has_reversed(headers, "to") && !header_has_reversed(
        headers,
        "cc",
    ) && !header_has_reversed(headers, "bcc") && !header_has_reversed(headers, "reply-to")
        && !header_has_reversed(headers, "sender")
}

/// The instant of a `Date` header value, in milliseconds since the Unix
/// epoch, when it is an RFC 2822 date.
pub open spec fn date_of(date: Option<Seq<char>>) -> Option<i64> {
    match date {
        Some(s) => rfc2822_instant(s),
        None => None,
    }
}

/// The instant of a `Date` header value.
pub fn parse_date_header(date_str: Option<&str>) -> (r: Option<i64>)
    ensures
        r == date_of(
            match date_str {
                Some(s) => Some(s@),
                None => None,
            },
        ),
{
    match date_str {
        Some(s) => parse_rfc2822(s),
        None => None,
    }
}


// ── Keywords ────────────────────────────────────────────────────────────────

/// The keywords of message flags: each system flag that is set, in the
/// order seen, answered, flagged, deleted, draft.
pub open spec fn keywords_of(f: FlagsContent) -> Seq<(Seq<char>, bool)> {
    let a: Seq<(Seq<char>, bool)> = if f.seen { seq![("$seen"@, true)] } else { seq![] };
    let b = if f.answered { a.push(("$answered"@, true)) } else { a };
    let c = if f.flagged { b.push(("$flagged"@, true)) } else { b };
    let d = if f.deleted { c.push(("$deleted"@, true)) } else { c };
    if f.draft { d.push(("$draft"@, true)) } else { d }
}

fn push_flag(v: &mut Vec<(String, bool)>, k: &str)
    ensures
        flag_map_view(final(v)@) == flag_map_view(old(v)@).push((k@, true)),
{
    let ghost before = v@;
    v.push((string_from(k), true));
    assert(flag_map_view(v@) =~= flag_map_view(before).push((k@, true)));
}

/// The keywords of message flags.
pub fn flags_to_keywords(flags: &MessageFlags) -> (r: Vec<(String, bool)>)
    ensures
        flag_map_view(r@) == keywords_of(flags@),
{
    let mut kw: Vec<(String, bool)> = Vec::new();
    assert(flag_map_view(kw@) =~= Seq::<(Seq<char>, bool)>::empty());
    if flags.seen {
        push_flag(&mut kw, "$seen");
    }
    if flags.answered {
        push_flag(&mut kw, "$answered");
    }
    if flags.flagged {
        push_flag(&mut kw, "$flagged");
    }
    if flags.deleted {
        push_flag(&mut kw, "$deleted");
    }
    if flags.draft {
        push_flag(&mut kw, "$draft");
    }
    kw
}

/// The keywords of message flags (RFC 8621 §4.1.1).
pub fn jmap_keywords_from_flags(flags: &MessageFlags) -> (r: Vec<(String, bool)>)
    ensures
        flag_map_view(r@) == keywords_of(flags@),
{
    flags_to_keywords(flags)
}

/// Flags after one keyword is set on (compared after lower-casing): the
/// system keywords set their flag, others are kept as custom keywords.
pub open spec fn set_keyword(f: FlagsContent, lower: Seq<char>) -> FlagsContent {
    if lower == "$seen"@ {
        FlagsContent { seen: true, ..f }
    } else if lower == "$answered"@ {
        FlagsContent { answered: true, ..f }
    } else if lower == "$flagged"@ {
        FlagsContent { flagged: true, ..f }
    } else if lower == "$deleted"@ {
        FlagsContent { deleted: true, ..f }
    } else if lower == "$draft"@ {
        FlagsContent { draft: true, ..f }
    } else {
        with_custom(f, lower)
    }
}

/// The flags of a keyword map: every keyword that is on, in order.
pub open spec fn flags_of_keywords(keywords: Seq<(Seq<char>, bool)>) -> FlagsContent
    decreases keywords.len(),
{
    if keywords.len() == 0 {
        no_flags()
    } else if keywords.last().1 {
        set_keyword(flags_of_keywords(keywords.drop_last()), lowercase(keywords.last().0))
    } else {
        flags_of_keywords(keywords.drop_last())
    }
}

fn apply_keyword_on(flags: &mut MessageFlags, lower: String)
    ensures
        final(flags)@ == set_keyword(old(flags)@, lower@),
{
    if str_eq(lower.as_str(), "$seen") {
        flags.seen = true;
    } else if str_eq(lower.as_str(), "$answered") {
        flags.answered = true;
    } else if str_eq(lower.as_str(), "$flagged") {
        flags.flagged = true;
    } else if str_eq(lower.as_str(), "$deleted") {
        flags.deleted = true;
    } else if str_eq(lower.as_str(), "$draft") {
        flags.draft = true;
    } else {
        flags.add_custom(lower);
    }
}

/// The flags of a keyword map.
pub fn keywords_to_flags(keywords: &Vec<(String, bool)>) -> (r: MessageFlags)
    ensures
        r@ == flags_of_keywords(flag_map_view(keywords@)),
{
    let ghost kv = flag_map_view(keywords@);
    let mut flags = MessageFlags::new();
    let mut i: usize = 0;
    assert(kv.take(0) =~= Seq::<(Seq<char>, bool)>::empty());
    while i < keywords.len()
        invariant
            i <= keywords@.len(),
            kv == flag_map_view(keywords@),
            flags@ == flags_of_keywords(kv.take(i as int)),
        decreases keywords.len() - i,
    {
        proof {
            assert(kv.take(i + 1).drop_last() =~= kv.take(i as int));
            assert(kv.take(i + 1).last() == (keywords@[i as int].0@, keywords@[i as int].1));
        }
        if keywords[i].1 {
            let lower = to_lowercase(keywords[i].0.as_str());
            apply_keyword_on(&mut flags, lower);
        }
        i = i + 1;
    }
    assert(kv.take(keywords@.len() as int) =~= kv);
    flags
}

/// The boolean members of a keyword object, in order.
pub open spec fn bool_members(e: Seq<(Seq<char>, JModel)>) -> Seq<(Seq<char>, bool)>
    decreases e.len(),
{
    if e.len() == 0 {
        seq![]
    } else {
        match e.last().1 {
            JModel::Bool(b) => bool_members(e.drop_last()).push((e.last().0, b)),
            _ => bool_members(e.drop_last()),
        }
    }
}

/// Flags after one `/keywords/<name>` patch: system keywords set their
/// flag to the value, others are added or removed as custom keywords.
pub open spec fn patch_keyword(f: FlagsContent, lower: Seq<char>, active: bool) -> FlagsContent {
    if lower == "$seen"@ {
        FlagsContent { seen: active, ..f }
    } else if lower == "$answered"@ {
        FlagsContent { answered: active, ..f }
    } else if lower == "$flagged"@ {
        FlagsContent { flagged: active, ..f }
    } else if lower == "$deleted"@ {
        FlagsContent { deleted: active, ..f }
    } else if lower == "$draft"@ {
        FlagsContent { draft: active, ..f }
    } else if active {
        with_custom(f, lower)
    } else {
        without_custom(f, lower)
    }
}

/// The per-keyword patches of a patch object applied in order, with
/// whether any applied.
pub open spec fn keyword_patches(f: FlagsContent, e: Seq<(Seq<char>, JModel)>) -> (FlagsContent, bool)
    decreases e.len(),
{
    if e.len() == 0 {
        (f, false)
    } else {
        let (g, changed) = keyword_patches(f, e.drop_last());
        let path = e.last().0;
        if seq_starts_with(path, "/keywords/"@) {
            let name = path.skip(10);
            let active = match e.last().1 {
                JModel::Bool(b) => b,
                _ => false,
            };
            (patch_keyword(g, lowercase(name), active), true)
        } else {
            (g, changed)
        }
    }
}

/// Flags after a patch, with whether the keywords changed: a `keywords`
/// member that is an object replaces them all (its boolean members count);
/// any other `keywords` member leaves them; otherwise each
/// `/keywords/<name>` member patches one keyword.
pub open spec fn keyword_patch_result(current: FlagsContent, patch: JModel) -> (FlagsContent, bool) {
    match patch {
        JModel::Object(e) => match obj_lookup(e, "keywords"@) {
            Some(JModel::Object(kw)) => (flags_of_keywords(bool_members(kw)), true),
            Some(_) => (current, false),
            None => keyword_patches(current, e),
        },
        _ => (current, false),
    }
}

fn bool_members_exec(e: &Vec<(String, JsonValue)>) -> (r: Vec<(String, bool)>)
    ensures
        flag_map_view(r@) == bool_members(jm_entries(e@)),
{
    let ghost ev = jm_entries(e@);
    proof {
        lemma_jm_entries(e@);
    }
    let mut out: Vec<(String, bool)> = Vec::new();
    let mut i: usize = 0;
    assert(ev.take(0) =~= Seq::<(Seq<char>, JModel)>::empty());
    assert(flag_map_view(out@) =~= Seq::<(Seq<char>, bool)>::empty());
    while i < e.len()
        invariant
            i <= e@.len(),
            ev == jm_entries(e@),
            ev.len() == e@.len(),
            forall|j: int| 0 <= j < e@.len() ==> #[trigger] ev[j] == (e@[j].0@, jm(e@[j].1)),
            flag_map_view(out@) == bool_members(ev.take(i as int)),
        decreases e.len() - i,
    {
        proof {
            assert(ev.take(i + 1).drop_last() =~= ev.take(i as int));
            assert(ev.take(i + 1).last() == ev[i as int]);
        }
        match &e[i].1 {
            JsonValue::Bool(b) => {
                let ghost before = out@;
                out.push((e[i].0.clone(), *b));
                proof {
                    assert(flag_map_view(out@) =~= flag_map_view(before).push((e@[i as int].0@, *b)));
                }
            },
            _ => {},
        }
        i = i + 1;
    }
    assert(ev.take(e@.len() as int) =~= ev);
    out
}

fn patch_keyword_exec(flags: &mut MessageFlags, lower: String, active: bool)
    ensures
        final(flags)@ == patch_keyword(old(flags)@, lower@, active),
{
    if str_eq(lower.as_str(), "$seen") {
        flags.seen = active;
    } else if str_eq(lower.as_str(), "$answered") {
        flags.answered = active;
    } else if str_eq(lower.as_str(), "$flagged") {
        flags.flagged = active;
    } else if str_eq(lower.as_str(), "$deleted") {
        flags.deleted = active;
    } else if str_eq(lower.as_str(), "$draft") {
        flags.draft = active;
    } else if active {
        flags.add_custom(lower);
    } else {
        flags.remove_custom(lower.as_str());
    }
}

/// Applies the keyword part of an `Email/set` patch to a message's flags;
/// also says whether the keywords changed.
pub fn apply_keyword_patch(current: MessageFlags, patch: &JsonValue) -> (r: (MessageFlags, bool))
    ensures
        (r.0@, r.1) == keyword_patch_result(current@, jm(*patch)),
{
    let entries = match patch {
        JsonValue::Object(e) => e,
        _ => {
            return (current, false);
        },
    };
    match crate::json::obj_get(entries, "keywords") {
        Some(JsonValue::Object(kw)) => {
            let converted = bool_members_exec(kw);
            return (keywords_to_flags(&converted), true);
        },
        Some(_) => {
            return (current, false);
        },
        None => {},
    }
    let ghost ev = jm_entries(entries@);
    proof {
        lemma_jm_entries(entries@);
        assert(ev.take(0) =~= Seq::<(Seq<char>, JModel)>::empty());
    }
    let mut flags = current;
    let ghost f0 = flags@;
    let mut changed = false;
    let prefix = chars_of("/keywords/");
    proof {
        reveal_strlit("/keywords/");
    }
    let mut i: usize = 0;
    while i < entries.len()
        invariant
            i <= entries@.len(),
            ev == jm_entries(entries@),
            ev.len() == entries@.len(),
            prefix@ == "/keywords/"@,
            prefix@.len() == 10,
            forall|j: int| 0 <= j < entries@.len() ==> #[trigger] ev[j] == (entries@[j].0@, jm(entries@[j].1)),
            (flags@, changed) == keyword_patches(f0, ev.take(i as int)),
        decreases entries.len() - i,
    {
        proof {
            assert(ev.take(i + 1).drop_last() =~= ev.take(i as int));
            assert(ev.take(i + 1).last() == ev[i as int]);
        }
        let path = chars_of(entries[i].0.as_str());
        if starts_with_chars(&path, &prefix) {
            let name = crate::text::chars_skip(&path, 10);
            let active = match &entries[i].1 {
                JsonValue::Bool(b) => *b,
                _ => false,
            };
            let lower = to_lowercase(string_of(name.as_slice()).as_str());
            patch_keyword_exec(&mut flags, lower, active);
            changed = true;
        }
        i = i + 1;
    }
    assert(ev.take(entries@.len() as int) =~= ev);
    (flags, changed)
}

// ── Building a message from Email/set ───────────────────────────────────────

/// An email to be created by `Email/set`. Times are milliseconds since the
/// Unix epoch.
#[derive(Debug)]
pub struct EmailSetObject {
    pub mailbox_ids: Vec<(String, bool)>,
    pub keywords: Option<Vec<(String, bool)>>,
    pub from: Option<Vec<EmailAddress>>,
    pub to: Option<Vec<EmailAddress>>,
    pub cc: Option<Vec<EmailAddress>>,
    pub bcc: Option<Vec<EmailAddress>>,
    pub reply_to: Option<Vec<EmailAddress>>,
    pub sender: Option<Vec<EmailAddress>>,
    pub subject: Option<String>,
    pub sent_at: Option<i64>,
    pub message_id: Option<Vec<String>>,
    pub in_reply_to: Option<Vec<String>>,
    pub references: Option<Vec<String>>,
    pub body_values: Option<Vec<(String, EmailBodyValue)>>,
    pub text_body: Option<Vec<EmailBodyPart>>,
}

/// The text of the given parts, each looked up in the body values, in order.
pub open spec fn body_text_of(values: Seq<(Seq<char>, Seq<char>)>, parts: Seq<Seq<char>>) -> Seq<char>
    decreases parts.len(),
{
    if parts.len() == 0 {
        seq![]
    } else {
        body_text_of(values, parts.drop_last()) + match vget(values, parts.last()) {
            Some(v) => v,
            None => seq![],
        }
    }
}

/// The values of a body-value map as text.
pub open spec fn body_value_texts(s: Seq<(String, EmailBodyValue)>) -> Seq<(Seq<char>, Seq<char>)> {
    s.map_values(|p: (String, EmailBodyValue)| (p.0@, p.1.value@))
}

/// The plain-text body of an email to create: the text body parts looked up
/// in the body values; empty when either is missing.
pub open spec fn body_text(obj: EmailSetObject) -> Seq<char> {
    match (obj.body_values, obj.text_body) {
        (Some(bv), Some(parts)) => body_text_of(
            body_value_texts(bv@),
            parts@.map_values(|p: EmailBodyPart| p.part_id@),
        ),
        _ => seq![],
    }
}

/// The plain-text body of an email to create.
pub fn build_body_text(email_obj: &EmailSetObject) -> (r: String)
    ensures
        r@ == body_text(*email_obj),
{
    let body_values = match &email_obj.body_values {
        Some(bv) => bv,
        None => {
            return String::new();
        },
    };
    let text_parts = match &email_obj.text_body {
        Some(parts) => parts,
        None => {
            return String::new();
        },
    };
    let ghost vt = body_value_texts(body_values@);
    let ghost ids = text_parts@.map_values(|p: EmailBodyPart| p.part_id@);
    let mut body = String::new();
    let mut i: usize = 0;
    assert(ids.take(0) =~= Seq::<Seq<char>>::empty());
    while i < text_parts.len()
        invariant
            i <= text_parts@.len(),
            vt == body_value_texts(body_values@),
            ids == text_parts@.map_values(|p: EmailBodyPart| p.part_id@),
            body@ == body_text_of(vt, ids.take(i as int)),
        decreases text_parts.len() - i,
    {
        proof {
            assert(ids.take(i + 1).drop_last() =~= ids.take(i as int));
            assert(ids.take(i + 1).last() == text_parts@[i as int].part_id@);
            crate::maps::lemma_vindex(vt, text_parts@[i as int].part_id@);
        }
        match value_of_part(body_values, text_parts[i].part_id.as_str()) {
            Some(v) => {
                body = concat(body.as_str(), v.as_str());
            },
            None => {
                proof {
                    reveal_strlit("");
                }
                assert(body@ + Seq::<char>::empty() =~= body@);
            },
        }
        i = i + 1;
    }
    assert(ids.take(text_parts@.len() as int) =~= ids);
    body
}

fn value_of_part(values: &Vec<(String, EmailBodyValue)>, part_id: &str) -> (r: Option<String>)
    ensures
        match r {
            Some(v) => vget(body_value_texts(values@), part_id@) == Some(v@),
            None => vget(body_value_texts(values@), part_id@) is None,
        },
{
    let ghost vt = body_value_texts(values@);
    let mut i: usize = 0;
    assert(vt.skip(0) =~= vt);
    while i < values.len()
        invariant
            i <= values@.len(),
            vt == body_value_texts(values@),
            vget(vt, part_id@) == vget(vt.skip(i as int), part_id@),
        decreases values.len() - i,
    {
        let ghost rest = vt.skip(i as int);
        assert(rest[0] == (values@[i as int].0@, values@[i as int].1.value@));
        if str_eq(values[i].0.as_str(), part_id) {
            return Some(values[i].1.value.clone());
        }
        assert(rest.drop_first() =~= vt.skip(i + 1));
        i = i + 1;
    }
    assert(vt.skip(i as int).len() == 0);
    None
}

/// One address as a header writes it: `"Name" <addr>`, or the bare address.
pub open spec fn address_text(a: AddressView) -> Seq<char> {
    match a.name {
        Some(n) => "\""@ + n + "\" <"@ + a.email + ">"@,
        None => a.email,
    }
}

/// Addresses as a header writes them, separated by `, `.
pub open spec fn addresses_text(s: Seq<AddressView>) -> Seq<char>
    decreases s.len(),
{
    if s.len() == 0 {
        seq![]
    } else if s.len() == 1 {
        address_text(s[0])
    } else {
        addresses_text(s.drop_last()) + ", "@ + address_text(s.last())
    }
}

/// Addresses as a header writes them.
pub fn format_addresses(addrs: &[EmailAddress]) -> (r: String)
    ensures
        r@ == addresses_text(addresses_view(addrs@)),
{
    let ghost av = addresses_view(addrs@);
    let mut out = String::new();
    let mut i: usize = 0;
    assert(av.take(0) =~= Seq::<AddressView>::empty());
    while i < addrs.len()
        invariant
            i <= addrs@.len(),
            av == addresses_view(addrs@),
            out@ == addresses_text(av.take(i as int)),
        decreases addrs.len() - i,
    {
        proof {
            assert(av.take(i + 1).drop_last() =~= av.take(i as int));
            assert(av.take(i + 1).last() == addrs@[i as int]@);
            assert(av.take(1)[0] == av[0]);
        }
        let one = match &addrs[i].name {
            Some(n) => {
                let a = concat("\"", n.as_str());
                let b = concat(a.as_str(), "\" <");
                let c = concat(b.as_str(), addrs[i].email.as_str());
                concat(c.as_str(), ">")
            },
            None => addrs[i].email.clone(),
        };
        if i == 0 {
            out = one;
        } else {
            let a = concat(out.as_str(), ", ");
            out = concat(a.as_str(), one.as_str());
        }
        i = i + 1;
    }
    assert(av.take(addrs@.len() as int) =~= av);
    out
}

// ── Errors ──────────────────────────────────────────────────────────────────

/// Why updating or destroying an email failed.
#[derive(Debug)]
pub enum EmailOpError {
    /// No message has the id.
    NotFound(String),
    /// Anything else, with its text.
    Other(String),
}

/// The text of an email operation error.
pub open spec fn op_error_text(e: EmailOpError) -> Seq<char> {
    match e {
        EmailOpError::NotFound(id) => "notFound: "@ + id@,
        EmailOpError::Other(m) => m@,
    }
}

/// The `/set` error for a failed update: `notFound`, `invalidArguments`
/// for a bad message or mailbox id, else `serverFail`.
pub open spec fn update_error(e: EmailOpError) -> SetErrorView {
    let t = op_error_text(e);
    SetErrorView {
        error_type: match e {
            EmailOpError::NotFound(_) => "notFound"@,
            EmailOpError::Other(m) => if has_substring(m@, "Invalid message ID"@) || has_substring(m@, "Invalid mailbox ID"@) {
                "invalidArguments"@
            } else {
                "serverFail"@
            },
        },
        description: Some(t),
    }
}

/// The `/set` error for a failed destroy: `notFound`, `invalidArguments`
/// for a bad message id, else `serverFail`.
pub open spec fn destroy_error(e: EmailOpError) -> SetErrorView {
    let t = op_error_text(e);
    SetErrorView {
        error_type: match e {
            EmailOpError::NotFound(_) => "notFound"@,
            EmailOpError::Other(m) => if has_substring(m@, "Invalid message ID"@) {
                "invalidArguments"@
            } else {
                "serverFail"@
            },
        },
        description: Some(t),
    }
}

fn op_text(err: &EmailOpError) -> (r: String)
    ensures
        r@ == op_error_text(*err),
{
    match err {
        EmailOpError::NotFound(id) => concat("notFound: ", id.as_str()),
        EmailOpError::Other(m) => m.clone(),
    }
}

/// The error type and description of a failed update.
pub fn classify_update_error(err: &EmailOpError) -> (r: (String, String))
    ensures
        (SetErrorView { error_type: r.0@, description: Some(r.1@) }) == update_error(*err),
{
    let d = op_text(err);
    let t = match err {
        EmailOpError::NotFound(_) => string_from("notFound"),
        EmailOpError::Other(m) => {
            if contains_str(m.as_str(), "Invalid message ID") || contains_str(m.as_str(), "Invalid mailbox ID") {
                string_from("invalidArguments")
            } else {
                string_from("serverFail")
            }
        },
    };
    (t, d)
}

/// The error type and description of a failed destroy.
pub fn classify_destroy_error(err: &EmailOpError) -> (r: (String, String))
    ensures
        (SetErrorView { error_type: r.0@, description: Some(r.1@) }) == destroy_error(*err),
{
    let d = op_text(err);
    let t = match err {
        EmailOpError::NotFound(_) => string_from("notFound"),
        EmailOpError::Other(m) => {
            if contains_str(m.as_str(), "Invalid message ID") {
                string_from("invalidArguments")
            } else {
                string_from("serverFail")
            }
        },
    };
    (t, d)
}

// ── Attachments ─────────────────────────────────────────────────────────────

/// Whether a message's headers show an attachment: a mixed or related
/// multipart body, an attachment disposition, or a named image, audio,
/// video or application part.
pub open spec fn shows_attachment(h: Seq<(Seq<char>, Seq<Seq<char>>)>) -> bool {
    let ct = header_first(h, "content-type"@);
    let cd = header_first(h, "content-disposition"@);
    let ctl = match ct { Some(c) => lowercase(c), None => seq![] };
    let cd_attach = match cd { Some(d) => has_substring(lowercase(d), "attachment"@), None => false };
    ||| (ct is Some && (has_substring(ctl, "multipart/mixed"@) || has_substring(ctl, "multipart/related"@)))
    ||| cd_attach
    ||| (ct is Some && (seq_starts_with(ctl, "image/"@) || seq_starts_with(ctl, "application/"@) || seq_starts_with(ctl, "audio/"@)
        || seq_starts_with(ctl, "video/"@)) && !has_substring(ctl, "multipart/alternative"@) && (has_substring(ctl, "name="@)
        || cd_attach))
}

fn starts_with_str(s: &str, p: &str) -> (r: bool)
    ensures
        r == seq_starts_with(s@, p@),
{
    let a = chars_of(s);
    let b = chars_of(p);
    starts_with_chars(&a, &b)
}

/// Whether a message's headers show an attachment.
pub fn detect_attachment(headers: &Vec<(String, Vec<String>)>) -> (r: bool)
    ensures
        r == shows_attachment(header_list_view(headers@)),
        header_first(header_list_view(headers@), "content-disposition"@) matches Some(d) && is_ascii_text(d)
            && has_substring(ascii_lowercase_text(d), "attachment"@) ==> r,
{
    let ct = get_first_header(headers, "content-type");
    let cd = get_first_header(headers, "content-disposition");
    let cd_attach = match &cd {
        Some(d) => contains_str(to_lowercase(d.as_str()).as_str(), "attachment"),
        None => false,
    };
    match &ct {
        Some(c) => {
            let ctl = to_lowercase(c.as_str());
            if contains_str(ctl.as_str(), "multipart/mixed") || contains_str(ctl.as_str(), "multipart/related") {
                return true;
            }
            if cd_attach {
                return true;
            }
            let media = starts_with_str(ctl.as_str(), "image/") || starts_with_str(ctl.as_str(), "application/")
                || starts_with_str(ctl.as_str(), "audio/") || starts_with_str(ctl.as_str(), "video/");
            media && !contains_str(ctl.as_str(), "multipart/alternative") && (contains_str(ctl.as_str(), "name=")
                || cd_attach)
        },
        None => cd_attach,
    }
}

// ── Email/set and Email/query ───────────────────────────────────────────────

/// `Email/set` arguments; `create` and `update` are keyed by creation id
/// and email id.
#[derive(Debug)]
pub struct EmailSetRequest {
    pub account_id: String,
    pub if_in_state: Option<String>,
    pub create: Option<Vec<(String, EmailSetObject)>>,
    pub update: Option<Vec<(String, JsonValue)>>,
    pub destroy: Option<Vec<String>>,
}

/// `Email/set` result; every map is left out when it would be empty.
#[derive(Debug)]
pub struct EmailSetResponse {
    pub account_id: String,
    pub old_state: String,
    pub new_state: String,
    pub created: Option<Vec<(String, Email)>>,
    pub updated: Option<Vec<(String, Option<Email>)>>,
    pub destroyed: Option<Vec<String>>,
    pub not_created: Option<Vec<(String, JmapSetError)>>,
    pub not_updated: Option<Vec<(String, JmapSetError)>>,
    pub not_destroyed: Option<Vec<(String, JmapSetError)>>,
}

/// What the message store did for each operation of an `Email/set` call.
#[derive(Debug)]
pub struct EmailSetOutcomes {
    /// For each create, the created email or the error's text.
    pub creates: Vec<Result<Email, String>>,
    /// For each update, whether it succeeded.
    pub updates: Vec<Result<(), EmailOpError>>,
    /// For each destroy, whether it succeeded.
    pub destroys: Vec<Result<(), EmailOpError>>,
}

/// The `/set` outcome maps of the creates, in order.
pub open spec fn email_creates_fold(ids: Seq<Seq<char>>, results: Seq<Result<EmailContent, Seq<char>>>) -> (Seq<(Seq<char>, EmailContent)>, Seq<(Seq<char>, SetErrorView)>)
    decreases ids.len(),
{
    if ids.len() == 0 {
        (seq![], seq![])
    } else {
        let n = ids.len() - 1;
        let (c, nc) = email_creates_fold(ids.drop_last(), results);
        match results[n] {
            Ok(e) => (vput(c, ids[n], e), nc),
            Err(m) => (c, vput(nc, ids[n], SetErrorView { error_type: "serverFail"@, description: Some(m) })),
        }
    }
}

/// The `/set` outcome maps of the updates (or destroys), in order.
pub open spec fn email_ops_fold(ids: Seq<Seq<char>>, results: Seq<Result<(), EmailOpError>>, destroying: bool) -> (Seq<Seq<char>>, Seq<(Seq<char>, SetErrorView)>)
    decreases ids.len(),
{
    if ids.len() == 0 {
        (seq![], seq![])
    } else {
        let n = ids.len() - 1;
        let (ok, bad) = email_ops_fold(ids.drop_last(), results, destroying);
        match results[n] {
            Ok(()) => (if destroying { ok.push(ids[n]) } else { vput_key(ok, ids[n]) }, bad),
            Err(e) => (ok, vput(bad, ids[n], if destroying { destroy_error(e) } else { update_error(e) })),
        }
    }
}

/// A key added to a list of keys, once.
pub open spec fn vput_key(s: Seq<Seq<char>>, k: Seq<char>) -> Seq<Seq<char>> {
    if s.contains(k) {
        s
    } else {
        s.push(k)
    }
}

/// The content of a create result.
pub open spec fn create_result_content(r: Result<Email, String>) -> Result<EmailContent, Seq<char>> {
    match r {
        Ok(e) => Ok(e@),
        Err(m) => Err(m@),
    }
}

fn ops_assemble(ids: &Vec<String>, results: &Vec<Result<(), EmailOpError>>, destroying: bool) -> (r: (Vec<String>, Vec<(String, JmapSetError)>))
    requires
        results@.len() >= ids@.len(),
    ensures
        (strings_view(r.0@), pairs_view(r.1@)) == email_ops_fold(strings_view(ids@), results@, destroying),
{
    let ghost iv = strings_view(ids@);
    let mut ok: Vec<String> = Vec::new();
    let mut bad: Vec<(String, JmapSetError)> = Vec::new();
    proof {
        lemma_pairs_view_len(bad@);
        assert(iv.take(0) =~= Seq::<Seq<char>>::empty());
        assert(strings_view(ok@) =~= Seq::<Seq<char>>::empty());
    }
    let mut i: usize = 0;
    while i < ids.len()
        invariant
            i <= ids@.len(),
            results@.len() >= ids@.len(),
            iv == strings_view(ids@),
            (strings_view(ok@), pairs_view(bad@)) == email_ops_fold(iv.take(i as int), results@, destroying),
        decreases ids.len() - i,
    {
        proof {
            assert(iv.take(i + 1).drop_last() =~= iv.take(i as int));
            assert(iv.take(i + 1)[i as int] == ids@[i as int]@);
        }
        match &results[i] {
            Ok(()) => {
                if destroying {
                    let ghost before = ok@;
                    ok.push(ids[i].clone());
                    proof {
                        assert(strings_view(ok@) =~= strings_view(before).push(ids@[i as int]@));
                    }
                } else if !crate::methods::email_query_helpers::contains_id(ok.as_slice(), ids[i].as_str()) {
                    let ghost before = ok@;
                    ok.push(ids[i].clone());
                    proof {
                        assert(strings_view(ok@) =~= strings_view(before).push(ids@[i as int]@));
                    }
                }
            },
            Err(e) => {
                let (t, d) = if destroying {
                    classify_destroy_error(e)
                } else {
                    classify_update_error(e)
                };
                vput_exec(&mut bad, ids[i].clone(), JmapSetError { error_type: t, description: Some(d) });
            },
        }
        i = i + 1;
    }
    proof {
        assert(iv.take(ids@.len() as int) =~= iv);
    }
    (ok, bad)
}

/// The keys of a list of pairs.
fn keys_of<T>(v: &Vec<(String, T)>) -> (r: Vec<String>)
    ensures
        strings_view(r@) == v@.map_values(|p: (String, T)| p.0@),
{
    let mut out: Vec<String> = Vec::new();
    let mut i: usize = 0;
    while i < v.len()
        invariant
            i <= v@.len(),
            strings_view(out@) == v@.map_values(|p: (String, T)| p.0@).take(i as int),
        decreases v.len() - i,
    {
        let ghost before = out@;
        out.push(v[i].0.clone());
        proof {
            assert(strings_view(out@) =~= strings_view(before).push(v@[i as int].0@));
            assert(v@.map_values(|p: (String, T)| p.0@).take(i + 1) =~= v@.map_values(|p: (String, T)| p.0@).take(i as int).push(v@[i as int].0@));
        }
        i = i + 1;
    }
    assert(v@.map_values(|p: (String, T)| p.0@).take(v@.len() as int) =~= v@.map_values(|p: (String, T)| p.0@));
    out
}

/// The updated ids of a response, each with no object.
pub open spec fn updated_ids(o: Option<Vec<(String, Option<Email>)>>) -> Option<Seq<(Seq<char>, bool)>> {
    match o {
        Some(v) => Some(v@.map_values(|p: (String, Option<Email>)| (p.0@, p.1 is Some))),
        None => None,
    }
}

/// `Email/set` given what the message store did for each operation: the
/// response lists them, updated ids with no object; the state tokens are
/// given.
pub fn email_set_with(request: EmailSetRequest, principal: &crate::types::Principal, outcomes: EmailSetOutcomes, old_state: String, new_state: String) -> (r: Result<EmailSetResponse, String>)
    requires
        outcomes.creates@.len() >= match request.create {
            Some(c) => c@.len(),
            None => 0,
        },
        outcomes.updates@.len() >= match request.update {
            Some(u) => u@.len(),
            None => 0,
        },
        outcomes.destroys@.len() >= match request.destroy {
            Some(d) => d@.len(),
            None => 0,
        },
    ensures
        principal.account_id@ != request.account_id@ ==> r is Err && r->Err_0@ == forbidden_text(
            request.account_id@,
            principal.account_id@,
        ),
        principal.account_id@ == request.account_id@ ==> r is Ok && ({
            let resp = r->Ok_0;
            let cids: Seq<Seq<char>> = match request.create {
                Some(c) => c@.map_values(|p: (String, EmailSetObject)| p.0@),
                None => seq![],
            };
            let uids: Seq<Seq<char>> = match request.update {
                Some(u) => u@.map_values(|p: (String, JsonValue)| p.0@),
                None => seq![],
            };
            let dids: Seq<Seq<char>> = match request.destroy {
                Some(d) => strings_view(d@),
                None => seq![],
            };
            let (c, nc) = email_creates_fold(cids, outcomes.creates@.map_values(|x: Result<Email, String>| create_result_content(x)));
            let (u, nu) = email_ops_fold(uids, outcomes.updates@, false);
            let (d, nd) = email_ops_fold(dids, outcomes.destroys@, true);
            &&& resp.account_id@ == request.account_id@
            &&& resp.old_state == old_state && resp.new_state == new_state
            &&& opt_pairs_view(resp.created) == nonempty(c)
            &&& opt_pairs_view(resp.not_created) == nonempty(nc)
            &&& updated_ids(resp.updated) == nonempty(u.map_values(|k: Seq<char>| (k, false)))
            &&& opt_pairs_view(resp.not_updated) == nonempty(nu)
            &&& crate::maps::opt_strings_view(resp.destroyed) == nonempty(d)
            &&& opt_pairs_view(resp.not_destroyed) == nonempty(nd)
        }),
{
    if let Err(e) = ensure_account_ownership(request.account_id.as_str(), principal) {
        return Err(forbidden_message(&e));
    }
    let EmailSetOutcomes { creates, updates, destroys } = outcomes;
    let ghost cres = creates@.map_values(|x: Result<Email, String>| create_result_content(x));
    let mut created: Vec<(String, Email)> = Vec::new();
    let mut not_created: Vec<(String, JmapSetError)> = Vec::new();
    proof {
        lemma_pairs_view_len(created@);
        lemma_pairs_view_len(not_created@);
    }
    if let Some(cmap) = &request.create {
        let ghost cids = cmap@.map_values(|p: (String, EmailSetObject)| p.0@);
        let mut rest = creates;
        let ghost orig = rest@;
        let mut i: usize = 0;
        assert(cids.take(0) =~= Seq::<Seq<char>>::empty());
        while i < cmap.len()
            invariant
                i <= cmap@.len(),
                cids == cmap@.map_values(|p: (String, EmailSetObject)| p.0@),
                orig.len() >= cmap@.len(),
                cres == orig.map_values(|x: Result<Email, String>| create_result_content(x)),
                rest@ == orig.skip(i as int),
                (pairs_view(created@), pairs_view(not_created@)) == email_creates_fold(cids.take(i as int), cres),
            decreases cmap.len() - i,
        {
            proof {
                assert(cids.take(i + 1).drop_last() =~= cids.take(i as int));
                assert(cids.take(i + 1)[i as int] == cmap@[i as int].0@);
            }
            let item = rest.remove(0);
            proof {
                assert(item == orig[i as int]);
                assert(rest@ =~= orig.skip(i + 1));
                assert(cres[i as int] == create_result_content(item));
            }
            match item {
                Ok(e) => {
                    vput_exec(&mut created, cmap[i].0.clone(), e);
                },
                Err(m) => {
                    vput_exec(&mut not_created, cmap[i].0.clone(), JmapSetError { error_type: string_from("serverFail"), description: Some(m) });
                },
            }
            i = i + 1;
        }
        assert(cids.take(cmap@.len() as int) =~= cids);
    } else {
        proof {
            lemma_pairs_view_len(created@);
        }
        assert(pairs_view(created@) =~= Seq::<(Seq<char>, EmailContent)>::empty());
        assert(pairs_view(not_created@) =~= Seq::<(Seq<char>, SetErrorView)>::empty());
    }
    let (upd, not_updated) = match &request.update {
        Some(umap) => {
            let uids = keys_of(umap);
            ops_assemble(&uids, &updates, false)
        },
        None => {
            let empty: Vec<String> = Vec::new();
            assert(strings_view(empty@) =~= Seq::<Seq<char>>::empty());
            ops_assemble(&empty, &updates, false)
        },
    };
    let (destroyed, not_destroyed) = match &request.destroy {
        Some(ids) => ops_assemble(ids, &destroys, true),
        None => {
            let empty: Vec<String> = Vec::new();
            assert(strings_view(empty@) =~= Seq::<Seq<char>>::empty());
            ops_assemble(&empty, &destroys, true)
        },
    };
    let mut updated: Vec<(String, Option<Email>)> = Vec::new();
    let mut k: usize = 0;
    while k < upd.len()
        invariant
            k <= upd@.len(),
            updated@.map_values(|p: (String, Option<Email>)| (p.0@, p.1 is Some)) == strings_view(upd@).take(k as int).map_values(|s: Seq<char>| (s, false)),
        decreases upd.len() - k,
    {
        let ghost before = updated@;
        updated.push((upd[k].clone(), None));
        proof {
            assert(updated@.map_values(|p: (String, Option<Email>)| (p.0@, p.1 is Some)) =~= before.map_values(|p: (String, Option<Email>)| (p.0@, p.1 is Some)).push((upd@[k as int]@, false)));
            assert(strings_view(upd@).take(k + 1).map_values(|s: Seq<char>| (s, false)) =~= strings_view(upd@).take(k as int).map_values(|s: Seq<char>| (s, false)).push((upd@[k as int]@, false)));
        }
        k = k + 1;
    }
    assert(strings_view(upd@).take(upd@.len() as int) =~= strings_view(upd@));
    Ok(
        EmailSetResponse {
            account_id: request.account_id.clone(),
            old_state,
            new_state,
            created: nonempty_vec(created),
            updated: nonempty_vec(updated),
            destroyed: nonempty_vec(destroyed),
            not_created: nonempty_vec(not_created),
            not_updated: nonempty_vec(not_updated),
            not_destroyed: nonempty_vec(not_destroyed),
        },
    )
}

/// `Email/query` arguments.
#[derive(Debug)]
pub struct EmailQueryRequest {
    pub account_id: String,
    pub filter: Option<EmailFilterCondition>,
    pub sort: Option<Vec<EmailSort>>,
    pub position: Option<i64>,
    pub limit: Option<u64>,
    pub calculate_total: Option<bool>,
}

/// `Email/query` result.
#[derive(Debug)]
pub struct EmailQueryResponse {
    pub account_id: String,
    pub query_state: String,
    pub can_calculate_changes: bool,
    pub position: i64,
    pub ids: Vec<String>,
    pub total: Option<u64>,
    pub limit: Option<u64>,
}

/// `Email/query` over the ids the message store found: at most `limit`
/// ids (100 when not given) from `position` (0 when not given; a negative
/// position gives nothing).
pub fn email_query(request: EmailQueryRequest, principal: &crate::types::Principal, found: Vec<String>) -> (r: Result<EmailQueryResponse, String>)
    ensures
        principal.account_id@ != request.account_id@ ==> r is Err && r->Err_0@ == forbidden_text(
            request.account_id@,
            principal.account_id@,
        ),
        principal.account_id@ == request.account_id@ ==> r is Ok && ({
            let resp = r->Ok_0;
            let p: i64 = match request.position { Some(p) => p, None => 0 };
            let l: u64 = match request.limit { Some(l) => l, None => 100 };
            let ids = strings_view(found@);
            &&& resp.account_id@ == request.account_id@
            &&& resp.query_state@ == "1"@
            &&& !resp.can_calculate_changes
            &&& resp.position == p
            &&& strings_view(resp.ids@) == crate::methods::mailbox::page(ids, if p < 0 { ids.len() as int } else { p as int }, l as int)
            &&& resp.total == (if request.calculate_total == Some(true) { Some(ids.len() as u64) } else { None })
            &&& resp.limit == Some(l)
        }),
{
    if let Err(e) = ensure_account_ownership(request.account_id.as_str(), principal) {
        return Err(forbidden_message(&e));
    }
    let p: i64 = match request.position {
        Some(p) => p,
        None => 0,
    };
    let l: u64 = match request.limit {
        Some(l) => l,
        None => 100,
    };
    let total: usize = found.len();
    let start: usize = if p < 0 || (p as u64) >= (total as u64) {
        total
    } else {
        p as usize
    };
    let end: usize = if l >= ((total - start) as u64) {
        total
    } else {
        start + (l as usize)
    };
    let ghost all = strings_view(found@);
    let mut ids: Vec<String> = Vec::new();
    let mut k: usize = start;
    while k < end
        invariant
            start <= k <= end,
            end <= found@.len(),
            all == strings_view(found@),
            strings_view(ids@) == all.subrange(start as int, k as int),
        decreases end - k,
    {
        let ghost before = ids@;
        ids.push(found[k].clone());
        proof {
            assert(strings_view(ids@) =~= strings_view(before).push(found@[k as int]@));
            assert(all.subrange(start as int, k + 1) =~= all.subrange(start as int, k as int).push(all[k as int]));
        }
        k = k + 1;
    }
    let calc = match request.calculate_total {
        Some(b) => b,
        None => false,
    };
    Ok(
        EmailQueryResponse {
            account_id: request.account_id.clone(),
            query_state: string_from("1"),
            can_calculate_changes: false,
            position: p,
            ids,
            total: if calc {
                Some(total as u64)
            } else {
                None
            },
            limit: Some(l),
        },
    )
}


// ── Email/set update: what a patch does to a message's mailboxes ────────────

/// A change to the mailboxes a message is in.
#[derive(Debug)]
pub enum MailboxChange {
    /// Put the message in the mailbox, unless it is there already.
    Ensure(String),
    /// Take the message out of the mailbox, if it is there.
    Remove(String),
}

/// The content of a mailbox change.
pub enum MailboxChangeView {
    Ensure(Seq<char>),
    Remove(Seq<char>),
}

impl View for MailboxChange {
    type V = MailboxChangeView;

    open spec fn view(&self) -> MailboxChangeView {
        match self {
            MailboxChange::Ensure(id) => MailboxChangeView::Ensure(id@),
            MailboxChange::Remove(id) => MailboxChangeView::Remove(id@),
        }
    }
}

/// What an `Email/set` update does besides keywords: the mailbox whose
/// copy of the message gives its current flags, and the mailbox changes in
/// order.
#[derive(Debug)]
pub struct EmailUpdatePlan {
    pub owning_mailbox: Option<String>,
    pub mailbox_changes: Vec<MailboxChange>,
}

/// The patch path that replaces all mailboxes.
pub open spec fn mailbox_ids_path() -> Seq<char> {
    seq!['/', 'm', 'a', 'i', 'l', 'b', 'o', 'x', 'I', 'd', 's']
}

/// The prefix of a patch path that sets one mailbox.
pub open spec fn mailbox_path_prefix() -> Seq<char> {
    mailbox_ids_path().push('/')
}

/// Whether a member of a mailbox map names a mailbox id that is set to
/// `true`.
pub open spec fn true_mailbox(k: Seq<char>, v: JModel) -> bool {
    v == JModel::Bool(true) && uuid_parses(k)
}

/// The first key of a mailbox map set to `true` that is a mailbox id.
pub open spec fn first_true_mailbox(m: Seq<(Seq<char>, JModel)>) -> Option<Seq<char>>
    decreases m.len(),
{
    if m.len() == 0 {
        None
    } else if true_mailbox(m[0].0, m[0].1) {
        Some(m[0].0)
    } else {
        first_true_mailbox(m.drop_first())
    }
}

/// The mailbox id a patch path sets, if it sets one.
pub open spec fn path_mailbox(path: Seq<char>) -> Option<Seq<char>> {
    if seq_starts_with(path, mailbox_path_prefix()) {
        Some(path.skip(12))
    } else {
        None
    }
}

/// The first `/mailboxIds/<id>` member set to `true` whose id is a
/// mailbox id.
pub open spec fn first_true_path(e: Seq<(Seq<char>, JModel)>) -> Option<Seq<char>>
    decreases e.len(),
{
    if e.len() == 0 {
        None
    } else {
        match path_mailbox(e[0].0) {
            Some(id) => if true_mailbox(id, e[0].1) {
                Some(id)
            } else {
                first_true_path(e.drop_first())
            },
            None => first_true_path(e.drop_first()),
        }
    }
}

/// The mailbox whose flags a patch starts from: with a `/mailboxIds`
/// member, the first mailbox its map sets to `true` (none if it is not a
/// map); otherwise the first `/mailboxIds/<id>` member set to `true`.
pub open spec fn owning_mailbox_of(patch: JModel) -> Option<Seq<char>> {
    match patch {
        JModel::Object(e) => match obj_lookup(e, mailbox_ids_path()) {
            Some(JModel::Object(m)) => first_true_mailbox(m),
            Some(_) => None,
            None => first_true_path(e),
        },
        _ => None,
    }
}

/// The mailboxes a `/mailboxIds` map puts the message in: its keys set to
/// `true` that are mailbox ids, in order.
pub open spec fn replacement_changes(m: Seq<(Seq<char>, JModel)>) -> Seq<MailboxChangeView>
    decreases m.len(),
{
    if m.len() == 0 {
        seq![]
    } else {
        let rest = replacement_changes(m.drop_last());
        if true_mailbox(m.last().0, m.last().1) {
            rest.push(MailboxChangeView::Ensure(m.last().0))
        } else {
            rest
        }
    }
}

/// The changes of the `/mailboxIds/<id>` members, in order: `true` puts
/// the message in the mailbox, anything else takes it out; ids that are
/// not mailbox ids are passed over.
pub open spec fn path_changes(e: Seq<(Seq<char>, JModel)>) -> Seq<MailboxChangeView>
    decreases e.len(),
{
    if e.len() == 0 {
        seq![]
    } else {
        let rest = path_changes(e.drop_last());
        match path_mailbox(e.last().0) {
            Some(id) => if !uuid_parses(id) {
                rest
            } else if e.last().1 == JModel::Bool(true) {
                rest.push(MailboxChangeView::Ensure(id))
            } else {
                rest.push(MailboxChangeView::Remove(id))
            },
            None => rest,
        }
    }
}

/// The mailbox changes of a patch: those of a `/mailboxIds` map, then
/// those of the `/mailboxIds/<id>` members.
pub open spec fn mailbox_changes_of(patch: JModel) -> Seq<MailboxChangeView> {
    match patch {
        JModel::Object(e) => {
            let full = match obj_lookup(e, mailbox_ids_path()) {
                Some(JModel::Object(m)) => replacement_changes(m),
                _ => seq![],
            };
            full + path_changes(e)
        },
        _ => seq![],
    }
}

/// The contents of a list of mailbox changes.
pub open spec fn changes_view(s: Seq<MailboxChange>) -> Seq<MailboxChangeView> {
    s.map_values(|c: MailboxChange| c@)
}

fn first_true_mailbox_exec(m: &Vec<(String, JsonValue)>) -> (r: Option<String>)
    ensures
        opt_chars(r) == first_true_mailbox(jm_entries(m@)),
{
    let ghost es = jm_entries(m@);
    proof {
        lemma_jm_entries(m@);
        assert(es.skip(0) == es);
    }
    let mut i: usize = 0;
    while i < m.len()
        invariant
            i <= m.len(),
            es == jm_entries(m@),
            es.len() == m@.len(),
            forall|j: int| 0 <= j < m@.len() ==> #[trigger] es[j] == (m@[j].0@, jm(m@[j].1)),
            first_true_mailbox(es) == first_true_mailbox(es.skip(i as int)),
        decreases m.len() - i,
    {
        assert(es.skip(i as int).drop_first() == es.skip(i + 1));
        assert(es.skip(i as int)[0] == es[i as int]);
        let is_true = match &m[i].1 {
            JsonValue::Bool(b) => *b,
            _ => false,
        };
        if is_true && is_uuid(m[i].0.as_str()) {
            return Some(m[i].0.clone());
        }
        i = i + 1;
    }
    None
}

/// The mailbox id a patch path sets, if it sets one.
fn path_mailbox_exec(path: &str) -> (r: Option<String>)
    ensures
        opt_chars(r) == path_mailbox(path@),
{
    let p = chars_of(path);
    let prefix: Vec<char> = vec!['/', 'm', 'a', 'i', 'l', 'b', 'o', 'x', 'I', 'd', 's', '/'];
    assert(prefix@ =~= mailbox_path_prefix());
    if starts_with_chars(&p, &prefix) {
        Some(string_of(crate::text::chars_skip(&p, 12).as_slice()))
    } else {
        None
    }
}

fn first_true_path_exec(e: &Vec<(String, JsonValue)>) -> (r: Option<String>)
    ensures
        opt_chars(r) == first_true_path(jm_entries(e@)),
{
    let ghost es = jm_entries(e@);
    proof {
        lemma_jm_entries(e@);
        assert(es.skip(0) == es);
    }
    let mut i: usize = 0;
    while i < e.len()
        invariant
            i <= e.len(),
            es == jm_entries(e@),
            es.len() == e@.len(),
            forall|j: int| 0 <= j < e@.len() ==> #[trigger] es[j] == (e@[j].0@, jm(e@[j].1)),
            first_true_path(es) == first_true_path(es.skip(i as int)),
        decreases e.len() - i,
    {
        assert(es.skip(i as int).drop_first() == es.skip(i + 1));
        assert(es.skip(i as int)[0] == es[i as int]);
        if let Some(id) = path_mailbox_exec(e[i].0.as_str()) {
            let is_true = match &e[i].1 {
                JsonValue::Bool(b) => *b,
                _ => false,
            };
            if is_true && is_uuid(id.as_str()) {
                return Some(id);
            }
        }
        i = i + 1;
    }
    None
}

/// The mailbox whose flags a patch starts from (see `owning_mailbox_of`).
pub fn owning_mailbox(patch: &JsonValue) -> (r: Option<String>)
    ensures
        opt_chars(r) == owning_mailbox_of(jm(*patch)),
{
    match patch {
        JsonValue::Object(e) => {
            let key: Vec<char> = vec!['/', 'm', 'a', 'i', 'l', 'b', 'o', 'x', 'I', 'd', 's'];
            assert(key@ =~= mailbox_ids_path());
            match crate::json::obj_get(e, string_of(key.as_slice()).as_str()) {
                Some(JsonValue::Object(m)) => first_true_mailbox_exec(m),
                Some(_) => None,
                None => first_true_path_exec(e),
            }
        },
        _ => None,
    }
}

fn replacement_changes_exec(m: &Vec<(String, JsonValue)>, out: &mut Vec<MailboxChange>)
    ensures
        changes_view(final(out)@) == changes_view(old(out)@) + replacement_changes(jm_entries(m@)),
{
    let ghost es = jm_entries(m@);
    let ghost start = changes_view(out@);
    proof {
        lemma_jm_entries(m@);
        assert(es.take(0) =~= Seq::<(Seq<char>, JModel)>::empty());
        assert(start + replacement_changes(es.take(0)) =~= start);
    }
    let mut i: usize = 0;
    while i < m.len()
        invariant
            i <= m.len(),
            es == jm_entries(m@),
            es.len() == m@.len(),
            forall|j: int| 0 <= j < m@.len() ==> #[trigger] es[j] == (m@[j].0@, jm(m@[j].1)),
            changes_view(out@) == start + replacement_changes(es.take(i as int)),
        decreases m.len() - i,
    {
        proof {
            assert(es.take(i + 1).drop_last() =~= es.take(i as int));
            assert(es.take(i + 1).last() == es[i as int]);
        }
        let is_true = match &m[i].1 {
            JsonValue::Bool(b) => *b,
            _ => false,
        };
        if is_true && is_uuid(m[i].0.as_str()) {
            let ghost before = out@;
            out.push(MailboxChange::Ensure(m[i].0.clone()));
            proof {
                assert(changes_view(out@) =~= changes_view(before).push(MailboxChangeView::Ensure(m@[i as int].0@)));
            }
        }
        i = i + 1;
    }
    assert(es.take(m@.len() as int) =~= es);
}

fn path_changes_exec(e: &Vec<(String, JsonValue)>, out: &mut Vec<MailboxChange>)
    ensures
        changes_view(final(out)@) == changes_view(old(out)@) + path_changes(jm_entries(e@)),
{
    let ghost es = jm_entries(e@);
    let ghost start = changes_view(out@);
    proof {
        lemma_jm_entries(e@);
        assert(es.take(0) =~= Seq::<(Seq<char>, JModel)>::empty());
        assert(start + path_changes(es.take(0)) =~= start);
    }
    let mut i: usize = 0;
    while i < e.len()
        invariant
            i <= e.len(),
            es == jm_entries(e@),
            es.len() == e@.len(),
            forall|j: int| 0 <= j < e@.len() ==> #[trigger] es[j] == (e@[j].0@, jm(e@[j].1)),
            changes_view(out@) == start + path_changes(es.take(i as int)),
        decreases e.len() - i,
    {
        proof {
            assert(es.take(i + 1).drop_last() =~= es.take(i as int));
            assert(es.take(i + 1).last() == es[i as int]);
        }
        if let Some(id) = path_mailbox_exec(e[i].0.as_str()) {
            if is_uuid(id.as_str()) {
                let is_true = match &e[i].1 {
                    JsonValue::Bool(b) => *b,
                    _ => false,
                };
                let ghost before = out@;
                let ghost idv = id@;
                if is_true {
                    out.push(MailboxChange::Ensure(id));
                    proof {
                        assert(changes_view(out@) =~= changes_view(before).push(MailboxChangeView::Ensure(idv)));
                    }
                } else {
                    out.push(MailboxChange::Remove(id));
                    proof {
                        assert(changes_view(out@) =~= changes_view(before).push(MailboxChangeView::Remove(idv)));
                    }
                }
            }
        }
        i = i + 1;
    }
    assert(es.take(e@.len() as int) =~= es);
}

/// What an `Email/set` update does to a message's mailboxes: where its
/// current flags are read from, and the mailbox changes in order (see
/// `owning_mailbox_of` and `mailbox_changes_of`).
pub fn plan_email_update(patch: &JsonValue) -> (r: EmailUpdatePlan)
    ensures
        opt_chars(r.owning_mailbox) == owning_mailbox_of(jm(*patch)),
        changes_view(r.mailbox_changes@) == mailbox_changes_of(jm(*patch)),
{
    let owning = owning_mailbox(patch);
    let mut changes: Vec<MailboxChange> = Vec::new();
    assert(changes_view(changes@) =~= Seq::<MailboxChangeView>::empty());
    match patch {
        JsonValue::Object(e) => {
            let key: Vec<char> = vec!['/', 'm', 'a', 'i', 'l', 'b', 'o', 'x', 'I', 'd', 's'];
            assert(key@ =~= mailbox_ids_path());
            match crate::json::obj_get(e, string_of(key.as_slice()).as_str()) {
                Some(JsonValue::Object(m)) => replacement_changes_exec(m, &mut changes),
                _ => {},
            }
            let ghost mid = changes_view(changes@);
            path_changes_exec(e, &mut changes);
            assert(changes_view(changes@) =~= mid + path_changes(jm_entries(e@)));
        },
        _ => {},
    }
    EmailUpdatePlan { owning_mailbox: owning, mailbox_changes: changes }
}


// ── Converting a stored message to an Email ─────────────────────────────────

/// What the conversion of a stored message takes besides the message: its
/// blob id, when it was received (milliseconds since the Unix epoch), its
/// mailboxes and keywords, and its thread.
#[derive(Debug)]
pub struct EmailConversionContext {
    pub blob_id: String,
    pub received_at: i64,
    pub mailbox_ids: Vec<(String, bool)>,
    pub keywords: Vec<(String, bool)>,
    pub thread_id: Option<String>,
}

impl EmailConversionContext {
    /// The context of a message that is not stored: the given blob id, the
    /// inbox as its mailbox, no keywords, no thread, received now.
    pub fn placeholder(blob_id: String) -> (r: Self)
        ensures
            r.blob_id@ == blob_id@,
            flag_map_view(r.mailbox_ids@) == seq![("inbox"@, true)],
            r.keywords@.len() == 0,
            r.thread_id is None,
    {
        let mut mailbox_ids: Vec<(String, bool)> = Vec::new();
        mailbox_ids.push((string_from("inbox"), true));
        assert(flag_map_view(mailbox_ids@) =~= seq![("inbox"@, true)]);
        EmailConversionContext {
            blob_id,
            received_at: crate::outside::now_millis(),
            mailbox_ids,
            keywords: Vec::new(),
            thread_id: None,
        }
    }
}

/// A value as a one-element list.
pub open spec fn single(o: Option<Seq<char>>) -> Option<Seq<Seq<char>>> {
    match o {
        Some(s) => Some(seq![s]),
        None => None,
    }
}

/// Whether the address headers of a message can be read: none has a `>`
/// before its first `<` in an address.
pub open spec fn addresses_readable(h: Seq<(Seq<char>, Seq<Seq<char>>)>) -> bool {
    &&& !header_has_reversed_brackets(h, "from"@)
    &&& !header_has_reversed_brackets(h, "to"@)
    &&& !header_has_reversed_brackets(h, "cc"@)
    &&& !header_has_reversed_brackets(h, "bcc"@)
    &&& !header_has_reversed_brackets(h, "reply-to"@)
    &&& !header_has_reversed_brackets(h, "sender"@)
}

/// The Email a stored message converts to: the context's fields, the
/// message's size and preview, and what its headers say.
pub open spec fn converted_email(
    id: Seq<char>,
    h: Seq<(Seq<char>, Seq<Seq<char>>)>,
    size: u64,
    preview: Option<Seq<char>>,
    ctx: EmailConversionContext,
) -> EmailContent {
    EmailContent {
        id,
        blob_id: ctx.blob_id@,
        thread_id: opt_chars(ctx.thread_id),
        mailbox_ids: flag_map_view(ctx.mailbox_ids@),
        keywords: flag_map_view(ctx.keywords@),
        size,
        received_at: ctx.received_at,
        message_id: single(header_first(h, "message-id"@)),
        in_reply_to: single(header_first(h, "in-reply-to"@)),
        references: header_values(h, "references"@),
        sender: header_addresses_of(h, "sender"@),
        from: header_addresses_of(h, "from"@),
        to: header_addresses_of(h, "to"@),
        cc: header_addresses_of(h, "cc"@),
        bcc: header_addresses_of(h, "bcc"@),
        reply_to: header_addresses_of(h, "reply-to"@),
        subject: header_first(h, "subject"@),
        sent_at: date_of(header_first(h, "date"@)),
        has_attachment: shows_attachment(h),
        preview,
        body_values: None,
        text_body: None,
        html_body: None,
        attachments: None,
    }
}

fn header_values_exec(headers: &Vec<(String, Vec<String>)>, name: &str) -> (r: Option<Vec<String>>)
    ensures
        match r {
            Some(v) => header_values(header_list_view(headers@), name@) == Some(strings_view(v@)),
            None => header_values(header_list_view(headers@), name@) is None,
        },
{
    match find_header(headers, name) {
        Some(i) => Some(crate::methods::mailbox::clone_strings(&headers[i].1)),
        None => None,
    }
}

fn single_exec(o: Option<String>) -> (r: Option<Vec<String>>)
    ensures
        opt_texts(r) == single(opt_chars(o)),
{
    match o {
        Some(s) => {
            let ghost sv = s@;
            let mut v: Vec<String> = Vec::new();
            v.push(s);
            assert(strings_view(v@) =~= seq![sv]);
            Some(v)
        },
        None => None,
    }
}

/// The Email a stored message converts to (see `converted_email`): the
/// message's headers, its size in bytes and its preview text.
pub fn convert_mail_to_email(
    id: &str,
    headers: &Vec<(String, Vec<String>)>,
    size: u64,
    preview: Option<String>,
    ctx: EmailConversionContext,
) -> (r: Email)
    requires
        addresses_readable(header_list_view(headers@)),
    ensures
        r@ == converted_email(id@, header_list_view(headers@), size, opt_chars(preview), ctx),
{
    let ghost c = ctx;
    let subject = get_first_header(headers, "subject");
    let from = parse_email_addresses(headers, "from");
    let to = parse_email_addresses(headers, "to");
    let cc = parse_email_addresses(headers, "cc");
    let bcc = parse_email_addresses(headers, "bcc");
    let reply_to = parse_email_addresses(headers, "reply-to");
    let sender = parse_email_addresses(headers, "sender");
    let message_id = single_exec(get_first_header(headers, "message-id"));
    let in_reply_to = single_exec(get_first_header(headers, "in-reply-to"));
    let references = header_values_exec(headers, "references");
    let date = get_first_header(headers, "date");
    let sent_at = match &date {
        Some(d) => parse_date_header(Some(d.as_str())),
        None => parse_date_header(None),
    };
    let has_attachment = detect_attachment(headers);
    let r = Email {
        id: string_from(id),
        blob_id: ctx.blob_id,
        thread_id: ctx.thread_id,
        mailbox_ids: ctx.mailbox_ids,
        keywords: ctx.keywords,
        size,
        received_at: ctx.received_at,
        message_id,
        in_reply_to,
        references,
        sender,
        from,
        to,
        cc,
        bcc,
        reply_to,
        subject,
        sent_at,
        has_attachment,
        preview,
        body_values: None,
        text_body: None,
        html_body: None,
        attachments: None,
    };
    assert(r@.references == header_values(header_list_view(headers@), "references"@)) by {
        match references {
            Some(v) => {},
            None => {},
        }
    }
    r
}

/// The delivery instant a `Received` value carries: the RFC 2822 date after
/// its last `;`.
pub open spec fn received_date(v: Seq<char>) -> Option<i64> {
    match last_index_of(v, ';') {
        Some(p) => rfc2822_instant(trim_ws(v.skip(p + 1))),
        None => None,
    }
}

/// The first delivery instant that a list of `Received` values carries.
pub open spec fn first_received(vals: Seq<Seq<char>>) -> Option<i64>
    decreases vals.len(),
{
    if vals.len() == 0 {
        None
    } else {
        match received_date(vals[0]) {
            Some(t) => Some(t),
            None => first_received(vals.drop_first()),
        }
    }
}

/// The delivery instant of a message: the first that its `Received`
/// headers carry.
pub open spec fn received_of(h: Seq<(Seq<char>, Seq<Seq<char>>)>) -> Option<i64> {
    match header_values(h, "received"@) {
        Some(vals) => first_received(vals),
        None => None,
    }
}

/// The delivery instant of a message, in milliseconds since the Unix
/// epoch (see `received_of`).
pub fn parse_received_header(headers: &Vec<(String, Vec<String>)>) -> (r: Option<i64>)
    ensures
        r == received_of(header_list_view(headers@)),
{
    let vals = match header_values_exec(headers, "received") {
        Some(v) => v,
        None => return None,
    };
    let ghost vv = strings_view(vals@);
    let mut i: usize = 0;
    assert(vv.skip(0) =~= vv);
    while i < vals.len()
        invariant
            i <= vals@.len(),
            vv == strings_view(vals@),
            received_of(header_list_view(headers@)) == first_received(vv),
            first_received(vv) == first_received(vv.skip(i as int)),
        decreases vals.len() - i,
    {
        assert(vv.skip(i as int)[0] == vals@[i as int]@);
        assert(vv.skip(i as int).drop_first() =~= vv.skip(i + 1));
        let v = chars_of(vals[i].as_str());
        assert(v@ == vv[i as int]);
        if let Some(p) = crate::text::rfind_char(&v, ';') {
            let n: usize = v.len();
            assert(p < n);
            let rest = crate::text::chars_skip(&v, p + 1);
            let date = trim_chars(&rest);
            let t = parse_rfc2822(string_of(date.as_slice()).as_str());
            assert(t == received_date(vv[i as int]));
            if t.is_some() {
                assert(first_received(vv.skip(i as int)) == t);
                return t;
            }
        } else {
            assert(received_date(vv[i as int]) is None);
        }
        i = i + 1;
    }
    None
}

// ── Email/get ───────────────────────────────────────────────────────────────

/// `Email/get` arguments.
#[derive(Debug)]
pub struct EmailGetRequest {
    pub account_id: String,
    pub ids: Option<Vec<String>>,
    pub properties: Option<Vec<String>>,
}

/// `Email/get` response.
#[derive(Debug)]
pub struct EmailGetResponse {
    pub account_id: String,
    pub state: String,
    pub list: Vec<Email>,
    pub not_found: Vec<String>,
}

/// The emails found, in the order asked, and the ids not found: an id is
/// found when it is a message id and the store gave its email.
pub open spec fn get_outcome(ids: Seq<Seq<char>>, found: Seq<Option<EmailContent>>) -> (Seq<EmailContent>, Seq<Seq<char>>)
    decreases ids.len(),
{
    if ids.len() == 0 {
        (seq![], seq![])
    } else {
        let n = ids.len() - 1;
        let (l, nf) = get_outcome(ids.drop_last(), found);
        match found[n] {
            Some(e) => if uuid_parses(ids[n]) {
                (l.push(e), nf)
            } else {
                (l, nf.push(ids[n]))
            },
            None => (l, nf.push(ids[n])),
        }
    }
}

/// The contents of looked-up emails.
pub open spec fn found_view(s: Seq<Option<Email>>) -> Seq<Option<EmailContent>> {
    s.map_values(
        |o: Option<Email>|
            match o {
                Some(e) => Some(e@),
                None => None,
            },
    )
}

/// The contents of a list of emails.
pub open spec fn emails_view(s: Seq<Email>) -> Seq<EmailContent> {
    s.map_values(|e: Email| e@)
}

/// The ids an `Email/get` asks for: those given, or none.
pub open spec fn get_ids(o: Option<Vec<String>>) -> Seq<Seq<char>> {
    match o {
        Some(v) => strings_view(v@),
        None => seq![],
    }
}

/// `Email/get` for the principal, given what the store gave for each id
/// asked (`found[i]` for the `i`-th; `None` where it has no such message)
/// and the time in seconds, which is the state.
pub fn email_get_with(request: EmailGetRequest, principal: &crate::types::Principal, found: Vec<Option<Email>>, now_secs: i64) -> (r: Result<EmailGetResponse, String>)
    requires
        found@.len() >= get_ids(request.ids).len(),
    ensures
        principal.account_id@ != request.account_id@ ==> r is Err && r->Err_0@ == forbidden_text(
            request.account_id@,
            principal.account_id@,
        ),
        principal.account_id@ == request.account_id@ ==> r is Ok && ({
            let resp = r->Ok_0;
            let (l, nf) = get_outcome(get_ids(request.ids), found_view(found@));
            &&& resp.account_id@ == request.account_id@
            &&& resp.state@ == crate::text::int_decimal(now_secs as int)
            &&& emails_view(resp.list@) == l
            &&& strings_view(resp.not_found@) == nf
        }),
{
    if let Err(e) = ensure_account_ownership(request.account_id.as_str(), principal) {
        return Err(forbidden_message(&e));
    }
    let ghost ids_v = get_ids(request.ids);
    let ghost fv = found_view(found@);
    let ids: Vec<String> = match request.ids {
        Some(v) => v,
        None => {
            let v: Vec<String> = Vec::new();
            assert(strings_view(v@) =~= Seq::<Seq<char>>::empty());
            v
        },
    };
    let mut list: Vec<Email> = Vec::new();
    let mut not_found: Vec<String> = Vec::new();
    let mut rest = found;
    let ghost orig = rest@;
    let mut i: usize = 0;
    assert(ids_v.take(0) =~= Seq::<Seq<char>>::empty());
    assert(emails_view(list@) =~= Seq::<EmailContent>::empty());
    assert(strings_view(not_found@) =~= Seq::<Seq<char>>::empty());
    while i < ids.len()
        invariant
            i <= ids@.len(),
            ids_v == strings_view(ids@),
            orig.len() >= ids@.len(),
            fv == found_view(orig),
            rest@ == orig.skip(i as int),
            (emails_view(list@), strings_view(not_found@)) == get_outcome(ids_v.take(i as int), fv),
        decreases ids.len() - i,
    {
        proof {
            assert(ids_v.take(i + 1).drop_last() =~= ids_v.take(i as int));
            assert(ids_v.take(i + 1)[i as int] == ids@[i as int]@);
        }
        let item = rest.remove(0);
        proof {
            assert(item == orig[i as int]);
            assert(rest@ =~= orig.skip(i + 1));
        }
        let id = ids[i].clone();
        match item {
            Some(e) => {
                if is_uuid(id.as_str()) {
                    let ghost before = list@;
                    list.push(e);
                    assert(emails_view(list@) =~= emails_view(before).push(orig[i as int]->0@));
                } else {
                    let ghost before = not_found@;
                    not_found.push(id);
                    assert(strings_view(not_found@) =~= strings_view(before).push(ids@[i as int]@));
                }
            },
            None => {
                let ghost before = not_found@;
                not_found.push(id);
                assert(strings_view(not_found@) =~= strings_view(before).push(ids@[i as int]@));
            },
        }
        i = i + 1;
    }
    assert(ids_v.take(ids@.len() as int) =~= ids_v);
    Ok(EmailGetResponse {
        account_id: request.account_id,
        state: crate::text::i64_to_decimal(now_secs),
        list,
        not_found,
    })
}

// ── Email/set create ────────────────────────────────────────────────────────

/// Why an email cannot be created.
#[derive(Debug)]
pub enum CreatePlanError {
    /// No mailbox is set to `true`.
    NoMailbox,
    /// The first mailbox set to `true` is not a mailbox id.
    InvalidMailbox(String),
}

/// How an email is created: appended to the first mailbox set to `true`,
/// copied to the other mailboxes set to `true` that are mailbox ids, and
/// given flags when it names keywords.
#[derive(Debug)]
pub struct CreatePlan {
    pub primary: String,
    pub extra_mailboxes: Vec<String>,
    pub flags: Option<MessageFlags>,
}

/// The first mailbox set to `true`.
pub open spec fn first_true_key(m: Seq<(Seq<char>, bool)>) -> Option<Seq<char>>
    decreases m.len(),
{
    if m.len() == 0 {
        None
    } else if m[0].1 {
        Some(m[0].0)
    } else {
        first_true_key(m.drop_first())
    }
}

/// The other mailboxes set to `true` that are mailbox ids, in order.
pub open spec fn extra_mailboxes_of(m: Seq<(Seq<char>, bool)>, primary: Seq<char>) -> Seq<Seq<char>>
    decreases m.len(),
{
    if m.len() == 0 {
        seq![]
    } else {
        let rest = extra_mailboxes_of(m.drop_last(), primary);
        let (k, v) = m.last();
        if v && k != primary && uuid_parses(k) {
            rest.push(k)
        } else {
            rest
        }
    }
}

/// The flags an email is created with: those of its keywords, when it
/// names any.
pub open spec fn create_flags(k: Option<Vec<(String, bool)>>) -> Option<FlagsContent> {
    match k {
        Some(v) => if v@.len() > 0 {
            Some(flags_of_keywords(flag_map_view(v@)))
        } else {
            None
        },
        None => None,
    }
}

/// How an email is created (see `CreatePlan`).
pub fn plan_email_create(email_obj: &EmailSetObject) -> (r: Result<CreatePlan, CreatePlanError>)
    ensures
        match first_true_key(flag_map_view(email_obj.mailbox_ids@)) {
            None => r matches Err(CreatePlanError::NoMailbox),
            Some(p) => if !uuid_parses(p) {
                r matches Err(CreatePlanError::InvalidMailbox(m)) && m@ == p
            } else {
                r matches Ok(plan) && plan.primary@ == p && strings_view(plan.extra_mailboxes@) == extra_mailboxes_of(
                    flag_map_view(email_obj.mailbox_ids@),
                    p,
                ) && match plan.flags {
                    Some(f) => create_flags(email_obj.keywords) == Some(f@),
                    None => create_flags(email_obj.keywords) is None,
                }
            },
        },
{
    let m = &email_obj.mailbox_ids;
    let ghost mv = flag_map_view(m@);
    let mut i: usize = 0;
    assert(mv.skip(0) =~= mv);
    while i < m.len() && !m[i].1
        invariant
            i <= m@.len(),
            mv == flag_map_view(m@),
            first_true_key(mv) == first_true_key(mv.skip(i as int)),
        decreases m.len() - i,
    {
        assert(mv.skip(i as int)[0] == (m@[i as int].0@, m@[i as int].1));
        assert(mv.skip(i as int).drop_first() =~= mv.skip(i + 1));
        i = i + 1;
    }
    if i == m.len() {
        assert(mv.skip(i as int).len() == 0);
        return Err(CreatePlanError::NoMailbox);
    }
    assert(mv.skip(i as int)[0] == (m@[i as int].0@, m@[i as int].1));
    let primary = m[i].0.clone();
    if !is_uuid(primary.as_str()) {
        return Err(CreatePlanError::InvalidMailbox(primary));
    }
    let mut extra: Vec<String> = Vec::new();
    let mut j: usize = 0;
    assert(mv.take(0) =~= Seq::<(Seq<char>, bool)>::empty());
    while j < m.len()
        invariant
            j <= m@.len(),
            mv == flag_map_view(m@),
            strings_view(extra@) == extra_mailboxes_of(mv.take(j as int), primary@),
        decreases m.len() - j,
    {
        proof {
            assert(mv.take(j + 1).drop_last() =~= mv.take(j as int));
            assert(mv.take(j + 1).last() == (m@[j as int].0@, m@[j as int].1));
        }
        if m[j].1 && !str_eq(m[j].0.as_str(), primary.as_str()) && is_uuid(m[j].0.as_str()) {
            let ghost before = extra@;
            extra.push(m[j].0.clone());
            assert(strings_view(extra@) =~= strings_view(before).push(m@[j as int].0@));
        }
        j = j + 1;
    }
    assert(mv.take(m@.len() as int) =~= mv);
    let flags = match &email_obj.keywords {
        Some(k) => if k.len() > 0 {
            Some(keywords_to_flags(k))
        } else {
            None
        },
        None => None,
    };
    Ok(CreatePlan { primary, extra_mailboxes: extra, flags })
}

// ── Search criteria ─────────────────────────────────────────────────────────

/// What a message store searches for.
#[derive(Debug)]
pub enum SearchCriteria {
    All,
    Subject(String),
    Body(String),
    From(String),
    To(String),
    Seen,
    Flagged,
    Unseen,
    Unflagged,
    And(Vec<SearchCriteria>),
}

/// One condition of a search.
pub enum CriterionView {
    Subject(Seq<char>),
    Body(Seq<char>),
    From(Seq<char>),
    To(Seq<char>),
    Seen,
    Flagged,
    Unseen,
    Unflagged,
}

/// The condition a criterion states, if it states one.
pub open spec fn criterion(c: SearchCriteria) -> Option<CriterionView> {
    match c {
        SearchCriteria::Subject(s) => Some(CriterionView::Subject(s@)),
        SearchCriteria::Body(s) => Some(CriterionView::Body(s@)),
        SearchCriteria::From(s) => Some(CriterionView::From(s@)),
        SearchCriteria::To(s) => Some(CriterionView::To(s@)),
        SearchCriteria::Seen => Some(CriterionView::Seen),
        SearchCriteria::Flagged => Some(CriterionView::Flagged),
        SearchCriteria::Unseen => Some(CriterionView::Unseen),
        SearchCriteria::Unflagged => Some(CriterionView::Unflagged),
        _ => None,
    }
}

/// The conditions of a list of criteria.
pub open spec fn criteria_view(s: Seq<SearchCriteria>) -> Seq<Option<CriterionView>> {
    s.map_values(|c: SearchCriteria| criterion(c))
}

/// The conditions of a `text` condition: subject and body.
pub open spec fn text_conditions(o: Option<String>) -> Seq<Option<CriterionView>> {
    match o {
        Some(t) => seq![Some(CriterionView::Subject(t@)), Some(CriterionView::Body(t@))],
        None => seq![],
    }
}

/// The condition of a `from` condition.
pub open spec fn from_conditions(o: Option<String>) -> Seq<Option<CriterionView>> {
    match o {
        Some(t) => seq![Some(CriterionView::From(t@))],
        None => seq![],
    }
}

/// The condition of a `to` condition.
pub open spec fn to_conditions(o: Option<String>) -> Seq<Option<CriterionView>> {
    match o {
        Some(t) => seq![Some(CriterionView::To(t@))],
        None => seq![],
    }
}

/// The condition of a `subject` condition.
pub open spec fn subject_conditions(o: Option<String>) -> Seq<Option<CriterionView>> {
    match o {
        Some(t) => seq![Some(CriterionView::Subject(t@))],
        None => seq![],
    }
}

/// The condition of a `body` condition.
pub open spec fn body_conditions(o: Option<String>) -> Seq<Option<CriterionView>> {
    match o {
        Some(t) => seq![Some(CriterionView::Body(t@))],
        None => seq![],
    }
}

/// The condition of a `hasKeyword` condition: seen or flagged, else none.
pub open spec fn has_keyword_conditions(o: Option<String>) -> Seq<Option<CriterionView>> {
    match o {
        Some(k) => if k@ == "$seen"@ {
            seq![Some(CriterionView::Seen)]
        } else if k@ == "$flagged"@ {
            seq![Some(CriterionView::Flagged)]
        } else {
            seq![]
        },
        None => seq![],
    }
}

/// The condition of a `notKeyword` condition: unseen or unflagged, else
/// none.
pub open spec fn not_keyword_conditions(o: Option<String>) -> Seq<Option<CriterionView>> {
    match o {
        Some(k) => if k@ == "$seen"@ {
            seq![Some(CriterionView::Unseen)]
        } else if k@ == "$flagged"@ {
            seq![Some(CriterionView::Unflagged)]
        } else {
            seq![]
        },
        None => seq![],
    }
}

/// The conditions a filter asks for, in order: subject and body for
/// `text`, then `from`, `to`, `subject`, `body`, and the seen or flagged
/// keyword (present or absent).
pub open spec fn filter_conditions(f: EmailFilterCondition) -> Seq<Option<CriterionView>> {
    text_conditions(f.text) + from_conditions(f.from) + to_conditions(f.to) + subject_conditions(f.subject)
        + body_conditions(f.body) + has_keyword_conditions(f.has_keyword) + not_keyword_conditions(f.not_keyword)
}

fn push_criterion(v: &mut Vec<SearchCriteria>, c: SearchCriteria)
    ensures
        criteria_view(final(v)@) == criteria_view(old(v)@).push(criterion(c)),
{
    let ghost cv = criterion(c);
    v.push(c);
    assert(criteria_view(v@) =~= criteria_view(old(v)@).push(cv));
}

fn push_text(v: &mut Vec<SearchCriteria>, o: &Option<String>)
    ensures
        criteria_view(final(v)@) == criteria_view(old(v)@) + text_conditions(*o),
{
    match o {
        Some(t) => {
            push_criterion(v, SearchCriteria::Subject(t.clone()));
            push_criterion(v, SearchCriteria::Body(t.clone()));
            assert(criteria_view(v@) =~= criteria_view(old(v)@) + text_conditions(*o));
        },
        None => assert(criteria_view(v@) =~= criteria_view(old(v)@) + text_conditions(*o)),
    }
}

fn push_one(v: &mut Vec<SearchCriteria>, o: &Option<String>, which: u8)
    requires
        which < 4,
    ensures
        criteria_view(final(v)@) == criteria_view(old(v)@) + (if which == 0 {
            from_conditions(*o)
        } else if which == 1 {
            to_conditions(*o)
        } else if which == 2 {
            subject_conditions(*o)
        } else {
            body_conditions(*o)
        }),
{
    match o {
        Some(t) => {
            let c = if which == 0 {
                SearchCriteria::From(t.clone())
            } else if which == 1 {
                SearchCriteria::To(t.clone())
            } else if which == 2 {
                SearchCriteria::Subject(t.clone())
            } else {
                SearchCriteria::Body(t.clone())
            };
            push_criterion(v, c);
            assert(criteria_view(v@) =~= criteria_view(old(v)@) + seq![criterion(c)]);
        },
        None => assert(criteria_view(v@) =~= criteria_view(old(v)@) + Seq::<Option<CriterionView>>::empty()),
    }
}

fn push_keyword(v: &mut Vec<SearchCriteria>, o: &Option<String>, present: bool)
    ensures
        criteria_view(final(v)@) == criteria_view(old(v)@) + (if present {
            has_keyword_conditions(*o)
        } else {
            not_keyword_conditions(*o)
        }),
{
    let ghost empty = Seq::<Option<CriterionView>>::empty();
    match o {
        Some(k) => {
            if str_eq(k.as_str(), "$seen") {
                push_criterion(v, if present { SearchCriteria::Seen } else { SearchCriteria::Unseen });
                assert(criteria_view(v@) =~= criteria_view(old(v)@) + (if present {
                    has_keyword_conditions(*o)
                } else {
                    not_keyword_conditions(*o)
                }));
            } else if str_eq(k.as_str(), "$flagged") {
                push_criterion(v, if present { SearchCriteria::Flagged } else { SearchCriteria::Unflagged });
                assert(criteria_view(v@) =~= criteria_view(old(v)@) + (if present {
                    has_keyword_conditions(*o)
                } else {
                    not_keyword_conditions(*o)
                }));
            } else {
                assert(criteria_view(v@) =~= criteria_view(old(v)@) + empty);
            }
        },
        None => assert(criteria_view(v@) =~= criteria_view(old(v)@) + empty),
    }
}

/// The search a filter asks for: everything when it states no condition,
/// the one condition, or all of them together (see `filter_conditions`).
pub fn build_search_criteria(filter: &EmailFilterCondition) -> (r: SearchCriteria)
    ensures
        ({
            let c = filter_conditions(*filter);
            if c.len() == 0 {
                r is All
            } else if c.len() == 1 {
                criterion(r) == c[0]
            } else {
                r matches SearchCriteria::And(v) && criteria_view(v@) == c
            }
        }),
{
    let mut v: Vec<SearchCriteria> = Vec::new();
    assert(criteria_view(v@) =~= Seq::<Option<CriterionView>>::empty());
    push_text(&mut v, &filter.text);
    push_one(&mut v, &filter.from, 0);
    push_one(&mut v, &filter.to, 1);
    push_one(&mut v, &filter.subject, 2);
    push_one(&mut v, &filter.body, 3);
    push_keyword(&mut v, &filter.has_keyword, true);
    push_keyword(&mut v, &filter.not_keyword, false);
    assert(criteria_view(v@) =~= filter_conditions(*filter));
    if v.len() == 0 {
        SearchCriteria::All
    } else if v.len() == 1 {
        let only = v.remove(0);
        assert(criterion(only) == criteria_view(v@.insert(0, only))[0]);
        only
    } else {
        SearchCriteria::And(v)
    }
}


// ── Building a message for Email/set create ─────────────────────────────────

/// An address header, when the list is given and not empty.
pub open spec fn address_header(name: Seq<char>, o: Option<Vec<EmailAddress>>) -> Seq<(Seq<char>, Seq<char>)> {
    match o {
        Some(v) => if v@.len() > 0 {
            seq![(name, addresses_text(addresses_view(v@)))]
        } else {
            seq![]
        },
        None => seq![],
    }
}

/// A header holding the first of a list of ids, when there is one.
pub open spec fn first_id_header(name: Seq<char>, o: Option<Vec<String>>) -> Seq<(Seq<char>, Seq<char>)> {
    match o {
        Some(v) => if v@.len() > 0 {
            seq![(name, v@[0]@)]
        } else {
            seq![]
        },
        None => seq![],
    }
}

/// Texts joined by single spaces.
pub open spec fn joined(s: Seq<Seq<char>>) -> Seq<char>
    decreases s.len(),
{
    if s.len() == 0 {
        seq![]
    } else if s.len() == 1 {
        s[0]
    } else {
        joined(s.drop_last()) + seq![' '] + s.last()
    }
}

/// The headers of the message an `Email/set` create builds, in order:
/// the address headers, the subject, the date, the first message id and
/// reply id, the references joined by spaces, and a plain-text content
/// type.
pub open spec fn mail_headers_of(obj: EmailSetObject, date: Seq<char>) -> Seq<(Seq<char>, Seq<char>)> {
    address_header("from"@, obj.from) + address_header("to"@, obj.to) + address_header("cc"@, obj.cc)
        + address_header("bcc"@, obj.bcc) + address_header("reply-to"@, obj.reply_to) + address_header(
        "sender"@,
        obj.sender,
    ) + (match obj.subject {
        Some(s) => seq![("subject"@, s@)],
        None => seq![],
    }) + seq![("date"@, date)] + first_id_header("message-id"@, obj.message_id) + first_id_header(
        "in-reply-to"@,
        obj.in_reply_to,
    ) + (match obj.references {
        Some(r) => if r@.len() > 0 {
            seq![("references"@, joined(strings_view(r@)))]
        } else {
            seq![]
        },
        None => seq![],
    }) + seq![("content-type"@, "text/plain; charset=utf-8"@)]
}

/// The contents of a header list.
pub open spec fn header_pairs(s: Seq<(String, String)>) -> Seq<(Seq<char>, Seq<char>)> {
    s.map_values(|p: (String, String)| (p.0@, p.1@))
}

fn push_header(out: &mut Vec<(String, String)>, name: &str, value: String)
    ensures
        header_pairs(final(out)@) == header_pairs(old(out)@) + seq![(name@, value@)],
{
    let ghost vv = value@;
    out.push((string_from(name), value));
    assert(header_pairs(out@) =~= header_pairs(old(out)@) + seq![(name@, vv)]);
}

fn push_address_header(out: &mut Vec<(String, String)>, name: &str, o: &Option<Vec<EmailAddress>>)
    ensures
        header_pairs(final(out)@) == header_pairs(old(out)@) + address_header(name@, *o),
{
    match o {
        Some(v) => if v.len() > 0 {
            push_header(out, name, format_addresses(v.as_slice()));
        } else {
            assert(header_pairs(out@) =~= header_pairs(old(out)@) + address_header(name@, *o));
        },
        None => assert(header_pairs(out@) =~= header_pairs(old(out)@) + address_header(name@, *o)),
    }
}

fn push_first_id_header(out: &mut Vec<(String, String)>, name: &str, o: &Option<Vec<String>>)
    ensures
        header_pairs(final(out)@) == header_pairs(old(out)@) + first_id_header(name@, *o),
{
    match o {
        Some(v) => if v.len() > 0 {
            push_header(out, name, v[0].clone());
        } else {
            assert(header_pairs(out@) =~= header_pairs(old(out)@) + first_id_header(name@, *o));
        },
        None => assert(header_pairs(out@) =~= header_pairs(old(out)@) + first_id_header(name@, *o)),
    }
}

/// Texts joined by single spaces.
pub fn join_spaced(v: &Vec<String>) -> (r: String)
    ensures
        r@ == joined(strings_view(v@)),
{
    let ghost sv = strings_view(v@);
    let mut out = String::new();
    let mut i: usize = 0;
    assert(sv.take(0) =~= Seq::<Seq<char>>::empty());
    assert(out@ =~= Seq::<char>::empty());
    while i < v.len()
        invariant
            i <= v@.len(),
            sv == strings_view(v@),
            out@ == joined(sv.take(i as int)),
        decreases v.len() - i,
    {
        proof {
            assert(sv.take(i + 1).drop_last() =~= sv.take(i as int));
            assert(sv.take(i + 1).last() == v@[i as int]@);
        }
        if i == 0 {
            out = v[0].clone();
            assert(sv.take(1) =~= seq![v@[0]@]);
        } else {
            let spaced = concat(out.as_str(), " ");
            out = concat(spaced.as_str(), v[i].as_str());
            proof {
                reveal_strlit(" ");
            }
            assert(out@ =~= joined(sv.take(i as int)) + seq![' '] + v@[i as int]@);
        }
        i = i + 1;
    }
    assert(sv.take(v@.len() as int) =~= sv);
    out
}

/// The headers of the message an `Email/set` create builds, with the given
/// date text (see `mail_headers_of`).
pub fn mail_headers(email_obj: &EmailSetObject, date: String) -> (r: Vec<(String, String)>)
    ensures
        header_pairs(r@) == mail_headers_of(*email_obj, date@),
{
    let mut out: Vec<(String, String)> = Vec::new();
    assert(header_pairs(out@) =~= Seq::<(Seq<char>, Seq<char>)>::empty());
    push_address_header(&mut out, "from", &email_obj.from);
    push_address_header(&mut out, "to", &email_obj.to);
    push_address_header(&mut out, "cc", &email_obj.cc);
    push_address_header(&mut out, "bcc", &email_obj.bcc);
    push_address_header(&mut out, "reply-to", &email_obj.reply_to);
    push_address_header(&mut out, "sender", &email_obj.sender);
    let ghost a = header_pairs(out@);
    match &email_obj.subject {
        Some(s) => push_header(&mut out, "subject", s.clone()),
        None => {},
    }
    let ghost b = header_pairs(out@);
    push_header(&mut out, "date", date);
    push_first_id_header(&mut out, "message-id", &email_obj.message_id);
    push_first_id_header(&mut out, "in-reply-to", &email_obj.in_reply_to);
    let ghost c = header_pairs(out@);
    match &email_obj.references {
        Some(r) => if r.len() > 0 {
            push_header(&mut out, "references", join_spaced(r));
        },
        None => {},
    }
    let ghost d = header_pairs(out@);
    push_header(&mut out, "content-type", string_from("text/plain; charset=utf-8"));
    assert(header_pairs(out@) =~= mail_headers_of(*email_obj, date@));
    out
}

/// A message to be stored: its headers in order, its body text, and the
/// instant its date names.
#[derive(Debug)]
pub struct MailDraft {
    pub headers: Vec<(String, String)>,
    pub body: String,
    pub date_ms: i64,
}

/// The message an `Email/set` create stores, with `now` as the current
/// time: the headers of `mail_headers_of` with the RFC 2822 text of
/// `sentAt` (or of `now`) as the date, and the text of its text body parts.
/// Without `sentAt`, `Err` where `now` falls outside the years 0 to 9999.
pub fn build_mail_from_set_object_with(email_obj: &EmailSetObject, now: i64) -> (r: Result<MailDraft, String>)
    requires
        match email_obj.sent_at {
            Some(ms) => rfc2822_representable(ms),
            None => true,
        },
    ensures
        ({
            let ms = match email_obj.sent_at {
                Some(t) => t,
                None => now,
            };
            &&& rfc2822_representable(ms) ==> r is Ok && r->Ok_0.date_ms == ms
                && header_pairs(r->Ok_0.headers@) == mail_headers_of(*email_obj, rfc2822_text(ms))
                && r->Ok_0.body@ == body_text(*email_obj)
            &&& !rfc2822_representable(ms) ==> r is Err && r->Err_0@ == "the current time has no RFC 2822 date"@
        }),
{
    let body = build_body_text(email_obj);
    let ms = match email_obj.sent_at {
        Some(ms) => ms,
        None => {
            if !(-62167219200000 <= now && now <= 253402300799999) {
                return Err(string_from("the current time has no RFC 2822 date"));
            }
            now
        },
    };
    Ok(MailDraft { headers: mail_headers(email_obj, rfc2822_date(ms)), body, date_ms: ms })
}

/// The message an `Email/set` create stores, dated `sentAt` or, without
/// it, the current time (see `build_mail_from_set_object_with`).
pub fn build_mail_from_set_object(email_obj: &EmailSetObject) -> (r: Result<MailDraft, String>)
    requires
        match email_obj.sent_at {
            Some(ms) => rfc2822_representable(ms),
            None => true,
        },
    ensures
        email_obj.sent_at is Some ==> r is Ok && r->Ok_0.date_ms == email_obj.sent_at->0,
        r is Ok ==> header_pairs(r->Ok_0.headers@) == mail_headers_of(*email_obj, rfc2822_text(r->Ok_0.date_ms)),
        r is Ok ==> r->Ok_0.body@ == body_text(*email_obj),
        r is Err ==> email_obj.sent_at is None && r->Err_0@ == "the current time has no RFC 2822 date"@,
        r is Ok ==> rfc2822_representable(r->Ok_0.date_ms),
{
    let now = crate::outside::now_millis();
    build_mail_from_set_object_with(email_obj, now)
}


// ── Laws ────────────────────────────────────────────────────────────────────

/// Flags read back through their keywords keep every system flag and drop
/// the custom keywords (which have no keyword of their own), given that
/// lower-casing leaves the system keyword names as they are, as
/// `str::to_lowercase` does for lower-case ASCII.
pub proof fn law_keywords_round_trip(f: FlagsContent)
    requires
        lowercase("$seen"@) == "$seen"@,
        lowercase("$answered"@) == "$answered"@,
        lowercase("$flagged"@) == "$flagged"@,
        lowercase("$deleted"@) == "$deleted"@,
        lowercase("$draft"@) == "$draft"@,
    ensures
        flags_of_keywords(keywords_of(f)) == (FlagsContent { custom: seq![], ..f }),
{
    reveal_strlit("$seen");
    reveal_strlit("$answered");
    reveal_strlit("$flagged");
    reveal_strlit("$deleted");
    reveal_strlit("$draft");
    assert("$seen"@.len() == 5 && "$answered"@.len() == 9 && "$flagged"@.len() == 8 && "$deleted"@.len() == 8
        && "$draft"@.len() == 6);
    assert("$flagged"@[1] != "$deleted"@[1]);
    let e: Seq<(Seq<char>, bool)> = seq![];
    let a: Seq<(Seq<char>, bool)> = if f.seen { e.push(("$seen"@, true)) } else { e };
    let b = if f.answered { a.push(("$answered"@, true)) } else { a };
    let c = if f.flagged { b.push(("$flagged"@, true)) } else { b };
    let d = if f.deleted { c.push(("$deleted"@, true)) } else { c };
    let k = if f.draft { d.push(("$draft"@, true)) } else { d };
    assert(k == keywords_of(f));
    lemma_flags_push(e, "$seen"@);
    lemma_flags_push(a, "$answered"@);
    lemma_flags_push(b, "$flagged"@);
    lemma_flags_push(c, "$deleted"@);
    lemma_flags_push(d, "$draft"@);
    let fa = flags_of_keywords(a);
    let fb = flags_of_keywords(b);
    let fc = flags_of_keywords(c);
    let fd = flags_of_keywords(d);
    let fk = flags_of_keywords(k);
    assert(fa == (FlagsContent { seen: f.seen, ..no_flags() }));
    assert(fb == (FlagsContent { seen: f.seen, answered: f.answered, ..no_flags() }));
    assert(fc == (FlagsContent { seen: f.seen, answered: f.answered, flagged: f.flagged, ..no_flags() }));
    assert(fd == (FlagsContent { seen: f.seen, answered: f.answered, flagged: f.flagged, deleted: f.deleted, ..no_flags() }));
    assert(fk == (FlagsContent { custom: seq![], ..f }));
}

/// The flags of a keyword map with one more keyword set on.
proof fn lemma_flags_push(s: Seq<(Seq<char>, bool)>, k: Seq<char>)
    ensures
        flags_of_keywords(s.push((k, true))) == set_keyword(flags_of_keywords(s), lowercase(k)),
{
    assert(s.push((k, true)).drop_last() == s);
}

proof fn lemma_contains_add<A>(a: Seq<A>, b: Seq<A>, x: A)
    ensures
        (a + b).contains(x) <==> a.contains(x) || b.contains(x),
{
    if (a + b).contains(x) {
        let i = choose|i: int| 0 <= i < (a + b).len() && (a + b)[i] == x;
        if i < a.len() {
            assert(a[i] == x);
        } else {
            assert(b[i - a.len()] == x);
        }
    }
    if a.contains(x) {
        let i = choose|i: int| 0 <= i < a.len() && a[i] == x;
        assert((a + b)[i] == x);
    }
    if b.contains(x) {
        let i = choose|i: int| 0 <= i < b.len() && b[i] == x;
        assert((a + b)[a.len() + i] == x);
    }
}

proof fn lemma_contains_small<A>(a: A, b: A, x: A)
    ensures
        Seq::<A>::empty().contains(x) == false,
        seq![a].contains(x) <==> x == a,
        seq![a, b].contains(x) <==> x == a || x == b,
{
    assert(seq![a][0] == a);
    assert(seq![a, b][0] == a && seq![a, b][1] == b);
}

proof fn lemma_conditions_contain(f: EmailFilterCondition, x: Option<CriterionView>)
    ensures
        filter_conditions(f).contains(x) <==> (text_conditions(f.text).contains(x) || from_conditions(f.from).contains(x)
            || to_conditions(f.to).contains(x) || subject_conditions(f.subject).contains(x) || body_conditions(f.body).contains(x)
            || has_keyword_conditions(f.has_keyword).contains(x) || not_keyword_conditions(f.not_keyword).contains(x)),
        text_conditions(f.text).contains(x) <==> (f.text matches Some(s) && (x == Some(CriterionView::Subject(s@)) || x == Some(CriterionView::Body(s@)))),
        from_conditions(f.from).contains(x) <==> (f.from matches Some(s) && x == Some(CriterionView::From(s@))),
        to_conditions(f.to).contains(x) <==> (f.to matches Some(s) && x == Some(CriterionView::To(s@))),
        subject_conditions(f.subject).contains(x) <==> (f.subject matches Some(s) && x == Some(CriterionView::Subject(s@))),
        body_conditions(f.body).contains(x) <==> (f.body matches Some(s) && x == Some(CriterionView::Body(s@))),
        has_keyword_conditions(f.has_keyword).contains(x) <==> (f.has_keyword matches Some(k) && ((k@ == "$seen"@ && x == Some(CriterionView::Seen))
            || (k@ != "$seen"@ && k@ == "$flagged"@ && x == Some(CriterionView::Flagged)))),
        not_keyword_conditions(f.not_keyword).contains(x) <==> (f.not_keyword matches Some(k) && ((k@ == "$seen"@ && x == Some(CriterionView::Unseen))
            || (k@ != "$seen"@ && k@ == "$flagged"@ && x == Some(CriterionView::Unflagged)))),
{
    let a1 = text_conditions(f.text);
    let a2 = from_conditions(f.from);
    let a3 = to_conditions(f.to);
    let a4 = subject_conditions(f.subject);
    let a5 = body_conditions(f.body);
    let a6 = has_keyword_conditions(f.has_keyword);
    let a7 = not_keyword_conditions(f.not_keyword);
    lemma_contains_add(a1, a2, x);
    lemma_contains_add(a1 + a2, a3, x);
    lemma_contains_add(a1 + a2 + a3, a4, x);
    lemma_contains_add(a1 + a2 + a3 + a4, a5, x);
    lemma_contains_add(a1 + a2 + a3 + a4 + a5, a6, x);
    lemma_contains_add(a1 + a2 + a3 + a4 + a5 + a6, a7, x);
    lemma_contains_small(x, x, x);
    match f.text {
        Some(s) => lemma_contains_small(Some(CriterionView::Subject(s@)), Some(CriterionView::Body(s@)), x),
        None => {},
    }
    match f.from {
        Some(s) => lemma_contains_small(Some(CriterionView::From(s@)), x, x),
        None => {},
    }
    match f.to {
        Some(s) => lemma_contains_small(Some(CriterionView::To(s@)), x, x),
        None => {},
    }
    match f.subject {
        Some(s) => lemma_contains_small(Some(CriterionView::Subject(s@)), x, x),
        None => {},
    }
    match f.body {
        Some(s) => lemma_contains_small(Some(CriterionView::Body(s@)), x, x),
        None => {},
    }
    lemma_contains_small(Some(CriterionView::Seen), x, x);
    lemma_contains_small(Some(CriterionView::Flagged), x, x);
    lemma_contains_small(Some(CriterionView::Unseen), x, x);
    lemma_contains_small(Some(CriterionView::Unflagged), x, x);
}

/// What a filter searches for: a `to` condition, and only it, gives a `to`
/// criterion with its text; a `from` condition, and only it, a `from`
/// criterion; `subject` and `text` give subject criteria, `body` and
/// `text` body criteria; `hasKeyword` and `notKeyword` give the seen and
/// flagged criteria. A filter whose only condition is `to` searches for
/// exactly that.
pub proof fn law_search_conditions(f: EmailFilterCondition, t: Seq<char>)
    ensures
        filter_conditions(f).contains(Some(CriterionView::To(t))) <==> (f.to matches Some(x) && x@ == t),
        filter_conditions(f).contains(Some(CriterionView::From(t))) <==> (f.from matches Some(x) && x@ == t),
        filter_conditions(f).contains(Some(CriterionView::Subject(t))) <==> (f.subject matches Some(x) && x@ == t)
            || (f.text matches Some(x) && x@ == t),
        filter_conditions(f).contains(Some(CriterionView::Body(t))) <==> (f.body matches Some(x) && x@ == t)
            || (f.text matches Some(x) && x@ == t),
        filter_conditions(f).contains(Some(CriterionView::Seen)) <==> (f.has_keyword matches Some(k) && k@ == "$seen"@),
        filter_conditions(f).contains(Some(CriterionView::Unseen)) <==> (f.not_keyword matches Some(k) && k@ == "$seen"@),
        filter_conditions(f).contains(Some(CriterionView::Flagged)) <==> (f.has_keyword matches Some(k) && k@ != "$seen"@
            && k@ == "$flagged"@),
        filter_conditions(f).contains(Some(CriterionView::Unflagged)) <==> (f.not_keyword matches Some(k) && k@ != "$seen"@
            && k@ == "$flagged"@),
        f.text is None && f.from is None && f.subject is None && f.body is None && f.has_keyword is None
            && f.not_keyword is None && f.to is Some ==> filter_conditions(f) == seq![Some(CriterionView::To(f.to->0@))],
{
    lemma_conditions_contain(f, Some(CriterionView::To(t)));
    lemma_conditions_contain(f, Some(CriterionView::From(t)));
    lemma_conditions_contain(f, Some(CriterionView::Subject(t)));
    lemma_conditions_contain(f, Some(CriterionView::Body(t)));
    lemma_conditions_contain(f, Some(CriterionView::Seen));
    lemma_conditions_contain(f, Some(CriterionView::Unseen));
    lemma_conditions_contain(f, Some(CriterionView::Flagged));
    lemma_conditions_contain(f, Some(CriterionView::Unflagged));
    let a3 = to_conditions(f.to);
    if f.text is None && f.from is None && f.subject is None && f.body is None && f.has_keyword is None
        && f.not_keyword is None && f.to is Some {
        assert(filter_conditions(f) =~= a3);
    }
}

/// A message whose first `Content-Disposition` header, lower-cased,
/// contains `attachment` has an attachment, whatever its content type; a
/// `text/plain` message whose disposition (if any) does not say
/// `attachment` has none.
pub proof fn law_attachment_disposition(h: Seq<(Seq<char>, Seq<Seq<char>>)>)
    ensures
        header_first(h, "content-disposition"@) matches Some(d) && has_substring(lowercase(d), "attachment"@)
            ==> shows_attachment(h),
        header_first(h, "content-type"@) matches Some(c) && lowercase(c) == "text/plain"@
            && !(header_first(h, "content-disposition"@) matches Some(d) && has_substring(lowercase(d), "attachment"@))
            ==> !shows_attachment(h),
        header_first(h, "content-type"@) is None
            && !(header_first(h, "content-disposition"@) matches Some(d) && has_substring(lowercase(d), "attachment"@))
            ==> !shows_attachment(h),
        header_first(h, "content-type"@) matches Some(c) && (has_substring(lowercase(c), "multipart/mixed"@)
            || has_substring(lowercase(c), "multipart/related"@)) ==> shows_attachment(h),
        header_first(h, "content-type"@) matches Some(c) && (seq_starts_with(lowercase(c), "image/"@) || seq_starts_with(
            lowercase(c),
            "application/"@,
        ) || seq_starts_with(lowercase(c), "audio/"@) || seq_starts_with(lowercase(c), "video/"@)) && has_substring(
            lowercase(c),
            "name="@,
        ) && !has_substring(lowercase(c), "multipart/alternative"@) ==> shows_attachment(h),
        header_first(h, "content-type"@) matches Some(c) && !has_substring(lowercase(c), "multipart/mixed"@)
            && !has_substring(lowercase(c), "multipart/related"@) && !has_substring(lowercase(c), "name="@)
            && !(header_first(h, "content-disposition"@) matches Some(d) && has_substring(lowercase(d), "attachment"@))
            ==> !shows_attachment(h),
{
    reveal_strlit("text/plain");
    reveal_strlit("multipart/mixed");
    reveal_strlit("multipart/related");
    reveal_strlit("image/");
    reveal_strlit("application/");
    reveal_strlit("audio/");
    reveal_strlit("video/");
    let tp = "text/plain"@;
    assert(!seq_starts_with(tp, "image/"@)) by {
        assert(tp.take(6)[0] != "image/"@[0]);
    }
    assert(!seq_starts_with(tp, "application/"@)) by {
        assert("application/"@.len() > tp.len());
    }
    assert(!seq_starts_with(tp, "audio/"@)) by {
        assert(tp.take(6)[0] != "audio/"@[0]);
    }
    assert(!seq_starts_with(tp, "video/"@)) by {
        assert(tp.take(6)[0] != "video/"@[0]);
    }
}

} // verus!
