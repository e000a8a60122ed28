//! Sender identities (RFC 8621 §6): `Identity/get`, `Identity/set` and
//! `Identity/changes` over one account's identity state.
use vstd::prelude::*;

use std::path::PathBuf;

use crate::json::{jm, jm_entries, lemma_jm_entries, obj_get, obj_lookup, JModel, JsonValue};
use crate::maps::{lemma_vput, lemma_vremove, lemma_pairs_view_len, pairs_view, vget, vlookup, vput, vput_exec, vremove, vremove_exec};
use crate::methods::{ensure_account_ownership, forbidden_message};
use crate::outside::new_uuid_string;
use crate::text::{
    chars_of, chars_skip, concat, contains_str, decimal, has_substring, str_eq, string_from, string_of,
    strings_view, u64_to_decimal,
};
use crate::types::{
    addresses_view, clone_addresses, opt_addresses_view, AddressView, EmailAddress, JmapSetError,
    Principal, SetErrorView,
};

verus! {

/// A sender identity.
#[derive(Debug)]
pub struct Identity {
    pub id: String,
    pub name: String,
    pub email: String,
    pub reply_to: Option<Vec<EmailAddress>>,
    pub bcc: Option<Vec<EmailAddress>>,
    pub text_signature: Option<String>,
    pub html_signature: Option<String>,
    pub may_delete: bool,
}

/// The content of an identity.
pub struct IdentityView {
    pub id: Seq<char>,
    pub name: Seq<char>,
    pub email: Seq<char>,
    pub reply_to: Option<Seq<AddressView>>,
    pub bcc: Option<Seq<AddressView>>,
    pub text_signature: Option<Seq<char>>,
    pub html_signature: Option<Seq<char>>,
    pub may_delete: bool,
}

/// The content of an optional string.
pub open spec fn opt_text(o: Option<String>) -> Option<Seq<char>> {
    match o {
        Some(s) => Some(s@),
        None => None,
    }
}

impl View for Identity {
    type V = IdentityView;

    open spec fn view(&self) -> IdentityView {
        IdentityView {
            id: self.id@,
            name: self.name@,
            email: self.email@,
            reply_to: opt_addresses_view(self.reply_to),
            bcc: opt_addresses_view(self.bcc),
            text_signature: opt_text(self.text_signature),
            html_signature: opt_text(self.html_signature),
            may_delete: self.may_delete,
        }
    }
}

fn clone_text(o: &Option<String>) -> (r: Option<String>)
    ensures
        opt_text(r) == opt_text(*o),
{
    match o {
        Some(s) => Some(s.clone()),
        None => None,
    }
}

impl Identity {
    /// A copy of the identity.
    pub fn duplicate(&self) -> (r: Identity)
        ensures
            r@ == self@,
    {
        Identity {
            id: self.id.clone(),
            name: self.name.clone(),
            email: self.email.clone(),
            reply_to: clone_addresses(&self.reply_to),
            bcc: clone_addresses(&self.bcc),
            text_signature: clone_text(&self.text_signature),
            html_signature: clone_text(&self.html_signature),
            may_delete: self.may_delete,
        }
    }
}

// ── Account state ───────────────────────────────────────────────────────────

/// One account's identities and the version counter that every change
/// increments.
#[derive(Debug)]
pub struct IdentityAccountState {
    pub identities: Vec<(String, Identity)>,
    pub state_version: u64,
}

/// The content of an account's identity state.
pub struct AccountView {
    pub identities: Seq<(Seq<char>, IdentityView)>,
    pub state_version: u64,
}

impl View for IdentityAccountState {
    type V = AccountView;

    open spec fn view(&self) -> AccountView {
        AccountView { identities: pairs_view(self.identities@), state_version: self.state_version }
    }
}

/// The address of the default identity: the user name when it is an
/// address, else `{account_id}@localhost`.
pub open spec fn default_email(account_id: Seq<char>, username: Seq<char>) -> Seq<char> {
    if crate::text::has_char(username, '@') {
        username
    } else {
        account_id + "@localhost"@
    }
}

/// The undeletable identity every account starts with.
pub open spec fn default_identity(account_id: Seq<char>, username: Seq<char>) -> IdentityView {
    IdentityView {
        id: "default"@,
        name: "Default User"@,
        email: default_email(account_id, username),
        reply_to: None,
        bcc: None,
        text_signature: None,
        html_signature: None,
        may_delete: false,
    }
}

/// A new account: the default identity, at version 1.
pub open spec fn default_account(account_id: Seq<char>, username: Seq<char>) -> AccountView {
    AccountView { identities: seq![("default"@, default_identity(account_id, username))], state_version: 1 }
}

/// The text of a version counter.
pub open spec fn state_text(a: AccountView) -> Seq<char> {
    decimal(a.state_version as nat)
}

/// The error for an identity that does not exist.
pub open spec fn not_found_text(id: Seq<char>) -> Seq<char> {
    "Identity '"@ + id + "' not found"@
}

// ── Patches ─────────────────────────────────────────────────────────────────

/// A patch key without its leading `/` characters.
pub open spec fn trim_slashes(k: Seq<char>) -> Seq<char>
    decreases k.len(),
{
    if k.len() > 0 && k[0] == '/' {
        trim_slashes(k.drop_first())
    } else {
        k
    }
}

/// A mail address read from JSON: an object with a string `email` and an
/// optional string `name`.
pub open spec fn address_from(v: JModel) -> Option<AddressView> {
    match v {
        JModel::Object(e) => match obj_lookup(e, "email"@) {
            Some(JModel::Str(addr)) => match obj_lookup(e, "name"@) {
                None => Some(AddressView { name: None, email: addr }),
                Some(JModel::Null) => Some(AddressView { name: None, email: addr }),
                Some(JModel::Str(n)) => Some(AddressView { name: Some(n), email: addr }),
                _ => None,
            },
            _ => None,
        },
        _ => None,
    }
}

/// A list of mail addresses read from JSON items; `None` if one is not an
/// address.
pub open spec fn address_list_from(items: Seq<JModel>) -> Option<Seq<AddressView>>
    decreases items.len(),
{
    if items.len() == 0 {
        Some(seq![])
    } else {
        match address_list_from(items.drop_last()) {
            Some(prev) => match address_from(items.last()) {
                Some(a) => Some(prev.push(a)),
                None => None,
            },
            None => None,
        }
    }
}

/// An optional address list read from JSON: `null` or an array of
/// addresses; `None` for anything else.
pub open spec fn optional_addresses_from(v: JModel) -> Option<Option<Seq<AddressView>>> {
    match v {
        JModel::Null => Some(None),
        JModel::Array(items) => match address_list_from(items) {
            Some(l) => Some(Some(l)),
            None => None,
        },
        _ => None,
    }
}

/// An optional string read from JSON: `null` or a string.
pub open spec fn optional_text_from(v: JModel) -> Option<Option<Seq<char>>> {
    match v {
        JModel::Null => Some(None),
        JModel::Str(s) => Some(Some(s)),
        _ => None,
    }
}

/// The error for a member that does not fit its field.
pub open spec fn bad_field_text(field: Seq<char>) -> Seq<char> {
    "invalid value for identity field '"@ + field + "'"@
}

/// An identity with one field set from a patch member; members that name
/// no field are ignored, and `id` must be a string but is kept.
pub open spec fn set_identity_field(i: IdentityView, field: Seq<char>, v: JModel) -> Result<IdentityView, Seq<char>> {
    if field == "id"@ {
        match v {
            JModel::Str(_) => Ok(i),
            _ => Err(bad_field_text(field)),
        }
    } else if field == "name"@ {
        match v {
            JModel::Str(s) => Ok(IdentityView { name: s, ..i }),
            _ => Err(bad_field_text(field)),
        }
    } else if field == "email"@ {
        match v {
            JModel::Str(s) => Ok(IdentityView { email: s, ..i }),
            _ => Err(bad_field_text(field)),
        }
    } else if field == "replyTo"@ {
        match optional_addresses_from(v) {
            Some(l) => Ok(IdentityView { reply_to: l, ..i }),
            None => Err(bad_field_text(field)),
        }
    } else if field == "bcc"@ {
        match optional_addresses_from(v) {
            Some(l) => Ok(IdentityView { bcc: l, ..i }),
            None => Err(bad_field_text(field)),
        }
    } else if field == "textSignature"@ {
        match optional_text_from(v) {
            Some(t) => Ok(IdentityView { text_signature: t, ..i }),
            None => Err(bad_field_text(field)),
        }
    } else if field == "htmlSignature"@ {
        match optional_text_from(v) {
            Some(t) => Ok(IdentityView { html_signature: t, ..i }),
            None => Err(bad_field_text(field)),
        }
    } else if field == "mayDelete"@ {
        match v {
            JModel::Bool(b) => Ok(IdentityView { may_delete: b, ..i }),
            _ => Err(bad_field_text(field)),
        }
    } else {
        Ok(i)
    }
}

/// The members of a patch applied in order; the first misfit stops it.
pub open spec fn patch_fold(i: IdentityView, entries: Seq<(Seq<char>, JModel)>) -> Result<IdentityView, Seq<char>>
    decreases entries.len(),
{
    if entries.len() == 0 {
        Ok(i)
    } else {
        match patch_fold(i, entries.drop_last()) {
            Err(m) => Err(m),
            Ok(j) => set_identity_field(j, trim_slashes(entries.last().0), entries.last().1),
        }
    }
}

/// An identity after a patch; a patch that is not an object changes nothing.
pub open spec fn patch_identity(i: IdentityView, patch: JModel) -> Result<IdentityView, Seq<char>> {
    match patch {
        JModel::Object(e) => patch_fold(i, e),
        _ => Ok(i),
    }
}

/// A patched identity keeps its id, and the default identity stays
/// undeletable.
pub open spec fn finish_update(existing: IdentityView, key: Seq<char>, patched: IdentityView) -> IdentityView {
    IdentityView {
        id: existing.id,
        may_delete: if key == "default"@ {
            false
        } else {
            patched.may_delete
        },
        ..patched
    }
}

/// A patch key without its leading `/` characters.
pub fn trim_leading_slashes(k: &str) -> (r: String)
    ensures
        r@ == trim_slashes(k@),
{
    let c = chars_of(k);
    let mut i: usize = 0;
    assert(c@.skip(0) =~= c@);
    while i < c.len() && c[i] == '/'
        invariant
            i <= c@.len(),
            c@ == k@,
            trim_slashes(k@) == trim_slashes(c@.skip(i as int)),
        decreases c.len() - i,
    {
        assert(c@.skip(i as int).drop_first() =~= c@.skip(i + 1));
        i = i + 1;
    }
    let ghost rest = c@.skip(i as int);
    assert(trim_slashes(rest) == rest);
    let tail = chars_skip(&c, i);
    string_of(tail.as_slice())
}

fn parse_address(v: &JsonValue) -> (r: Option<EmailAddress>)
    ensures
        match r {
            Some(a) => address_from(jm(*v)) == Some(a@),
            None => address_from(jm(*v)) is None,
        },
{
    match v {
        JsonValue::Object(e) => match obj_get(e, "email") {
            Some(JsonValue::Str(addr)) => match obj_get(e, "name") {
                None => Some(EmailAddress { name: None, email: addr.clone() }),
                Some(JsonValue::Null) => Some(EmailAddress { name: None, email: addr.clone() }),
                Some(JsonValue::Str(n)) => Some(EmailAddress { name: Some(n.clone()), email: addr.clone() }),
                _ => None,
            },
            _ => None,
        },
        _ => None,
    }
}

fn parse_optional_addresses(v: &JsonValue) -> (r: Option<Option<Vec<EmailAddress>>>)
    ensures
        match r {
            Some(l) => optional_addresses_from(jm(*v)) == Some(opt_addresses_view(l)),
            None => optional_addresses_from(jm(*v)) is None,
        },
{
    match v {
        JsonValue::Null => Some(None),
        JsonValue::Array(items) => {
            let ghost iv = crate::json::jm_items(items@);
            proof {
                crate::json::lemma_jm_items(items@);
                assert(iv.take(0) =~= Seq::<JModel>::empty());
            }
            let mut out: Vec<EmailAddress> = Vec::new();
            let mut i: usize = 0;
            proof {
                assert(addresses_view(out@) =~= Seq::<AddressView>::empty());
            }
            while i < items.len()
                invariant
                    i <= items@.len(),
                    iv == crate::json::jm_items(items@),
                    jm(*v) == JModel::Array(iv),
                    iv.len() == items@.len(),
                    forall|j: int| 0 <= j < items@.len() ==> #[trigger] iv[j] == jm(items@[j]),
                    address_list_from(iv.take(i as int)) == Some(addresses_view(out@)),
                decreases items.len() - i,
            {
                proof {
                    assert(iv.take(i + 1).drop_last() =~= iv.take(i as int));
                    assert(iv.take(i + 1).last() == iv[i as int]);
                }
                match parse_address(&items[i]) {
                    Some(a) => {
                        let ghost before = out@;
                        out.push(a);
                        proof {
                            assert(addresses_view(out@) =~= addresses_view(before).push(out@.last()@));
                        }
                    },
                    None => {
                        proof {
                            assert(address_from(iv.take(i + 1).last()) is None);
                            assert(address_list_from(iv.take(i + 1)) is None);
                            lemma_address_list_stays_none(iv, i as int + 1);

                            assert(iv.take(iv.len() as int) =~= iv);
                        }
                        return None;
                    },
                }
                i = i + 1;
            }
            proof {
                assert(iv.take(items@.len() as int) =~= iv);
            }
            Some(Some(out))
        },
        _ => None,
    }
}

proof fn lemma_address_list_stays_none(items: Seq<JModel>, k: int)
    requires
        0 <= k <= items.len(),
        address_list_from(items.take(k)) is None,
    ensures
        address_list_from(items) is None,
    decreases items.len() - k,
{
    if k < items.len() {
        assert(items.take(k + 1).drop_last() =~= items.take(k));
        lemma_address_list_stays_none(items, k + 1);
    } else {
        assert(items.take(k) =~= items);
    }
}

fn parse_optional_text(v: &JsonValue) -> (r: Option<Option<String>>)
    ensures
        match r {
            Some(t) => optional_text_from(jm(*v)) == Some(opt_text(t)),
            None => optional_text_from(jm(*v)) is None,
        },
{
    match v {
        JsonValue::Null => Some(None),
        JsonValue::Str(s) => Some(Some(s.clone())),
        _ => None,
    }
}

fn bad_field(field: &str) -> (r: String)
    ensures
        r@ == bad_field_text(field@),
{
    let a = concat("invalid value for identity field '", field);
    concat(a.as_str(), "'")
}

/// The view of an identity result.
pub open spec fn identity_result_view(r: Result<Identity, String>) -> Result<IdentityView, Seq<char>> {
    match r {
        Ok(i) => Ok(i@),
        Err(m) => Err(m@),
    }
}

fn apply_identity_field(i: Identity, field: &str, v: &JsonValue) -> (r: Result<Identity, String>)
    ensures
        identity_result_view(r) == set_identity_field(i@, field@, jm(*v)),
{
    if str_eq(field, "id") {
        match v {
            JsonValue::Str(_) => Ok(i),
            _ => Err(bad_field(field)),
        }
    } else if str_eq(field, "name") {
        match v {
            JsonValue::Str(s) => Ok(Identity { name: s.clone(), ..i }),
            _ => Err(bad_field(field)),
        }
    } else if str_eq(field, "email") {
        match v {
            JsonValue::Str(s) => Ok(Identity { email: s.clone(), ..i }),
            _ => Err(bad_field(field)),
        }
    } else if str_eq(field, "replyTo") {
        match parse_optional_addresses(v) {
            Some(l) => Ok(Identity { reply_to: l, ..i }),
            None => Err(bad_field(field)),
        }
    } else if str_eq(field, "bcc") {
        match parse_optional_addresses(v) {
            Some(l) => Ok(Identity { bcc: l, ..i }),
            None => Err(bad_field(field)),
        }
    } else if str_eq(field, "textSignature") {
        match parse_optional_text(v) {
            Some(t) => Ok(Identity { text_signature: t, ..i }),
            None => Err(bad_field(field)),
        }
    } else if str_eq(field, "htmlSignature") {
        match parse_optional_text(v) {
            Some(t) => Ok(Identity { html_signature: t, ..i }),
            None => Err(bad_field(field)),
        }
    } else if str_eq(field, "mayDelete") {
        match v {
            JsonValue::Bool(b) => Ok(Identity { may_delete: *b, ..i }),
            _ => Err(bad_field(field)),
        }
    } else {
        Ok(i)
    }
}

/// An identity after a patch of top-level fields (keys may start with `/`).
pub fn apply_identity_patch(i: Identity, patch: &JsonValue) -> (r: Result<Identity, String>)
    ensures
        identity_result_view(r) == patch_identity(i@, jm(*patch)),
{
    match patch {
        JsonValue::Object(entries) => {
            let ghost ev = jm_entries(entries@);
            proof {
                lemma_jm_entries(entries@);
                assert(ev.take(0) =~= Seq::<(Seq<char>, JModel)>::empty());
            }
            let mut acc: Result<Identity, String> = Ok(i);
            let mut k: usize = 0;
            while k < entries.len()
                invariant
                    k <= entries@.len(),
                    ev == jm_entries(entries@),
                    ev.len() == entries@.len(),
                    forall|j: int| 0 <= j < entries@.len() ==> #[trigger] ev[j] == (entries@[j].0@, jm(entries@[j].1)),
                    identity_result_view(acc) == patch_fold(i@, ev.take(k as int)),
                decreases entries.len() - k,
            {
                proof {
                    assert(ev.take(k + 1).drop_last() =~= ev.take(k as int));
                    assert(ev.take(k + 1).last() == ev[k as int]);
                }
                acc = match acc {
                    Err(m) => Err(m),
                    Ok(cur) => {
                        let field = trim_leading_slashes(entries[k].0.as_str());
                        apply_identity_field(cur, field.as_str(), &entries[k].1)
                    },
                };
                k = k + 1;
            }
            proof {
                assert(ev.take(entries@.len() as int) =~= ev);
            }
            acc
        },
        _ => Ok(i),
    }
}


// ── Account operations ──────────────────────────────────────────────────────

/// The account after an identity is stored under its id.
pub open spec fn created_in(a: AccountView, ident: IdentityView) -> AccountView {
    AccountView { identities: vput(a.identities, ident.id, ident), state_version: (a.state_version + 1) as u64 }
}

/// The account and the result after the identity `id` is patched.
pub open spec fn update_outcome(a: AccountView, id: Seq<char>, patch: JModel) -> (AccountView, Result<IdentityView, Seq<char>>) {
    match vget(a.identities, id) {
        None => (a, Err(not_found_text(id))),
        Some(cur) => match patch_identity(cur, patch) {
            Err(m) => (a, Err(m)),
            Ok(p) => {
                let u = finish_update(cur, id, p);
                (AccountView { identities: vput(a.identities, id, u), state_version: (a.state_version + 1) as u64 }, Ok(u))
            },
        },
    }
}

/// The account and the result after the identity `id` is deleted.
pub open spec fn delete_outcome(a: AccountView, id: Seq<char>) -> (AccountView, Result<(), Seq<char>>) {
    match vget(a.identities, id) {
        None => (a, Err(not_found_text(id))),
        Some(_) => (AccountView { identities: vremove(a.identities, id), state_version: (a.state_version + 1) as u64 }, Ok(())),
    }
}

/// The contents of a list of identities.
pub open spec fn identities_view(s: Seq<Identity>) -> Seq<IdentityView> {
    s.map_values(|i: Identity| i@)
}

fn not_found_message(id: &str) -> (r: String)
    ensures
        r@ == not_found_text(id@),
{
    let a = concat("Identity '", id);
    concat(a.as_str(), "' not found")
}

impl IdentityAccountState {
    /// A new account holding only the default identity, at version 1.
    pub fn new_with_default(account_id: &str, username: &str) -> (r: Self)
        ensures
            r@ == default_account(account_id@, username@),
    {
        let c = chars_of(username);
        let email = if crate::text::contains_char(&c, '@') {
            string_from(username)
        } else {
            concat(account_id, "@localhost")
        };
        let mut identities: Vec<(String, Identity)> = Vec::new();
        identities.push(
            (
                string_from("default"),
                Identity {
                    id: string_from("default"),
                    name: string_from("Default User"),
                    email,
                    reply_to: None,
                    bcc: None,
                    text_signature: None,
                    html_signature: None,
                    may_delete: false,
                },
            ),
        );
        let r = IdentityAccountState { identities, state_version: 1 };
        proof {
            lemma_pairs_view_len(r.identities@);
            assert(pairs_view(r.identities@) =~= default_account(account_id@, username@).identities);
        }
        r
    }

    /// The state token: the version counter in decimal.
    pub fn state_token(&self) -> (r: String)
        ensures
            r@ == state_text(self@),
    {
        u64_to_decimal(self.state_version)
    }

    /// Every identity, in stored order.
    pub fn list_identities(&self) -> (r: Vec<Identity>)
        ensures
            identities_view(r@) == self@.identities.map_values(|p: (Seq<char>, IdentityView)| p.1),
    {
        proof {
            lemma_pairs_view_len(self.identities@);
        }
        let ghost want = self@.identities.map_values(|p: (Seq<char>, IdentityView)| p.1);
        let mut out: Vec<Identity> = Vec::new();
        let mut i: usize = 0;
        while i < self.identities.len()
            invariant
                i <= self.identities@.len(),
                want == self@.identities.map_values(|p: (Seq<char>, IdentityView)| p.1),
                want.len() == self.identities@.len(),
                forall|j: int| 0 <= j < self.identities@.len() ==> #[trigger] want[j] == self.identities@[j].1@,
                identities_view(out@) == want.take(i as int),
            decreases self.identities.len() - i,
        {
            let ghost before = out@;
            out.push(self.identities[i].1.duplicate());
            proof {
                assert(identities_view(out@) =~= identities_view(before).push(want[i as int]));
                assert(want.take(i + 1) =~= want.take(i as int).push(want[i as int]));
            }
            i = i + 1;
        }
        proof {
            assert(want.take(want.len() as int) =~= want);
        }
        out
    }

    /// The identity `id`, if there is one.
    pub fn get_identity(&self, id: &str) -> (r: Option<Identity>)
        ensures
            match r {
                Some(i) => vget(self@.identities, id@) == Some(i@),
                None => vget(self@.identities, id@) is None,
            },
    {
        match vlookup(&self.identities, id) {
            Some(i) => Some(i.duplicate()),
            None => None,
        }
    }

    /// Stores an identity under its id.
    pub fn create_identity(&mut self, identity: Identity) -> (r: Identity)
        requires
            old(self).state_version < u64::MAX,
        ensures
            final(self)@ == created_in(old(self)@, identity@),
            r@ == identity@,
    {
        let copy = identity.duplicate();
        vput_exec(&mut self.identities, identity.id.clone(), identity);
        self.state_version = self.state_version + 1;
        copy
    }

    /// Patches the identity `id`: it keeps its id, and the default identity
    /// stays undeletable.
    pub fn update_identity(&mut self, id: &str, patch: &JsonValue) -> (r: Result<Identity, String>)
        requires
            old(self).state_version < u64::MAX,
        ensures
            final(self)@ == update_outcome(old(self)@, id@, jm(*patch)).0,
            identity_result_view(r) == update_outcome(old(self)@, id@, jm(*patch)).1,
    {
        let existing = match vlookup(&self.identities, id) {
            Some(i) => i.duplicate(),
            None => {
                return Err(not_found_message(id));
            },
        };
        let patched = match apply_identity_patch(existing.duplicate(), patch) {
            Ok(p) => p,
            Err(m) => {
                return Err(m);
            },
        };
        let may_delete = if str_eq(id, "default") {
            false
        } else {
            patched.may_delete
        };
        let updated = Identity { id: existing.id.clone(), may_delete, ..patched };
        assert(updated@ == finish_update(existing@, id@, patched@));
        let copy = updated.duplicate();
        vput_exec(&mut self.identities, string_from(id), updated);
        self.state_version = self.state_version + 1;
        Ok(copy)
    }

    /// Deletes the identity `id`.
    pub fn delete_identity(&mut self, id: &str) -> (r: Result<(), String>)
        requires
            old(self).state_version < u64::MAX,
        ensures
            final(self)@ == delete_outcome(old(self)@, id@).0,
            match r {
                Ok(()) => delete_outcome(old(self)@, id@).1 is Ok,
                Err(m) => delete_outcome(old(self)@, id@).1 == Err::<(), Seq<char>>(m@),
            },
    {
        if !crate::maps::vcontains(&self.identities, id) {
            return Err(not_found_message(id));
        }
        let mut taken: Vec<(String, Identity)> = Vec::new();
        std::mem::swap(&mut taken, &mut self.identities);
        self.identities = vremove_exec(taken, id);
        self.state_version = self.state_version + 1;
        Ok(())
    }
}

// ── Identity/set ────────────────────────────────────────────────────────────

/// An identity to be created.
#[derive(Debug)]
pub struct IdentityObject {
    pub name: String,
    pub email: String,
    pub reply_to: Option<Vec<EmailAddress>>,
    pub bcc: Option<Vec<EmailAddress>>,
    pub text_signature: Option<String>,
    pub html_signature: Option<String>,
}

/// `Identity/get` arguments.
#[derive(Debug)]
pub struct IdentityGetRequest {
    pub account_id: String,
    pub ids: Option<Vec<String>>,
    pub properties: Option<Vec<String>>,
}

/// `Identity/get` result.
#[derive(Debug)]
pub struct IdentityGetResponse {
    pub account_id: String,
    pub state: String,
    pub list: Vec<Identity>,
    pub not_found: Vec<String>,
}

/// `Identity/set` arguments; `create` and `update` are keyed by creation id
/// and identity id.
#[derive(Debug)]
pub struct IdentitySetRequest {
    pub account_id: String,
    pub if_in_state: Option<String>,
    pub create: Option<Vec<(String, IdentityObject)>>,
    pub update: Option<Vec<(String, JsonValue)>>,
    pub destroy: Option<Vec<String>>,
}

/// `Identity/set` result; every map is left out when it would be empty.
#[derive(Debug)]
pub struct IdentitySetResponse {
    pub account_id: String,
    pub old_state: String,
    pub new_state: String,
    pub created: Option<Vec<(String, Identity)>>,
    pub updated: Option<Vec<(String, Option<Identity>)>>,
    pub destroyed: Option<Vec<String>>,
    pub not_created: Option<Vec<(String, JmapSetError)>>,
    pub not_updated: Option<Vec<(String, JmapSetError)>>,
    pub not_destroyed: Option<Vec<(String, JmapSetError)>>,
}

/// `Identity/changes` arguments.
#[derive(Debug)]
pub struct IdentityChangesRequest {
    pub account_id: String,
    pub since_state: String,
    pub max_changes: Option<u64>,
}

/// `Identity/changes` result.
#[derive(Debug)]
pub struct IdentityChangesResponse {
    pub account_id: String,
    pub old_state: String,
    pub new_state: String,
    pub has_more_changes: bool,
    pub created: Vec<String>,
    pub updated: Vec<String>,
    pub destroyed: Vec<String>,
}

/// Whether an address has exactly one `@`, with text on both sides.
pub open spec fn valid_email(s: Seq<char>) -> bool {
    exists|i: int|
        0 < i < s.len() - 1 && #[trigger] s[i] == '@' && forall|j: int| 0 <= j < s.len() && j != i ==> s[j] != '@'
}

/// Whether an address has exactly one `@`, with text on both sides.
pub fn is_valid_email(email: &str) -> (r: bool)
    ensures
        r == valid_email(email@),
{
    let c = chars_of(email);
    let mut count: usize = 0;
    let mut at: usize = 0;
    let mut i: usize = 0;
    while i < c.len()
        invariant
            i <= c@.len(),
            c@ == email@,
            count <= i,
            count == 0 ==> forall|j: int| 0 <= j < i ==> c@[j] != '@',
            count == 1 ==> at < i && c@[at as int] == '@' && forall|j: int| 0 <= j < i && j != at ==> c@[j] != '@',
            count >= 2 ==> exists|a: int, b: int| 0 <= a < b < i && c@[a] == '@' && c@[b] == '@',
        decreases c.len() - i,
    {
        if c[i] == '@' {
            if count == 0 {
                at = i;
            } else if count == 1 {
                assert(c@[at as int] == '@' && c@[i as int] == '@');
            }
            if count < 2 {
                count = count + 1;
            }
        }
        i = i + 1;
    }
    if count == 1 {
        let ok = at > 0 && at + 1 < c.len();
        if !ok {
            assert forall|k: int| 0 < k < c@.len() - 1 && #[trigger] c@[k] == '@' implies !(forall|j: int| 0 <= j < c@.len() && j != k ==> c@[j] != '@') by {
                assert(k == at);
            }
        }
        ok
    } else {
        if count == 0 {
            assert forall|k: int| 0 < k < c@.len() - 1 implies #[trigger] c@[k] != '@' by {}
        } else {
            let ghost (a, b) = choose|a: int, b: int| 0 <= a < b < c@.len() && c@[a] == '@' && c@[b] == '@';
            assert forall|k: int| 0 < k < c@.len() - 1 && #[trigger] c@[k] == '@' implies !(forall|j: int| 0 <= j < c@.len() && j != k ==> c@[j] != '@') by {
                if k == a {
                    assert(c@[b] == '@');
                } else {
                    assert(c@[a] == '@');
                }
            }
        }
        false
    }
}

/// The content of an identity to be created.
pub struct IdentityObjectView {
    pub name: Seq<char>,
    pub email: Seq<char>,
    pub reply_to: Option<Seq<AddressView>>,
    pub bcc: Option<Seq<AddressView>>,
    pub text_signature: Option<Seq<char>>,
    pub html_signature: Option<Seq<char>>,
}

impl View for IdentityObject {
    type V = IdentityObjectView;

    open spec fn view(&self) -> IdentityObjectView {
        IdentityObjectView {
            name: self.name@,
            email: self.email@,
            reply_to: opt_addresses_view(self.reply_to),
            bcc: opt_addresses_view(self.bcc),
            text_signature: opt_text(self.text_signature),
            html_signature: opt_text(self.html_signature),
        }
    }
}

/// How far an `Identity/set` call has got.
pub struct IdentitySetProgress {
    pub account: AccountView,
    pub created: Seq<(Seq<char>, IdentityView)>,
    pub not_created: Seq<(Seq<char>, SetErrorView)>,
    pub updated: Seq<(Seq<char>, IdentityView)>,
    pub not_updated: Seq<(Seq<char>, SetErrorView)>,
    pub destroyed: Seq<Seq<char>>,
    pub not_destroyed: Seq<(Seq<char>, SetErrorView)>,
}

/// The error type of a failed store operation: `notFound` when its text
/// says so, else `serverFail`.
pub open spec fn store_error_type(msg: Seq<char>) -> Seq<char> {
    if has_substring(msg, "not found"@) {
        "notFound"@
    } else {
        "serverFail"@
    }
}

/// A `/set` error with a description.
pub open spec fn set_error_of(t: Seq<char>, d: Seq<char>) -> SetErrorView {
    SetErrorView { error_type: t, description: Some(d) }
}

/// The identity a create makes: it may be deleted.
pub open spec fn new_identity(id: Seq<char>, obj: IdentityObjectView) -> IdentityView {
    IdentityView {
        id,
        name: obj.name,
        email: obj.email,
        reply_to: obj.reply_to,
        bcc: obj.bcc,
        text_signature: obj.text_signature,
        html_signature: obj.html_signature,
        may_delete: true,
    }
}

/// One create: the address must be valid.
pub open spec fn identity_create_step(p: IdentitySetProgress, cid: Seq<char>, obj: IdentityObjectView, new_id: Seq<char>) -> IdentitySetProgress {
    if !valid_email(obj.email) {
        IdentitySetProgress {
            not_created: vput(
                p.not_created,
                cid,
                set_error_of("invalidProperties"@, "Invalid email address: '"@ + obj.email + "'"@),
            ),
            ..p
        }
    } else {
        let ident = new_identity(new_id, obj);
        IdentitySetProgress { account: created_in(p.account, ident), created: vput(p.created, cid, ident), ..p }
    }
}

/// One update.
pub open spec fn identity_update_step(p: IdentitySetProgress, id: Seq<char>, patch: JModel) -> IdentitySetProgress {
    let (a, res) = update_outcome(p.account, id, patch);
    match res {
        Ok(u) => IdentitySetProgress { account: a, updated: vput(p.updated, id, u), ..p },
        Err(m) => IdentitySetProgress { not_updated: vput(p.not_updated, id, set_error_of(store_error_type(m), m)), ..p },
    }
}

/// One destroy: the default identity stays.
pub open spec fn identity_destroy_step(p: IdentitySetProgress, id: Seq<char>) -> IdentitySetProgress {
    if id == "default"@ {
        IdentitySetProgress {
            not_destroyed: vput(p.not_destroyed, id, set_error_of("forbidden"@, "Cannot delete default identity"@)),
            ..p
        }
    } else {
        let (a, res) = delete_outcome(p.account, id);
        match res {
            Ok(()) => IdentitySetProgress { account: a, destroyed: p.destroyed.push(id), ..p },
            Err(m) => IdentitySetProgress {
                not_destroyed: vput(p.not_destroyed, id, set_error_of(store_error_type(m), m)),
                ..p
            },
        }
    }
}

/// The creates in order; the `i`-th gets the id `ids[i]`.
pub open spec fn identity_creates_fold(p: IdentitySetProgress, creates: Seq<(Seq<char>, IdentityObjectView)>, ids: Seq<Seq<char>>) -> IdentitySetProgress
    decreases creates.len(),
{
    if creates.len() == 0 {
        p
    } else {
        let n = creates.len() - 1;
        identity_create_step(identity_creates_fold(p, creates.drop_last(), ids), creates[n].0, creates[n].1, ids[n])
    }
}

/// The updates in order.
pub open spec fn identity_updates_fold(p: IdentitySetProgress, updates: Seq<(Seq<char>, JModel)>) -> IdentitySetProgress
    decreases updates.len(),
{
    if updates.len() == 0 {
        p
    } else {
        identity_update_step(identity_updates_fold(p, updates.drop_last()), updates.last().0, updates.last().1)
    }
}

/// The destroys in order.
pub open spec fn identity_destroys_fold(p: IdentitySetProgress, ids: Seq<Seq<char>>) -> IdentitySetProgress
    decreases ids.len(),
{
    if ids.len() == 0 {
        p
    } else {
        identity_destroy_step(identity_destroys_fold(p, ids.drop_last()), ids.last())
    }
}

/// The creates of a request.
pub open spec fn identity_creates(req: IdentitySetRequest) -> Seq<(Seq<char>, IdentityObjectView)> {
    match req.create {
        Some(v) => pairs_view(v@),
        None => seq![],
    }
}

/// The updates of a request.
pub open spec fn identity_updates(req: IdentitySetRequest) -> Seq<(Seq<char>, JModel)> {
    match req.update {
        Some(v) => jm_entries(v@),
        None => seq![],
    }
}

/// The destroys of a request.
pub open spec fn identity_destroys(req: IdentitySetRequest) -> Seq<Seq<char>> {
    match req.destroy {
        Some(v) => strings_view(v@),
        None => seq![],
    }
}

/// The number of operations in a request.
pub open spec fn identity_op_count(req: IdentitySetRequest) -> int {
    (identity_creates(req).len() + identity_updates(req).len() + identity_destroys(req).len()) as int
}

/// Creates, then updates, then destroys, from account `a`.
pub open spec fn identity_set_progress(a: AccountView, req: IdentitySetRequest, ids: Seq<Seq<char>>) -> IdentitySetProgress {
    let start = IdentitySetProgress {
        account: a,
        created: seq![],
        not_created: seq![],
        updated: seq![],
        not_updated: seq![],
        destroyed: seq![],
        not_destroyed: seq![],
    };
    identity_destroys_fold(
        identity_updates_fold(identity_creates_fold(start, identity_creates(req), ids), identity_updates(req)),
        identity_destroys(req),
    )
}

/// The content of an optional identity.
pub open spec fn opt_identity_view(o: Option<Identity>) -> Option<IdentityView> {
    match o {
        Some(i) => Some(i@),
        None => None,
    }
}

/// The `updated` map of a response, every identity wrapped in `Some`.
pub open spec fn identity_updated_view(o: Option<Vec<(String, Option<Identity>)>>) -> Option<Seq<(Seq<char>, Option<IdentityView>)>> {
    match o {
        Some(v) => Some(v@.map_values(|p: (String, Option<Identity>)| (p.0@, opt_identity_view(p.1)))),
        None => None,
    }
}

/// Every value wrapped in `Some`.
pub open spec fn identity_wrap_some(s: Seq<(Seq<char>, IdentityView)>) -> Seq<(Seq<char>, Option<IdentityView>)> {
    s.map_values(|p: (Seq<char>, IdentityView)| (p.0, Some(p.1)))
}

/// The text of a state mismatch.
pub open spec fn state_mismatch_text(expected: Seq<char>, current: Seq<char>) -> Seq<char> {
    "stateMismatch: expected state '"@ + expected + "', current state is '"@ + current + "'"@
}

/// The text of a refused account.
pub open spec fn forbidden_text(requested: Seq<char>, owned: Seq<char>) -> Seq<char> {
    "urn:ietf:params:jmap:error:forbidden: requested account '"@ + requested + "' is not owned by principal (owns '"@
        + owned + "')"@
}

/// The outcome maps of an `Identity/set` response match `p`.
pub open spec fn identity_response_matches(r: IdentitySetResponse, account_id: Seq<char>, p: IdentitySetProgress) -> bool {
    &&& r.account_id@ == account_id
    &&& crate::maps::opt_pairs_view(r.created) == crate::maps::nonempty(p.created)
    &&& identity_updated_view(r.updated) == crate::maps::nonempty(identity_wrap_some(p.updated))
    &&& crate::maps::opt_strings_view(r.destroyed) == crate::maps::nonempty(p.destroyed)
    &&& crate::maps::opt_pairs_view(r.not_created) == crate::maps::nonempty(p.not_created)
    &&& crate::maps::opt_pairs_view(r.not_updated) == crate::maps::nonempty(p.not_updated)
    &&& crate::maps::opt_pairs_view(r.not_destroyed) == crate::maps::nonempty(p.not_destroyed)
}

struct IdentityOutcomes {
    created: Vec<(String, Identity)>,
    not_created: Vec<(String, JmapSetError)>,
    updated: Vec<(String, Identity)>,
    not_updated: Vec<(String, JmapSetError)>,
    destroyed: Vec<String>,
    not_destroyed: Vec<(String, JmapSetError)>,
}

spec fn progress_of(a: AccountView, w: IdentityOutcomes) -> IdentitySetProgress {
    IdentitySetProgress {
        account: a,
        created: pairs_view(w.created@),
        not_created: pairs_view(w.not_created@),
        updated: pairs_view(w.updated@),
        not_updated: pairs_view(w.not_updated@),
        destroyed: strings_view(w.destroyed@),
        not_destroyed: pairs_view(w.not_destroyed@),
    }
}

fn store_error(msg: String) -> (r: JmapSetError)
    ensures
        r@ == set_error_of(store_error_type(msg@), msg@),
{
    let t = if contains_str(msg.as_str(), "not found") {
        string_from("notFound")
    } else {
        string_from("serverFail")
    };
    JmapSetError { error_type: t, description: Some(msg) }
}

fn identity_apply_create(state: &mut IdentityAccountState, w: IdentityOutcomes, cid: &String, obj: &IdentityObject, new_id: &String) -> (r: IdentityOutcomes)
    requires
        old(state).state_version < u64::MAX,
    ensures
        progress_of(final(state)@, r) == identity_create_step(progress_of(old(state)@, w), cid@, obj@, new_id@),
{
    let IdentityOutcomes { mut created, mut not_created, updated, not_updated, destroyed, not_destroyed } = w;
    if !is_valid_email(obj.email.as_str()) {
        let a = concat("Invalid email address: '", obj.email.as_str());
        let d = concat(a.as_str(), "'");
        vput_exec(
            &mut not_created,
            cid.clone(),
            JmapSetError { error_type: string_from("invalidProperties"), description: Some(d) },
        );
        return IdentityOutcomes { created, not_created, updated, not_updated, destroyed, not_destroyed };
    }
    let ident = Identity {
        id: new_id.clone(),
        name: obj.name.clone(),
        email: obj.email.clone(),
        reply_to: clone_addresses(&obj.reply_to),
        bcc: clone_addresses(&obj.bcc),
        text_signature: clone_text(&obj.text_signature),
        html_signature: clone_text(&obj.html_signature),
        may_delete: true,
    };
    assert(ident@ == new_identity(new_id@, obj@));
    let stored = state.create_identity(ident);
    vput_exec(&mut created, cid.clone(), stored);
    IdentityOutcomes { created, not_created, updated, not_updated, destroyed, not_destroyed }
}

fn identity_apply_update(state: &mut IdentityAccountState, w: IdentityOutcomes, id: &String, patch: &JsonValue) -> (r: IdentityOutcomes)
    requires
        old(state).state_version < u64::MAX,
    ensures
        progress_of(final(state)@, r) == identity_update_step(progress_of(old(state)@, w), id@, jm(*patch)),
{
    let IdentityOutcomes { created, not_created, mut updated, mut not_updated, destroyed, not_destroyed } = w;
    match state.update_identity(id.as_str(), patch) {
        Ok(stored) => {
            vput_exec(&mut updated, id.clone(), stored);
        },
        Err(m) => {
            vput_exec(&mut not_updated, id.clone(), store_error(m));
        },
    }
    IdentityOutcomes { created, not_created, updated, not_updated, destroyed, not_destroyed }
}

fn identity_apply_destroy(state: &mut IdentityAccountState, w: IdentityOutcomes, id: &String) -> (r: IdentityOutcomes)
    requires
        old(state).state_version < u64::MAX,
    ensures
        progress_of(final(state)@, r) == identity_destroy_step(progress_of(old(state)@, w), id@),
{
    let IdentityOutcomes { created, not_created, updated, not_updated, mut destroyed, mut not_destroyed } = w;
    if str_eq(id.as_str(), "default") {
        vput_exec(
            &mut not_destroyed,
            id.clone(),
            JmapSetError::new("forbidden", "Cannot delete default identity"),
        );
        return IdentityOutcomes { created, not_created, updated, not_updated, destroyed, not_destroyed };
    }
    match state.delete_identity(id.as_str()) {
        Ok(()) => {
            let ghost before = destroyed@;
            destroyed.push(id.clone());
            proof {
                assert(strings_view(destroyed@) =~= strings_view(before).push(id@));
            }
        },
        Err(m) => {
            vput_exec(&mut not_destroyed, id.clone(), store_error(m));
        },
    }
    IdentityOutcomes { created, not_created, updated, not_updated, destroyed, not_destroyed }
}

fn wrap_identities(v: &Vec<(String, Identity)>) -> (r: Vec<(String, Option<Identity>)>)
    ensures
        identity_updated_view(Some(r)) == Some(identity_wrap_some(pairs_view(v@))),
{
    proof {
        lemma_pairs_view_len(v@);
    }
    let mut out: Vec<(String, Option<Identity>)> = Vec::new();
    let mut i: usize = 0;
    while i < v.len()
        invariant
            i <= v.len(),
            out@.len() == i,
            forall|j: int| 0 <= j < i ==> (#[trigger] out@[j]).0@ == v@[j].0@ && opt_identity_view(out@[j].1) == Some(v@[j].1@),
        decreases v.len() - i,
    {
        out.push((v[i].0.clone(), Some(v[i].1.duplicate())));
        i = i + 1;
    }
    proof {
        assert(out@.map_values(|p: (String, Option<Identity>)| (p.0@, opt_identity_view(p.1))) =~= identity_wrap_some(pairs_view(v@)));
    }
    out
}

fn state_mismatch_message(expected: &str, current: &str) -> (r: String)
    ensures
        r@ == state_mismatch_text(expected@, current@),
{
    let a = concat("stateMismatch: expected state '", expected);
    let b = concat(a.as_str(), "', current state is '");
    let c = concat(b.as_str(), current);
    concat(c.as_str(), "'")
}

/// `Identity/set` on one account's state, with the id given to each create
/// (`new_ids[i]` for the `i`-th): refused for an account the principal does
/// not own, or when `ifInState` differs from the current state.
pub fn identity_set_with(state: &mut IdentityAccountState, request: IdentitySetRequest, principal: &Principal, new_ids: &Vec<String>) -> (r: Result<IdentitySetResponse, String>)
    requires
        new_ids@.len() >= identity_creates(request).len(),
        principal.account_id@ == request.account_id@ && (request.if_in_state is None || request.if_in_state->0@
            == state_text(old(state)@)) ==> old(state).state_version + identity_op_count(request) < u64::MAX,
    ensures
        principal.account_id@ != request.account_id@ ==> final(state)@ == old(state)@ && r == Err::<IdentitySetResponse, String>(
            r->Err_0,
        ) && r->Err_0@ == forbidden_text(request.account_id@, principal.account_id@),
        principal.account_id@ == request.account_id@ && request.if_in_state is Some && request.if_in_state->0@
            != state_text(old(state)@) ==> final(state)@ == old(state)@ && r is Err && r->Err_0@ == state_mismatch_text(
            request.if_in_state->0@,
            state_text(old(state)@),
        ),
        principal.account_id@ == request.account_id@ && (request.if_in_state is None || request.if_in_state->0@
            == state_text(old(state)@)) ==> ({
            let p = identity_set_progress(old(state)@, request, strings_view(new_ids@));
            &&& r is Ok
            &&& final(state)@ == p.account
            &&& identity_response_matches(r->Ok_0, request.account_id@, p)
            &&& r->Ok_0.old_state@ == state_text(old(state)@)
            &&& r->Ok_0.new_state@ == state_text(p.account)
        }),
{
    if let Err(e) = ensure_account_ownership(request.account_id.as_str(), principal) {
        return Err(forbidden_message(&e));
    }
    let ghost req = request;
    let ghost ids = strings_view(new_ids@);
    let ghost a0 = state@;
    let old_state = state.state_token();
    if let Some(expected) = &request.if_in_state {
        if !str_eq(expected.as_str(), old_state.as_str()) {
            return Err(state_mismatch_message(expected.as_str(), old_state.as_str()));
        }
    }
    let mut w = IdentityOutcomes {
        created: Vec::new(),
        not_created: Vec::new(),
        updated: Vec::new(),
        not_updated: Vec::new(),
        destroyed: Vec::new(),
        not_destroyed: Vec::new(),
    };
    let ghost start = IdentitySetProgress {
        account: a0,
        created: seq![],
        not_created: seq![],
        updated: seq![],
        not_updated: seq![],
        destroyed: seq![],
        not_destroyed: seq![],
    };
    proof {
        assert(pairs_view(w.created@) =~= Seq::<(Seq<char>, IdentityView)>::empty());
        assert(pairs_view(w.updated@) =~= Seq::<(Seq<char>, IdentityView)>::empty());
        assert(pairs_view(w.not_created@) =~= Seq::<(Seq<char>, SetErrorView)>::empty());
        assert(pairs_view(w.not_updated@) =~= Seq::<(Seq<char>, SetErrorView)>::empty());
        assert(pairs_view(w.not_destroyed@) =~= Seq::<(Seq<char>, SetErrorView)>::empty());
        assert(strings_view(w.destroyed@) =~= Seq::<Seq<char>>::empty());
        assert(progress_of(state@, w) == start);
    }
    let ghost nc = identity_creates(req).len();
    let ghost nu = identity_updates(req).len();
    if let Some(creates) = &request.create {
        let ghost cv = pairs_view(creates@);
        proof {
            lemma_pairs_view_len(creates@);
            assert(cv.take(0) =~= Seq::<(Seq<char>, IdentityObjectView)>::empty());
        }
        let mut i: usize = 0;
        while i < creates.len()
            invariant
                i <= creates.len(),
                cv == pairs_view(creates@),
                cv.len() == creates@.len(),
                nc == cv.len(),
                forall|j: int| 0 <= j < creates@.len() ==> #[trigger] cv[j] == (creates@[j].0@, creates@[j].1@),
                new_ids@.len() >= creates@.len(),
                ids == strings_view(new_ids@),
                state@.state_version <= a0.state_version + i,
                a0.state_version + identity_op_count(req) < u64::MAX,
                identity_op_count(req) >= nc,
                progress_of(state@, w) == identity_creates_fold(start, cv.take(i as int), ids),
            decreases creates.len() - i,
        {
            proof {
                assert(cv.take(i + 1).drop_last() =~= cv.take(i as int));
                assert(cv.take(i + 1)[i as int] == cv[i as int]);
                assert(ids[i as int] == new_ids@[i as int]@);
            }
            w = identity_apply_create(state, w, &creates[i].0, &creates[i].1, &new_ids[i]);
            i = i + 1;
        }
        proof {
            assert(cv.take(creates@.len() as int) =~= cv);
        }
    }
    let ghost after_creates = progress_of(state@, w);
    assert(after_creates == identity_creates_fold(start, identity_creates(req), ids));
    assert(state@.state_version <= a0.state_version + nc);
    if let Some(updates) = &request.update {
        let ghost uv = jm_entries(updates@);
        proof {
            lemma_jm_entries(updates@);
            assert(uv.take(0) =~= Seq::<(Seq<char>, JModel)>::empty());
        }
        let mut i: usize = 0;
        while i < updates.len()
            invariant
                i <= updates.len(),
                uv == jm_entries(updates@),
                uv.len() == updates@.len(),
                nu == uv.len(),
                forall|j: int| 0 <= j < updates@.len() ==> #[trigger] uv[j] == (updates@[j].0@, jm(updates@[j].1)),
                state@.state_version <= a0.state_version + nc + i,
                a0.state_version + identity_op_count(req) < u64::MAX,
                identity_op_count(req) >= nc + nu,
                progress_of(state@, w) == identity_updates_fold(after_creates, uv.take(i as int)),
            decreases updates.len() - i,
        {
            proof {
                assert(uv.take(i + 1).drop_last() =~= uv.take(i as int));
                assert(uv.take(i + 1).last() == uv[i as int]);
            }
            w = identity_apply_update(state, w, &updates[i].0, &updates[i].1);
            i = i + 1;
        }
        proof {
            assert(uv.take(updates@.len() as int) =~= uv);
        }
    } else {
        assert(identity_updates(req) =~= Seq::<(Seq<char>, JModel)>::empty());
    }
    let ghost after_updates = progress_of(state@, w);
    assert(after_updates == identity_updates_fold(after_creates, identity_updates(req)));
    assert(state@.state_version <= a0.state_version + nc + nu);
    if let Some(destroys) = &request.destroy {
        let ghost dv = strings_view(destroys@);
        proof {
            assert(dv.take(0) =~= Seq::<Seq<char>>::empty());
        }
        let mut i: usize = 0;
        while i < destroys.len()
            invariant
                i <= destroys.len(),
                dv == strings_view(destroys@),
                state@.state_version <= a0.state_version + nc + nu + i,
                a0.state_version + identity_op_count(req) < u64::MAX,
                identity_op_count(req) == nc + nu + dv.len(),
                progress_of(state@, w) == identity_destroys_fold(after_updates, dv.take(i as int)),
            decreases destroys.len() - i,
        {
            proof {
                assert(dv.take(i + 1).drop_last() =~= dv.take(i as int));
                assert(dv.take(i + 1).last() == destroys@[i as int]@);
            }
            w = identity_apply_destroy(state, w, &destroys[i]);
            i = i + 1;
        }
        proof {
            assert(dv.take(destroys@.len() as int) =~= dv);
        }
    } else {
        assert(identity_destroys(req) =~= Seq::<Seq<char>>::empty());
    }
    assert(progress_of(state@, w) == identity_set_progress(a0, req, ids));
    let updated = wrap_identities(&w.updated);
    let new_state = state.state_token();
    Ok(
        IdentitySetResponse {
            account_id: request.account_id.clone(),
            old_state,
            new_state,
            created: crate::maps::nonempty_vec(w.created),
            updated: crate::maps::nonempty_vec(updated),
            destroyed: crate::maps::nonempty_vec(w.destroyed),
            not_created: crate::maps::nonempty_vec(w.not_created),
            not_updated: crate::maps::nonempty_vec(w.not_updated),
            not_destroyed: crate::maps::nonempty_vec(w.not_destroyed),
        },
    )
}

/// `Identity/set`: every create gets a fresh random id; the rest is
/// `identity_set_with`.
pub fn identity_set(state: &mut IdentityAccountState, request: IdentitySetRequest, principal: &Principal) -> (r: Result<IdentitySetResponse, String>)
    requires
        principal.account_id@ == request.account_id@ && (request.if_in_state is None || request.if_in_state->0@
            == state_text(old(state)@)) ==> old(state).state_version + identity_op_count(request) < u64::MAX,
    ensures
        principal.account_id@ != request.account_id@ ==> final(state)@ == old(state)@ && r is Err && r->Err_0@
            == forbidden_text(request.account_id@, principal.account_id@),
        principal.account_id@ == request.account_id@ && request.if_in_state is Some && request.if_in_state->0@
            != state_text(old(state)@) ==> final(state)@ == old(state)@ && r is Err && r->Err_0@ == state_mismatch_text(
            request.if_in_state->0@,
            state_text(old(state)@),
        ),
        principal.account_id@ == request.account_id@ && (request.if_in_state is None || request.if_in_state->0@
            == state_text(old(state)@)) ==> exists|ids: Seq<Seq<char>>|
            ids.len() == identity_creates(request).len() && crate::outside::all_uuid_v4(ids) && {
                let p = #[trigger] identity_set_progress(old(state)@, request, ids);
                &&& r is Ok
                &&& final(state)@ == p.account
                &&& identity_response_matches(r->Ok_0, request.account_id@, p)
                &&& r->Ok_0.old_state@ == state_text(old(state)@)
                &&& r->Ok_0.new_state@ == state_text(p.account)
            },
{
    let n: usize = match &request.create {
        Some(c) => c.len(),
        None => 0,
    };
    proof {
        if request.create is Some {
            lemma_pairs_view_len(request.create->0@);
        }
    }
    let mut ids: Vec<String> = Vec::new();
    while ids.len() < n
        invariant
            ids@.len() <= n,
            crate::outside::all_uuid_v4(strings_view(ids@)),
        decreases n - ids@.len(),
    {
        let ghost before = strings_view(ids@);
        let u = new_uuid_string();
        let ghost uu = u@;
        ids.push(u);
        assert(strings_view(ids@) =~= before.push(uu));
    }
    let ghost req = request;
    let ghost a0 = state@;
    let r = identity_set_with(state, request, principal, &ids);
    proof {
        let _ = identity_set_progress(a0, req, strings_view(ids@));
    }
    r
}

// ── Identity/get and Identity/changes ───────────────────────────────────────

/// The identities found among `ids`, in order.
pub open spec fn identities_found(a: AccountView, ids: Seq<Seq<char>>) -> Seq<IdentityView>
    decreases ids.len(),
{
    if ids.len() == 0 {
        seq![]
    } else {
        match vget(a.identities, ids.last()) {
            Some(i) => identities_found(a, ids.drop_last()).push(i),
            None => identities_found(a, ids.drop_last()),
        }
    }
}

/// The ids among `ids` that name no identity, in order.
pub open spec fn identities_missing(a: AccountView, ids: Seq<Seq<char>>) -> Seq<Seq<char>>
    decreases ids.len(),
{
    if ids.len() == 0 {
        seq![]
    } else {
        match vget(a.identities, ids.last()) {
            Some(_) => identities_missing(a, ids.drop_last()),
            None => identities_missing(a, ids.drop_last()).push(ids.last()),
        }
    }
}

/// `Identity/get`: every identity, or those asked for and the ids that name
/// none.
pub fn identity_get(state: &IdentityAccountState, request: IdentityGetRequest, principal: &Principal) -> (r: Result<IdentityGetResponse, String>)
    ensures
        principal.account_id@ != request.account_id@ ==> r is Err && r->Err_0@ == forbidden_text(
            request.account_id@,
            principal.account_id@,
        ),
        principal.account_id@ == request.account_id@ ==> r is Ok && r->Ok_0.account_id@ == request.account_id@
            && r->Ok_0.state@ == state_text(state@) && match request.ids {
            None => identities_view(r->Ok_0.list@) == state@.identities.map_values(
                |p: (Seq<char>, IdentityView)| p.1,
            ) && r->Ok_0.not_found@.len() == 0,
            Some(ids) => identities_view(r->Ok_0.list@) == identities_found(state@, strings_view(ids@))
                && strings_view(r->Ok_0.not_found@) == identities_missing(state@, strings_view(ids@)),
        },
{
    if let Err(e) = ensure_account_ownership(request.account_id.as_str(), principal) {
        return Err(forbidden_message(&e));
    }
    let token = state.state_token();
    let mut list: Vec<Identity> = Vec::new();
    let mut not_found: Vec<String> = Vec::new();
    match &request.ids {
        None => {
            list = state.list_identities();
        },
        Some(ids) => {
            let ghost want = strings_view(ids@);
            let mut i: usize = 0;
            proof {
                assert(want.take(0) =~= Seq::<Seq<char>>::empty());
                assert(identities_view(list@) =~= Seq::<IdentityView>::empty());
                assert(strings_view(not_found@) =~= Seq::<Seq<char>>::empty());
            }
            while i < ids.len()
                invariant
                    i <= ids@.len(),
                    want == strings_view(ids@),
                    identities_view(list@) == identities_found(state@, want.take(i as int)),
                    strings_view(not_found@) == identities_missing(state@, want.take(i as int)),
                decreases ids.len() - i,
            {
                proof {
                    assert(want.take(i + 1).drop_last() =~= want.take(i as int));
                    assert(want.take(i + 1).last() == ids@[i as int]@);
                }
                match state.get_identity(ids[i].as_str()) {
                    Some(ident) => {
                        let ghost before = list@;
                        let ghost iv = ident@;
                        list.push(ident);
                        proof {
                            assert(identities_view(list@) =~= identities_view(before).push(iv));
                        }
                    },
                    None => {
                        let ghost before = not_found@;
                        not_found.push(ids[i].clone());
                        proof {
                            assert(strings_view(not_found@) =~= strings_view(before).push(ids@[i as int]@));
                        }
                    },
                }
                i = i + 1;
            }
            proof {
                assert(want.take(ids@.len() as int) =~= want);
            }
        },
    }
    Ok(IdentityGetResponse { account_id: request.account_id.clone(), state: token, list, not_found })
}

/// `Identity/changes`: no per-identity history is kept, so the answer gives
/// only the current state.
pub fn identity_changes(state: &IdentityAccountState, request: IdentityChangesRequest, principal: &Principal) -> (r: Result<IdentityChangesResponse, String>)
    ensures
        principal.account_id@ != request.account_id@ ==> r is Err && r->Err_0@ == forbidden_text(
            request.account_id@,
            principal.account_id@,
        ),
        principal.account_id@ == request.account_id@ ==> r is Ok && r->Ok_0.account_id@ == request.account_id@
            && r->Ok_0.old_state@ == request.since_state@ && r->Ok_0.new_state@ == state_text(state@)
            && !r->Ok_0.has_more_changes && r->Ok_0.created@.len() == 0 && r->Ok_0.updated@.len() == 0
            && r->Ok_0.destroyed@.len() == 0,
{
    if let Err(e) = ensure_account_ownership(request.account_id.as_str(), principal) {
        return Err(forbidden_message(&e));
    }
    let new_state = state.state_token();
    Ok(
        IdentityChangesResponse {
            account_id: request.account_id,
            old_state: request.since_state,
            new_state,
            has_more_changes: false,
            created: Vec::new(),
            updated: Vec::new(),
            destroyed: Vec::new(),
        },
    )
}

// ── File-backed store ───────────────────────────────────────────────────────

/// Where account identity states are kept on disk:
/// `{base_dir}/identities/{account_id}.json`.
pub struct FileIdentityStore {
    pub base_dir: PathBuf,
}

impl FileIdentityStore {
    /// A store rooted at `base_dir`.
    pub fn new(base_dir: PathBuf) -> (r: Self)
        ensures
            r.base_dir == base_dir,
    {
        FileIdentityStore { base_dir }
    }

    /// The file of one account.
    pub fn account_path(&self, account_id: &str) -> PathBuf {
        let file = concat(account_id, ".json");
        let dir = crate::outside::path_join(&self.base_dir, "identities");
        crate::outside::path_join(&dir, file.as_str())
    }
}


// ── Laws ────────────────────────────────────────────────────────────────────

/// A created identity reads back as created, and the state moves on by
/// one version.
pub proof fn law_created_identity_readable(a: AccountView, ident: IdentityView)
    requires
        a.state_version < u64::MAX,
    ensures
        vget(created_in(a, ident).identities, ident.id) == Some(ident),
        created_in(a, ident).state_version == a.state_version + 1,
{
    lemma_vput(a.identities, ident.id, ident, ident.id);
}

/// A deleted identity can no longer be read, and the others read as
/// before.
pub proof fn law_deleted_identity_gone(a: AccountView, id: Seq<char>, other: Seq<char>)
    requires
        other != id,
        delete_outcome(a, id).1 is Ok,
    ensures
        vget(delete_outcome(a, id).0.identities, id) is None,
        vget(delete_outcome(a, id).0.identities, other) == vget(a.identities, other),
{
    lemma_vremove(a.identities, id, id);
    lemma_vremove(a.identities, id, other);
}

/// `Identity/set` never destroys the default identity: its account is
/// left as it was.
pub proof fn law_default_identity_survives_destroy(p: IdentitySetProgress)
    ensures
        identity_destroy_step(p, "default"@).account == p.account,
        identity_destroy_step(p, "default"@).destroyed == p.destroyed,
{
}

/// An update keeps an identity's id, and the default identity stays
/// undeletable whatever the patch says.
pub proof fn law_update_keeps_identity(a: AccountView, id: Seq<char>, patch: JModel)
    requires
        update_outcome(a, id, patch).1 is Ok,
    ensures
        update_outcome(a, id, patch).1->Ok_0.id == vget(a.identities, id)->0.id,
        id == "default"@ ==> !update_outcome(a, id, patch).1->Ok_0.may_delete,
        vget(update_outcome(a, id, patch).0.identities, id) == Some(update_outcome(a, id, patch).1->Ok_0),
{
    match vget(a.identities, id) {
        Some(cur) => match patch_identity(cur, patch) {
            Ok(p) => {
                lemma_vput(a.identities, id, finish_update(cur, id, p), id);
            },
            Err(_) => {},
        },
        None => {},
    }
}

proof fn lemma_identity_creates_version(p: IdentitySetProgress, s: Seq<(Seq<char>, IdentityObjectView)>, ids: Seq<Seq<char>>)
    requires
        p.account.state_version + s.len() <= u64::MAX,
    ensures
        p.account.state_version <= identity_creates_fold(p, s, ids).account.state_version <= p.account.state_version + s.len(),
    decreases s.len(),
{
    if s.len() > 0 {
        lemma_identity_creates_version(p, s.drop_last(), ids);
    }
}

/// In `Identity/set`, a create with a valid address is reported created as
/// the identity it asked for, under the id it was given, which may be
/// deleted; after the call `Identity/get` of that id finds exactly it, and
/// the state has moved on. Creation ids are distinct, as the keys of the
/// request's `create` map are, and so are the ids given to the creates.
pub proof fn law_created_identity_then_get(
    p: IdentitySetProgress,
    creates: Seq<(Seq<char>, IdentityObjectView)>,
    ids: Seq<Seq<char>>,
    k: int,
)
    requires
        crate::maps::keys_distinct(creates),
        ids.len() >= creates.len(),
        forall|i: int, j: int| 0 <= i < j < creates.len() ==> #[trigger] ids[i] != #[trigger] ids[j],
        0 <= k < creates.len(),
        valid_email(creates[k].1.email),
        p.account.state_version + creates.len() <= u64::MAX,
    ensures
        ({
            let q = identity_creates_fold(p, creates, ids);
            let ident = new_identity(ids[k], creates[k].1);
            &&& vget(q.created, creates[k].0) == Some(ident)
            &&& vget(q.account.identities, ids[k]) == Some(ident)
            &&& identities_found(q.account, seq![ids[k]]) == seq![ident]
            &&& ident.may_delete
            &&& q.account.state_version > p.account.state_version
        }),
    decreases creates.len(),
{
    let n = creates.len() - 1;
    let d = creates.drop_last();
    let q = identity_creates_fold(p, creates, ids);
    let q1 = identity_creates_fold(p, d, ids);
    let ident = new_identity(ids[k], creates[k].1);
    lemma_identity_creates_version(p, d, ids);
    if k == n {
        lemma_vput(q1.created, creates[n].0, ident, creates[n].0);
        lemma_vput(q1.account.identities, ids[n], ident, ids[n]);
    } else {
        assert(crate::maps::keys_distinct(d)) by {
            assert forall|i: int, j: int| 0 <= i < j < d.len() implies #[trigger] d[i].0 != #[trigger] d[j].0 by {
                assert(d[i] == creates[i] && d[j] == creates[j]);
            }
        }
        assert forall|i: int, j: int| 0 <= i < j < d.len() implies #[trigger] ids[i] != #[trigger] ids[j] by {
            assert(j < creates.len());
        }
        assert(d[k] == creates[k]);
        law_created_identity_then_get(p, d, ids, k);
        assert(creates[k].0 != creates[n].0);
        assert(ids[k] != ids[n]);
        let other = new_identity(ids[n], creates[n].1);
        lemma_vput(q1.created, creates[n].0, other, creates[k].0);
        lemma_vput(q1.account.identities, ids[n], other, ids[k]);
    }
    let single = seq![ids[k]];
    assert(single.drop_last() =~= Seq::<Seq<char>>::empty());
    assert(single.last() == ids[k]);
    assert(identities_found(q.account, single.drop_last()) == Seq::<IdentityView>::empty());
}

/// No identity id is held twice: a new account holds one identity, and
/// storing, patching or deleting an identity keeps the ids distinct.
pub proof fn law_identity_ids_stay_distinct(a: AccountView, ident: IdentityView, id: Seq<char>, patch: JModel, account_id: Seq<char>, username: Seq<char>)
    requires
        crate::maps::keys_distinct(a.identities),
    ensures
        crate::maps::keys_distinct(default_account(account_id, username).identities),
        crate::maps::keys_distinct(created_in(a, ident).identities),
        crate::maps::keys_distinct(update_outcome(a, id, patch).0.identities),
        crate::maps::keys_distinct(delete_outcome(a, id).0.identities),
{
    crate::maps::lemma_vput_distinct(a.identities, ident.id, ident);
    crate::maps::lemma_vremove_distinct(a.identities, id);
    match vget(a.identities, id) {
        Some(cur) => match patch_identity(cur, patch) {
            Ok(p) => crate::maps::lemma_vput_distinct(a.identities, id, finish_update(cur, id, p)),
            Err(_) => {},
        },
        None => {},
    }
}

} // verus!
