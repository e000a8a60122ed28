//! Calls into std and outside crates whose results the library cannot
//! compute itself: the clock, random identifiers, Unicode case mapping,
//! file-system paths.
use vstd::prelude::*;
use vstd::utf8::{encode_utf8, valid_utf8};

use std::path::PathBuf;

use dashmap::DashMap;

use crate::methods::push_subscription::{Registry, RegistryEntry};
use crate::types::{PushSubscription, SubscriptionContent};

verus! {

/// Seconds since the Unix epoch now (`chrono::Utc::now().timestamp()`).
/// Nothing is promised of the value: it depends on the clock.
#[verifier::external_body]
pub(crate) fn now_timestamp() -> (r: i64) {
    chrono::Utc::now().timestamp()
}

/// Milliseconds since the Unix epoch now (`chrono::Utc::now()
/// .timestamp_millis()`). Nothing is promised of the value: it depends on
/// the clock.
#[verifier::external_body]
pub(crate) fn now_millis() -> (r: i64) {
    chrono::Utc::now().timestamp_millis()
}

/// A lower-case hexadecimal digit.
pub open spec fn is_lower_hex(c: char) -> bool {
    ('0' <= c && c <= '9') || ('a' <= c && c <= 'f')
}

/// The hyphenated text of a random (version 4, RFC 4122 variant) UUID:
/// 36 characters, hyphens at 8, 13, 18 and 23, lower-case hexadecimal
/// digits elsewhere, the version digit `4` and a variant digit among
/// `8`, `9`, `a`, `b`.
pub open spec fn uuid_v4_text(s: Seq<char>) -> bool {
    &&& s.len() == 36
    &&& forall|i: int|
        0 <= i < 36 ==> if i == 8 || i == 13 || i == 18 || i == 23 {
            #[trigger] s[i] == '-'
        } else {
            is_lower_hex(s[i])
        }
    &&& s[14] == '4'
    &&& (s[19] == '8' || s[19] == '9' || s[19] == 'a' || s[19] == 'b')
}

/// Every text of the list is the text of a random UUID.
pub open spec fn all_uuid_v4(ids: Seq<Seq<char>>) -> bool {
    forall|i: int| 0 <= i < ids.len() ==> uuid_v4_text(#[trigger] ids[i])
}

/// A fresh random identifier (`uuid::Uuid::new_v4()`, written in its
/// hyphenated form by `Display`): the text of a random UUID. Which UUID
/// is left open: it is random.
#[verifier::external_body]
pub(crate) fn new_uuid_string() -> (r: String)
    ensures
        uuid_v4_text(r@),
{
    uuid::Uuid::new_v4().to_string()
}

/// The Unicode lower-case mapping of a string, as `str::to_lowercase`
/// computes it.
pub uninterp spec fn lowercase(s: Seq<char>) -> Seq<char>;

/// Whether every character of a text is ASCII.
pub open spec fn is_ascii_text(s: Seq<char>) -> bool {
    forall|i: int| 0 <= i < s.len() ==> (#[trigger] s[i] as u32) < 128
}

/// The text with each ASCII upper-case letter replaced by its lower-case
/// letter; every other character is kept.
pub open spec fn ascii_lowercase_text(s: Seq<char>) -> Seq<char> {
    s.map_values(|c: char| crate::auth::ascii_lower(c))
}

/// `str::to_lowercase`: its result is `lowercase` of the argument; on ASCII
/// text, where the Unicode mapping maps `A`-`Z` to `a`-`z` and keeps every
/// other character, that is the ASCII lower-casing.
#[verifier::external_body]
pub(crate) fn to_lowercase(s: &str) -> (r: String)
    ensures
        r@ == lowercase(s@),
        is_ascii_text(s@) ==> r@ == ascii_lowercase_text(s@),
{
    s.to_lowercase()
}

/// `String::from_utf8`: the text whose UTF-8 encoding the bytes are, or
/// `None` where they are not valid UTF-8.
#[verifier::external_body]
pub(crate) fn utf8_text(b: Vec<u8>) -> (r: Option<String>)
    ensures
        match r {
            Some(s) => valid_utf8(b@) && encode_utf8(s@) == b@,
            None => !valid_utf8(b@),
        },
{
    String::from_utf8(b).ok()
}

/// Whether an instant (milliseconds since the Unix epoch) falls in the
/// years 0 to 9999, the only ones an RFC 2822 date can name.
pub open spec fn rfc2822_representable(ms: i64) -> bool {
    -62167219200000 <= ms <= 253402300799999
}

/// The RFC 2822 text, in UTC, of an instant.
pub uninterp spec fn rfc2822_text(ms: i64) -> Seq<char>;

/// `chrono::DateTime::<Utc>::from_timestamp_millis` followed by
/// `to_rfc2822`: its result is `rfc2822_text` of the instant. `to_rfc2822`
/// panics outside the years 0 to 9999, which `requires` leaves out.
#[verifier::external_body]
pub(crate) fn rfc2822_date(ms: i64) -> (r: String)
    requires
        rfc2822_representable(ms),
    ensures
        r@ == rfc2822_text(ms),
{
    match chrono::DateTime::from_timestamp_millis(ms) {
        Some(d) => d.to_rfc2822(),
        None => String::new(),
    }
}

/// The `Debug` text of a string: quoted, with special characters escaped.
pub uninterp spec fn debug_text(s: Seq<char>) -> Seq<char>;

/// `<str as Debug>::fmt`, written out: its result is `debug_text` of the
/// string.
#[verifier::external_body]
pub(crate) fn debug_quoted(s: &str) -> (r: String)
    ensures
        r@ == debug_text(s@),
{
    format!("{:?}", s)
}

/// `std::path::PathBuf`, carried through unread.
#[verifier::external_type_specification]
#[verifier::external_body]
pub struct ExPathBuf(std::path::PathBuf);

/// `Path::join`: `base` with `part` appended. Nothing is promised of the
/// value: the separator depends on the platform.
#[verifier::external_body]
pub(crate) fn path_join(base: &PathBuf, part: &str) -> (r: PathBuf) {
    base.join(part)
}

/// The 16 bytes of the UUID that `uuid::Uuid::parse_str` reads from a
/// text, if it reads one.
pub uninterp spec fn parsed_uuid(s: Seq<char>) -> Option<Seq<u8>>;

/// `uuid::Uuid::parse_str`, giving the UUID's bytes: its result is
/// `parsed_uuid` of the text; a UUID has 16 bytes.
#[verifier::external_body]
pub(crate) fn parse_uuid(s: &str) -> (r: Option<Vec<u8>>)
    ensures
        match r {
            Some(b) => parsed_uuid(s@) == Some(b@) && b@.len() == 16,
            None => parsed_uuid(s@) is None,
        },
{
    match uuid::Uuid::parse_str(s) {
        Ok(u) => Some(u.as_bytes().to_vec()),
        Err(_) => None,
    }
}

/// Whether `uuid::Uuid::parse_str` reads a UUID from a text.
pub open spec fn uuid_parses(s: Seq<char>) -> bool {
    parsed_uuid(s) is Some
}

/// Whether a text is a UUID.
pub(crate) fn is_uuid(s: &str) -> (r: bool)
    ensures
        r == uuid_parses(s@),
{
    parse_uuid(s).is_some()
}

/// The SHA-256 digest of a byte string.
pub uninterp spec fn sha256_digest(data: Seq<u8>) -> Seq<u8>;

/// `sha2::Sha256` over the bytes: its result is `sha256_digest` of them,
/// 32 bytes long.
#[verifier::external_body]
pub(crate) fn sha256(data: &[u8]) -> (r: Vec<u8>)
    ensures
        r@ == sha256_digest(data@),
        r@.len() == 32,
{
    <sha2::Sha256 as sha2::Digest>::digest(data).to_vec()
}

/// The instant, in milliseconds since the Unix epoch, that
/// `chrono::DateTime::parse_from_rfc2822` reads from a text, if it reads
/// one.
pub uninterp spec fn rfc2822_instant(s: Seq<char>) -> Option<i64>;

/// `chrono::DateTime::parse_from_rfc2822`, as milliseconds since the Unix
/// epoch: its result is `rfc2822_instant` of the text.
#[verifier::external_body]
pub(crate) fn parse_rfc2822(s: &str) -> (r: Option<i64>)
    ensures
        r == rfc2822_instant(s@),
{
    match chrono::DateTime::parse_from_rfc2822(s) {
        Ok(dt) => Some(dt.timestamp_millis()),
        Err(_) => None,
    }
}

/// `dashmap::DashMap`, a concurrent hash map.
#[verifier::external_type_specification]
#[verifier::external_body]
#[verifier::reject_recursive_types(K)]
#[verifier::reject_recursive_types(V)]
#[verifier::reject_recursive_types(S)]
pub struct ExDashMap<K, V, S>(dashmap::DashMap<K, V, S>);

/// What a registry of push subscriptions holds: each id with its
/// subscription.
pub uninterp spec fn registry_contents(r: Registry) -> Map<Seq<char>, SubscriptionContent>;

/// `DashMap::new`: an empty map.
#[verifier::external_body]
pub(crate) fn registry_new() -> (map: Registry)
    ensures
        registry_contents(map) =~= Map::empty(),
{
    DashMap::new()
}

/// `DashMap::get`, copying the value out: the subscription stored under
/// the id, if any.
#[verifier::external_body]
pub(crate) fn registry_get(r: &Registry, id: &str) -> (res: Option<PushSubscription>)
    ensures
        match res {
            Some(s) => registry_contents(*r).contains_key(id@) && registry_contents(*r)[id@] == s@,
            None => !registry_contents(*r).contains_key(id@),
        },
{
    r.get(id).map(|e| e.value().duplicate())
}

/// `DashMap::insert`: afterwards the id maps to the subscription and every
/// other entry is unchanged.
#[verifier::external_body]
pub(crate) fn registry_insert(r: &mut Registry, id: String, sub: PushSubscription)
    ensures
        registry_contents(*final(r)) == registry_contents(*old(r)).insert(id@, sub@),
{
    r.insert(id, sub);
}

/// `DashMap::remove`: afterwards the id maps to nothing and every other
/// entry is unchanged.
#[verifier::external_body]
pub(crate) fn registry_remove(r: &mut Registry, id: &str)
    ensures
        registry_contents(*final(r)) == registry_contents(*old(r)).remove(id@),
{
    r.remove(id);
}

/// No id occurs twice among the entries.
pub open spec fn ids_distinct(s: Seq<RegistryEntry>) -> bool {
    forall|i: int, j: int| 0 <= i < j < s.len() ==> (#[trigger] s[i]).0@ != (#[trigger] s[j]).0@
}

/// The entries are those of a finite map: as many as it has keys, each
/// one a key with its value.
pub open spec fn lists_entries(s: Seq<RegistryEntry>, m: Map<Seq<char>, SubscriptionContent>) -> bool {
    &&& m.dom().finite()
    &&& s.len() == m.dom().len()
    &&& forall|i: int| 0 <= i < s.len() ==> m.contains_key(#[trigger] s[i].0@) && m[s[i].0@] == s[i].1@
}

/// `DashMap::iter`, copying each entry out: every entry exactly once, in
/// an order the map chooses.
#[verifier::external_body]
pub(crate) fn registry_entries(r: &Registry) -> (res: Vec<RegistryEntry>)
    ensures
        lists_entries(res@, registry_contents(*r)),
        ids_distinct(res@),
{
    r.iter().map(|e| crate::methods::push_subscription::entry_copy(e.key(), e.value())).collect()
}

/// `getrandom::fill` on 32 bytes: random bytes, or the error's text.
/// Nothing is promised of the bytes but their number.
#[verifier::external_body]
pub(crate) fn random_32_bytes() -> (r: Result<Vec<u8>, String>)
    ensures
        r matches Ok(b) ==> b@.len() == 32,
{
    let mut buf = [0u8; 32];
    match getrandom::fill(&mut buf) {
        Ok(()) => Ok(buf.to_vec()),
        Err(e) => Err(format!("{e}")),
    }
}

/// The digit of a six-bit value in the URL-safe base64 alphabet
/// (RFC 4648 §5): `A`-`Z`, `a`-`z`, `0`-`9`, `-`, `_`.
pub open spec fn base64url_digit(n: int) -> char {
    if n < 26 {
        (65 + n) as char
    } else if n < 52 {
        (97 + n - 26) as char
    } else if n < 62 {
        (48 + n - 52) as char
    } else if n == 62 {
        '-'
    } else {
        '_'
    }
}

/// The URL-safe base64 text, without padding, of some bytes: every three
/// bytes give four digits, and a last one or two bytes give two or three.
pub open spec fn base64url_text(b: Seq<u8>) -> Seq<char>
    decreases b.len(),
{
    let x: int = if b.len() > 0 { b[0] as int } else { 0 };
    let y: int = if b.len() > 1 { b[1] as int } else { 0 };
    let z: int = if b.len() > 2 { b[2] as int } else { 0 };
    if b.len() == 0 {
        seq![]
    } else if b.len() == 1 {
        seq![base64url_digit(x / 4), base64url_digit((x % 4) * 16)]
    } else if b.len() == 2 {
        seq![base64url_digit(x / 4), base64url_digit((x % 4) * 16 + y / 16), base64url_digit((y % 16) * 4)]
    } else {
        seq![
            base64url_digit(x / 4),
            base64url_digit((x % 4) * 16 + y / 16),
            base64url_digit((y % 16) * 4 + z / 64),
            base64url_digit(z % 64),
        ] + base64url_text(b.skip(3))
    }
}

/// `base64::engine::general_purpose::URL_SAFE_NO_PAD.encode`: the URL-safe
/// base64 text of the bytes, without padding (`base64url_text`).
#[verifier::external_body]
pub(crate) fn base64url_encode(b: &[u8]) -> (r: String)
    ensures
        r@ == base64url_text(b@),
{
    base64::Engine::encode(&base64::engine::general_purpose::URL_SAFE_NO_PAD, b)
}

} // verus!
