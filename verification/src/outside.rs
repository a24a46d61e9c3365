//! Calls out of the library: what it takes from the standard library and from other crates
//! without a proof.
use vstd::prelude::*;
#[allow(unused_imports)]
use crate::text::{ascii_lower, is_ascii_text, opt_view};

verus! {

/// What `str::to_lowercase` makes of a text, by the case tables of Unicode.
pub uninterp spec fn lowercase_of(s: Seq<char>) -> Seq<char>;

/// A text in lower case: the letters `A` to `Z` lowered where it is ASCII, else what
/// `str::to_lowercase` makes of it.
pub open spec fn lowered(s: Seq<char>) -> Seq<char> {
    if is_ascii_text(s) {
        ascii_lower(s)
    } else {
        lowercase_of(s)
    }
}

/// `str::to_lowercase`: the text in lower case. The result is named by `lowercase_of`; it depends
/// on nothing but the text. Of an ASCII text it is the text with the letters `A` to `Z` lowered.
#[verifier::external_body]
pub(crate) fn to_lowercase(s: &str) -> (r: String)
    ensures
        r@ == lowercase_of(s@),
        is_ascii_text(s@) ==> r@ == ascii_lower(s@),
{
    s.to_lowercase()
}

/// `uuid::Uuid::new_v4`, printed by its `Display`: five groups of hexadecimal digits, in lower case
/// and with the version four. Which digits they are is left to chance, and nothing is claimed of
/// it.
#[verifier::external_body]
pub(crate) fn random_id() -> (r: String)
    ensures
        is_hyphenated(r@),
        ascii_lower(r@) == r@,
        r@[14] == '4',
{
    uuid::Uuid::new_v4().to_string()
}

/// `chrono::Utc::now` and `DateTime::timestamp_nanos_opt`: the nanoseconds since the Unix epoch by
/// the clock of the machine, or nothing where they do not fit. `Utc::now` measures the time since
/// the epoch by std's system clock and panics where that clock stands before it, so that what comes
/// back is never negative. Which time comes back is left unsaid: it is the clock's.
#[verifier::external_body]
pub(crate) fn clock_nanos() -> (r: Option<i64>)
    ensures
        match r {
            Some(nanos) => nanos >= 0,
            None => true,
        },
{
    chrono::Utc::now().timestamp_nanos_opt()
}

/// `std::time::SystemTime::elapsed` of `std::time::UNIX_EPOCH`: the whole milliseconds since the
/// Unix epoch by the clock of the machine, or nothing where that clock stands before it. Which time
/// comes back is left unsaid: it is the clock's.
#[verifier::external_body]
pub(crate) fn clock_millis() -> (r: Option<u128>) {
    Some(std::time::UNIX_EPOCH.elapsed().ok()?.as_millis())
}

/// Whether `serde_json` reads a text as a JSON object.
pub uninterp spec fn is_json_object(text: Seq<char>) -> bool;

/// `serde_json::from_str` into a `serde_json::Value`: whether the text is JSON, and the value an
/// object. The result is named by `is_json_object`.
#[verifier::external_body]
pub(crate) fn json_is_object(text: &str) -> (r: bool)
    ensures
        r == is_json_object(text@),
{
    matches!(serde_json::from_str(text), Ok(serde_json::Value::Object(_)))
}

/// The string that `serde_json` finds under a key of a JSON object.
pub uninterp spec fn json_text_at(text: Seq<char>, key: Seq<char>) -> Option<Seq<char>>;

/// `serde_json::from_str` into a `serde_json::Value`, `Value::get` and `Value::as_str`: the string
/// under a key, where the text is JSON, has the key, and holds a string there. The result is named
/// by `json_text_at`.
#[verifier::external_body]
pub(crate) fn json_text(text: &str, key: &str) -> (r: Option<String>)
    ensures
        opt_view(r) == json_text_at(text@, key@),
{
    let value = serde_json::from_str::<serde_json::Value>(text).ok()?;
    Some(value.get(key)?.as_str()?.to_string())
}

/// The number that `serde_json` finds under a key of a JSON object, written out.
pub uninterp spec fn json_decimal_at(text: Seq<char>, key: Seq<char>) -> Option<Seq<char>>;

/// `serde_json::from_str` into a `serde_json::Value`, `Value::get` and `Value::as_f64`: the number
/// under a key, where the text is JSON, has the key, and holds a number there, as `Display` writes
/// it. The result is named by `json_decimal_at`.
#[verifier::external_body]
pub(crate) fn json_decimal(text: &str, key: &str) -> (r: Option<String>)
    ensures
        opt_view(r) == json_decimal_at(text@, key@),
{
    let value = serde_json::from_str::<serde_json::Value>(text).ok()?;
    Some(value.get(key)?.as_f64()?.to_string())
}

/// A text as `Debug` writes it: in double quotes, with escapes.
pub uninterp spec fn quoted_of(s: Seq<char>) -> Seq<char>;

/// `Debug` of `str`: the text in double quotes, with escapes. The result is named by `quoted_of`.
#[verifier::external_body]
pub(crate) fn quote(s: &str) -> (r: String)
    ensures
        r@ == quoted_of(s@),
{
    format!("{:?}", s)
}

/// Whether a character is a hexadecimal digit.
pub open spec fn is_hex(c: char) -> bool {
    '0' <= c <= '9' || 'a' <= c <= 'f' || 'A' <= c <= 'F'
}

/// Whether a text is five groups of hexadecimal digits, of eight, four, four, four and twelve,
/// with hyphens between them.
pub open spec fn is_hyphenated(s: Seq<char>) -> bool {
    s.len() == 36 && forall|i: int|
        0 <= i < 36 ==> if i == 8 || i == 13 || i == 18 || i == 23 {
            #[trigger] s[i] == '-'
        } else {
            is_hex(s[i])
        }
}

/// Whether a text is a UUID: thirty-two hexadecimal digits, or the five groups, these also in
/// braces or behind `urn:uuid:` in any case.
pub open spec fn is_uuid(s: Seq<char>) -> bool {
    ||| s.len() == 32 && forall|i: int| 0 <= i < 32 ==> is_hex(#[trigger] s[i])
    ||| is_hyphenated(s)
    ||| s.len() == 38 && s[0] == '{' && s[37] == '}' && is_hyphenated(s.subrange(1, 37))
    ||| s.len() == 45 && ascii_lower(s.take(9)) == "urn:uuid:"@ && is_hyphenated(s.skip(9))
}

/// `uuid::Uuid::parse_str`: whether the text is a UUID in one of the forms that it accepts, which
/// `is_uuid` lists.
#[verifier::external_body]
pub(crate) fn names_uuid(s: &str) -> (r: bool)
    ensures
        r == is_uuid(s@),
{
    uuid::Uuid::parse_str(s).is_ok()
}

/// A point in time, in nanoseconds since the Unix epoch, as RFC 3339 writes it in UTC.
pub uninterp spec fn rfc3339_of(nanos: int) -> Seq<char>;

/// `chrono::DateTime::from_timestamp_nanos` and `to_rfc3339`: the point in time as a text. The
/// result is named by `rfc3339_of`.
#[verifier::external_body]
pub(crate) fn rfc3339(nanos: i64) -> (r: String)
    ensures
        r@ == rfc3339_of(nanos as int),
{
    chrono::DateTime::from_timestamp_nanos(nanos).to_rfc3339()
}

/// A point in time, in nanoseconds since the Unix epoch, as its day and minute in UTC.
pub uninterp spec fn minute_stamp_of(nanos: int) -> Seq<char>;

/// `chrono::DateTime::from_timestamp_nanos` and `format` with `%Y-%m-%d %H:%M`: the day and the
/// minute as a text. The result is named by `minute_stamp_of`.
#[verifier::external_body]
pub(crate) fn minute_stamp(nanos: i64) -> (r: String)
    ensures
        r@ == minute_stamp_of(nanos as int),
{
    chrono::DateTime::from_timestamp_nanos(nanos).format("%Y-%m-%d %H:%M").to_string()
}

/// The hour and the minute that an RFC 3339 text gives, in its own time zone.
pub uninterp spec fn clock_of(ts: Seq<char>) -> Option<(u32, u32)>;

/// `chrono::DateTime::parse_from_rfc3339`, then `Timelike::hour` and `Timelike::minute`: the time
/// of day that an RFC 3339 text gives; nothing where it is none. The result is named by `clock_of`;
/// an hour is below twenty-four, and a minute below sixty.
#[verifier::external_body]
pub(crate) fn clock(ts: &str) -> (r: Option<(u32, u32)>)
    ensures
        r == clock_of(ts@),
        r matches Some((h, m)) ==> h < 24 && m < 60,
{
    let t = chrono::DateTime::parse_from_rfc3339(ts).ok()?;
    Some((chrono::Timelike::hour(&t), chrono::Timelike::minute(&t)))
}

/// Whether Unicode counts a character among the letters and numbers.
pub uninterp spec fn is_alphanumeric(c: char) -> bool;

/// Whether a character is a letter or a number: one of `A` to `Z`, `a` to `z` and `0` to `9` where
/// it is ASCII, else what `char::is_alphanumeric` says.
pub open spec fn is_letter_or_number(c: char) -> bool {
    if c as u32 <= 0x7f {
        'A' <= c <= 'Z' || 'a' <= c <= 'z' || '0' <= c <= '9'
    } else {
        is_alphanumeric(c)
    }
}

/// `char::is_alphanumeric`: whether the character is a letter or a number. The result is named by
/// `is_alphanumeric`. Of the ASCII characters it holds of the letters and the digits.
#[verifier::external_body]
pub(crate) fn char_is_alphanumeric(c: char) -> (r: bool)
    ensures
        r == is_alphanumeric(c),
        c as u32 <= 0x7f ==> r == ('A' <= c <= 'Z' || 'a' <= c <= 'z' || '0' <= c <= '9'),
{
    c.is_alphanumeric()
}

/// `std::path::Path::is_absolute`: whether the text is an absolute path on this machine. That
/// differs from one operating system to another, so nothing is claimed of the result.
#[verifier::external_body]
pub(crate) fn path_is_absolute(path: &str) -> (r: bool) {
    std::path::Path::new(path).is_absolute()
}

} // verus!
