//! Everything this library takes from other crates and from the parts of the
//! standard library that carry no contract: the calls themselves, and what is
//! believed of each without proof.

use vstd::prelude::*;
use vstd::utf8::{decode_utf8, valid_utf8};
use base64::Engine;
use base64::engine::general_purpose::URL_SAFE_NO_PAD;
use chrono::Timelike;
use rand::RngCore;
use sha2::{Digest, Sha256, Sha384, Sha512};
use crate::json::JsonTree;

verus! {

// ---------------------------------------------------------------- std

/// `String::push` appends one character and changes nothing else.
pub assume_specification[ String::push ](s: &mut String, c: char)
    ensures
        final(s)@ == old(s)@.push(c),
;

/// The text in which `std::str::from_utf8` reports what is wrong with `bytes`.
pub uninterp spec fn utf8_fault(bytes: Seq<u8>) -> Seq<char>;

/// `std::str::from_utf8` succeeds exactly on valid UTF-8 and gives the text
/// that the bytes encode. An error comes back as the text it displays.
#[verifier::external_body]
pub(crate) fn read_utf8(bytes: &[u8]) -> (r: Result<String, String>)
    ensures
        match r {
            Ok(text) => valid_utf8(bytes@) && text@ == decode_utf8(bytes@),
            Err(fault) => !valid_utf8(bytes@) && fault@ == utf8_fault(bytes@),
        },
{
    std::str::from_utf8(bytes).map(String::from).map_err(|e| e.to_string())
}

/// A path as the standard library holds it.
#[verifier::external_type_specification]
#[verifier::external_body]
pub struct ExPathBuf(std::path::PathBuf);

/// Cloning a `PathBuf` gives the same path.
pub assume_specification[ <std::path::PathBuf as Clone>::clone ](
    path: &std::path::PathBuf,
) -> (r: std::path::PathBuf)
    ensures
        r == *path,
;

// --------------------------------------------------------- serde_json

/// A JSON number as `serde_json` holds it.
#[verifier::external_type_specification]
#[verifier::external_body]
pub struct ExNumber(serde_json::Number);

/// A JSON value as `serde_json` holds it.
#[verifier::external_type_specification]
#[verifier::external_body]
pub struct ExValue(serde_json::Value);

/// What a `serde_json` value holds.
pub uninterp spec fn json_held(v: serde_json::Value) -> JsonTree;

/// One level of a `serde_json` value: its kind, and what stands directly in it.
pub enum JsonLevel {
    Null,
    Bool(bool),
    Number(serde_json::Number),
    Text(String),
    Array(Vec<serde_json::Value>),
    Object(Vec<(String, serde_json::Value)>),
}

/// Whether no two members have one name.
pub open spec fn names_differ(members: Seq<(String, serde_json::Value)>) -> bool {
    forall|i: int, j: int| 0 <= i < j < members.len() ==> members[i].0@ != members[j].0@
}

/// What a list of members, whose names differ, holds by name.
pub open spec fn members_held(members: Seq<(String, serde_json::Value)>) -> Map<
    Seq<char>,
    JsonTree,
>
    decreases members.len(),
{
    if members.len() == 0 {
        Map::empty()
    } else {
        members_held(members.drop_last()).insert(members.last().0@, json_held(members.last().1))
    }
}

/// What one level, with the values that stand in it, holds.
pub open spec fn level_held(level: JsonLevel) -> JsonTree {
    match level {
        JsonLevel::Null => JsonTree::Null,
        JsonLevel::Bool(b) => JsonTree::Bool(b),
        JsonLevel::Number(n) => JsonTree::Number(n),
        JsonLevel::Text(s) => JsonTree::Text(s@),
        JsonLevel::Array(items) => JsonTree::Array(
            Seq::new(items@.len(), |i: int| json_held(items@[i])),
        ),
        JsonLevel::Object(members) => JsonTree::Object(members_held(members@)),
    }
}

/// The variants of `serde_json::Value` taken apart. The members of an object
/// come out of `serde_json::Map`, which holds each name once.
#[verifier::external_body]
pub(crate) fn take_apart(v: serde_json::Value) -> (level: JsonLevel)
    ensures
        level_held(level) == json_held(v),
        level matches JsonLevel::Object(members) ==> names_differ(members@),
{
    match v {
        serde_json::Value::Null => JsonLevel::Null,
        serde_json::Value::Bool(b) => JsonLevel::Bool(b),
        serde_json::Value::Number(n) => JsonLevel::Number(n),
        serde_json::Value::String(s) => JsonLevel::Text(s),
        serde_json::Value::Array(items) => JsonLevel::Array(items),
        serde_json::Value::Object(members) => JsonLevel::Object(members.into_iter().collect()),
    }
}

/// The variants of `serde_json::Value` put together. The members of an object,
/// whose names differ, are collected into a `serde_json::Map`.
#[verifier::external_body]
pub(crate) fn put_together(level: JsonLevel) -> (v: serde_json::Value)
    requires
        level matches JsonLevel::Object(members) ==> names_differ(members@),
    ensures
        json_held(v) == level_held(level),
{
    match level {
        JsonLevel::Null => serde_json::Value::Null,
        JsonLevel::Bool(b) => serde_json::Value::Bool(b),
        JsonLevel::Number(n) => serde_json::Value::Number(n),
        JsonLevel::Text(s) => serde_json::Value::String(s),
        JsonLevel::Array(items) => serde_json::Value::Array(items),
        JsonLevel::Object(members) => serde_json::Value::Object(members.into_iter().collect()),
    }
}

/// Cloning a `serde_json::Number` gives the same number.
#[verifier::external_body]
pub(crate) fn same_number(n: &serde_json::Number) -> (r: serde_json::Number)
    ensures
        r == *n,
{
    n.clone()
}

/// Whether a `serde_json` number is held as a floating-point number; otherwise it
/// is held as an integer.
pub uninterp spec fn held_as_float(n: serde_json::Number) -> bool;

/// `Number::is_f64` says how the number is held.
#[verifier::external_body]
pub(crate) fn is_float(n: &serde_json::Number) -> (r: bool)
    ensures
        r == held_as_float(*n),
{
    n.is_f64()
}

/// What `serde_json::from_slice` reads from `bytes`, or the text in which it
/// reports why it cannot.
pub uninterp spec fn json_read(bytes: Seq<u8>) -> Result<JsonTree, Seq<char>>;

/// The bytes that `serde_json::to_vec` writes for a value.
pub uninterp spec fn json_text(t: JsonTree) -> Seq<u8>;

/// How many arrays and objects may stand in one another in what
/// `serde_json::from_slice` reads.
pub const NESTING_LIMIT: u8 = 127;

/// Whether reading gives back what writing `t` wrote: at most `levels` arrays and
/// objects stand in one another, and every number is an integer, or a
/// floating-point number that reads back by itself. (Floating-point numbers are
/// read with ordinary precision; some come back as a neighbour.)
pub open spec fn reads_back(t: JsonTree, levels: nat) -> bool
    decreases levels,
{
    match t {
        JsonTree::Number(n) => held_as_float(n) ==> json_read(json_text(t)) == Ok::<
            JsonTree,
            Seq<char>,
        >(t),
        JsonTree::Array(items) => levels > 0 && forall|i: int|
            0 <= i < items.len() ==> reads_back(#[trigger] items[i], (levels - 1) as nat),
        JsonTree::Object(members) => levels > 0 && forall|name: Seq<char>| #[trigger]
            members.dom().contains(name) ==> reads_back(members[name], (levels - 1) as nat),
        _ => true,
    }
}

/// `serde_json::from_slice` reads one JSON value, to which nothing but the
/// bytes contributes. An error comes back as the text it displays.
#[verifier::external_body]
pub(crate) fn read_value(bytes: &[u8]) -> (r: Result<serde_json::Value, String>)
    ensures
        match r {
            Ok(v) => json_read(bytes@) is Ok && json_read(bytes@)->Ok_0 == json_held(v),
            Err(fault) => json_read(bytes@) is Err && json_read(bytes@)->Err_0 == fault@,
        },
{
    serde_json::from_slice(bytes).map_err(|e| e.to_string())
}

/// `serde_json::to_vec` does not fail on a `Value`, whose names are strings. It
/// writes at least one byte, and what it writes reads back as `reads_back` says.
#[verifier::external_body]
pub(crate) fn write_value(v: &serde_json::Value) -> (r: Result<Vec<u8>, String>)
    ensures
        r is Ok,
        r->Ok_0@ == json_text(json_held(*v)),
        r->Ok_0@.len() > 0,
        reads_back(json_held(*v), NESTING_LIMIT as nat) ==> json_read(r->Ok_0@) is Ok
            && json_read(r->Ok_0@)->Ok_0 == json_held(*v),
{
    serde_json::to_vec(v).map_err(|e| e.to_string())
}

// ------------------------------------------------------------- base64

/// The URL-safe base64 text, without padding, of `bytes`.
pub uninterp spec fn b64_text(bytes: Seq<u8>) -> Seq<char>;

/// The bytes that `text` encodes in URL-safe base64 without padding, or the
/// text in which the decoder reports why it encodes none.
pub uninterp spec fn b64_read(text: Seq<char>) -> Result<Seq<u8>, Seq<char>>;

/// The characters of the URL-safe base64 alphabet.
pub open spec fn b64_char(c: char) -> bool {
    ||| 'A' <= c <= 'Z'
    ||| 'a' <= c <= 'z'
    ||| '0' <= c <= '9'
    ||| c == '-'
    ||| c == '_'
}

/// `URL_SAFE_NO_PAD.encode` writes characters of its alphabet only, one for every
/// six bits that were begun, and decoding gives the bytes back.
#[verifier::external_body]
pub(crate) fn write_b64(bytes: &[u8]) -> (r: String)
    ensures
        r@ == b64_text(bytes@),
        b64_read(r@) is Ok && b64_read(r@)->Ok_0 == bytes@,
        forall|i: int| 0 <= i < r@.len() ==> b64_char(#[trigger] r@[i]),
        r@.len() == (4 * bytes@.len() + 2) / 3,
{
    URL_SAFE_NO_PAD.encode(bytes)
}

/// `URL_SAFE_NO_PAD.decode`, applied to the bytes of `text`. It accepts neither
/// padding nor stray bits at the end, so that what it accepts is the text that
/// encoding gives. An error comes back as the text it displays.
#[verifier::external_body]
pub(crate) fn read_b64(text: &str) -> (r: Result<Vec<u8>, String>)
    ensures
        match r {
            Ok(bytes) => {
                &&& b64_read(text@) is Ok
                &&& b64_read(text@)->Ok_0 == bytes@
                &&& b64_text(bytes@) == text@
            },
            Err(fault) => b64_read(text@) is Err && b64_read(text@)->Err_0 == fault@,
        },
{
    URL_SAFE_NO_PAD.decode(text.as_bytes()).map_err(|e| e.to_string())
}

// ------------------------------------------------------ sha2, blake3

/// The SHA-256 digest of `bytes`.
pub uninterp spec fn sha256(bytes: Seq<u8>) -> Seq<u8>;

/// `Sha256`, fed `bytes` in one piece, gives their digest, of 32 bytes.
#[verifier::external_body]
pub(crate) fn sha256_of(bytes: &[u8]) -> (r: Vec<u8>)
    ensures
        r@ == sha256(bytes@),
        r@.len() == 32,
{
    let mut hasher = Sha256::new();
    hasher.update(bytes);
    hasher.finalize().to_vec()
}

/// The SHA-384 digest of `bytes`.
pub uninterp spec fn sha384(bytes: Seq<u8>) -> Seq<u8>;

/// `Sha384`, fed `bytes` in one piece, gives their digest, of 48 bytes.
#[verifier::external_body]
pub(crate) fn sha384_of(bytes: &[u8]) -> (r: Vec<u8>)
    ensures
        r@ == sha384(bytes@),
        r@.len() == 48,
{
    let mut hasher = Sha384::new();
    hasher.update(bytes);
    hasher.finalize().to_vec()
}

/// The SHA-512 digest of `bytes`.
pub uninterp spec fn sha512(bytes: Seq<u8>) -> Seq<u8>;

/// `Sha512`, fed `bytes` in one piece, gives their digest, of 64 bytes.
#[verifier::external_body]
pub(crate) fn sha512_of(bytes: &[u8]) -> (r: Vec<u8>)
    ensures
        r@ == sha512(bytes@),
        r@.len() == 64,
{
    let mut hasher = Sha512::new();
    hasher.update(bytes);
    hasher.finalize().to_vec()
}

/// The BLAKE3 digest of `bytes`.
pub uninterp spec fn blake3(bytes: Seq<u8>) -> Seq<u8>;

/// `blake3::hash` gives the digest, of 32 bytes.
#[verifier::external_body]
pub(crate) fn blake3_of(bytes: &[u8]) -> (r: [u8; 32])
    ensures
        r@ == blake3(bytes@),
{
    *blake3::hash(bytes).as_bytes()
}

// ---------------------------------------------------------------- rand

/// `ThreadRng::fill_bytes` fills the salt with random bytes; nothing is known
/// of them.
#[verifier::external_body]
pub(crate) fn fresh_salt() -> (r: [u8; 16])
{
    let mut salt = [0u8; 16];
    rand::thread_rng().fill_bytes(&mut salt);
    salt
}

// -------------------------------------------------------------- chrono

/// The moments that `chrono::DateTime<Utc>` can represent: `secs` seconds after
/// the start of 1970 and `nanos` nanoseconds. These make up a second or more in a
/// leap second, which may follow any second.
pub open spec fn representable(secs: int, nanos: int) -> bool {
    &&& -8334601228800 <= secs <= 8210266876799
    &&& 0 <= nanos < 2_000_000_000
}

/// Whether the moment, if it lies in a leap second, does so at the end of a minute:
/// the one place where RFC 3339 can write one.
pub open spec fn leap_in_place(secs: int, nanos: int) -> bool {
    nanos >= 1_000_000_000 ==> secs % 60 == 59
}

/// Whether the moment lies in the years 0 to 9999, which RFC 3339 can write.
pub open spec fn four_digit_year(secs: int) -> bool {
    -62167219200 <= secs <= 253402300799
}

/// The RFC 3339 text that `DateTime::to_rfc3339` writes for a moment in UTC.
pub uninterp spec fn rfc3339_text(secs: i64, nanos: u32) -> Seq<char>;

/// The moment that `DateTime::parse_from_rfc3339` reads, or the text in which it
/// reports why it reads none.
pub uninterp spec fn rfc3339_read(text: Seq<char>) -> Result<(i64, u32), Seq<char>>;

/// `DateTime::from_timestamp` accepts the representable seconds,
/// `NaiveDateTime::with_nanosecond` sets the nanoseconds, and `to_rfc3339` writes
/// the moment down. In years of four digits, and with a leap second in its place,
/// the text reads back.
#[verifier::external_body]
pub(crate) fn write_rfc3339(secs: i64, nanos: u32) -> (r: String)
    requires
        representable(secs as int, nanos as int),
    ensures
        r@ == rfc3339_text(secs, nanos),
        four_digit_year(secs as int) && leap_in_place(secs as int, nanos as int) ==> {
            &&& rfc3339_read(r@) is Ok
            &&& rfc3339_read(r@)->Ok_0 == (secs, nanos)
        },
{
    let second = chrono::DateTime::<chrono::Utc>::from_timestamp(secs, 0).unwrap();
    second.naive_utc().with_nanosecond(nanos).unwrap().and_utc().to_rfc3339()
}

/// `DateTime::parse_from_rfc3339` reads a representable moment, with a leap second
/// only in its place; the offset from UTC that was written with it is resolved. An
/// error comes back as the text it displays.
#[verifier::external_body]
pub(crate) fn read_rfc3339(text: &str) -> (r: Result<(i64, u32), String>)
    ensures
        match r {
            Ok(t) => {
                &&& rfc3339_read(text@) is Ok
                &&& rfc3339_read(text@)->Ok_0 == t
                &&& representable(t.0 as int, t.1 as int)
                &&& leap_in_place(t.0 as int, t.1 as int)
            },
            Err(fault) => rfc3339_read(text@) is Err && rfc3339_read(text@)->Err_0 == fault@,
        },
{
    chrono::DateTime::parse_from_rfc3339(text)
        .map(|t| (t.timestamp(), t.timestamp_subsec_nanos()))
        .map_err(|e| e.to_string())
}

} // verus!
