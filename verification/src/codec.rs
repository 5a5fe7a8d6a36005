//! The outside encoders, digests and formatters the registrar relies on:
//! base64, SHA-256, UUIDs, RFC 3339 timestamps and Markdown rendering.
//! Each is a thin call whose contract names its result.

use base64::Engine;
use sha2::Digest;
use vstd::prelude::*;

verus! {

/// Earliest instant (microseconds since the Unix epoch) that chrono can
/// represent as a `DateTime<Utc>`: year -262143, January 1st.
pub const EARLIEST_MICROS: i64 = -8334601315200000000;

/// Latest instant (microseconds since the Unix epoch) that chrono can
/// represent as a `DateTime<Utc>`: the last microsecond of year 262142.
pub const LATEST_MICROS: i64 = 8210266876799999999;

/// What `Sha256::digest` (sha2) returns for the given bytes.
pub uninterp spec fn sha256_digest(data: Seq<u8>) -> Seq<u8>;

/// What the standard base64 engine (base64, `general_purpose::STANDARD`:
/// RFC 4648 alphabet, padded) encodes the given bytes to.
pub uninterp spec fn base64_encoded(data: Seq<u8>) -> Seq<char>;

/// What the standard base64 engine decodes the given text to, or `None`
/// where it reports an error.
pub uninterp spec fn base64_decoded(text: Seq<char>) -> Option<Seq<u8>>;

/// What `Uuid::parse_str` (uuid) reads from the given text, as the UUID's
/// sixteen bytes, or `None` where it reports an error.
pub uninterp spec fn uuid_parsed(text: Seq<char>) -> Option<Seq<u8>>;

/// What chrono's `DateTime<Utc>::to_rfc3339_opts(_, true)` writes for the
/// instant `micros` microseconds after the epoch: with a fixed six-digit
/// fraction (`SecondsFormat::Micros`) when `fixed_micros` holds, otherwise
/// with the shortest exact fraction (`SecondsFormat::AutoSi`, the form
/// chrono's serde serialization uses).
pub uninterp spec fn rfc3339_text(micros: i64, fixed_micros: bool) -> Seq<char>;

/// The HTML that pulldown-cmark renders from Markdown text, with every
/// extension (`Options::all()`) on.
pub uninterp spec fn markdown_html(md: Seq<char>) -> Seq<char>;

/// `Sha256::digest` (sha2): the contract names the 32-byte digest and
/// claims nothing of the hash function beyond its length.
#[verifier::external_body]
pub(crate) fn sha256(data: &[u8]) -> (d: Vec<u8>)
    ensures
        d@ == sha256_digest(data@),
        d@.len() == 32,
{
    sha2::Sha256::digest(data).to_vec()
}

/// `STANDARD.encode` (base64): the encoding is named, and the contract
/// states that the standard engine decodes it back to the input.
#[verifier::external_body]
pub(crate) fn encode_base64(data: &[u8]) -> (s: String)
    ensures
        s@ == base64_encoded(data@),
        base64_decoded(s@) == Some(data@),
{
    base64::engine::general_purpose::STANDARD.encode(data)
}

/// `STANDARD.decode` (base64): `None` exactly where the engine reports a
/// decoding error.
#[verifier::external_body]
pub(crate) fn decode_base64(text: &str) -> (r: Option<Vec<u8>>)
    ensures
        match r {
            Some(v) => base64_decoded(text@) == Some(v@),
            None => base64_decoded(text@) is None,
        },
{
    match base64::engine::general_purpose::STANDARD.decode(text) {
        Ok(v) => Some(v),
        Err(_) => None,
    }
}

/// `Uuid::new_v4` (uuid): sixteen random bytes carrying the version-4 and
/// RFC 4122 variant bits. Nothing else is claimed of them.
#[verifier::external_body]
pub(crate) fn random_uuid_bytes() -> (b: [u8; 16])
    ensures
        b@[6] / 16 == 4,
        b@[8] / 64 == 2,
{
    *uuid::Uuid::new_v4().as_bytes()
}

/// The lowercase hexadecimal digit for `d < 16`.
pub open spec fn hex_digit(d: int) -> char {
    if d < 10 {
        (('0' as int) + d) as char
    } else {
        (('a' as int) + d - 10) as char
    }
}

/// The two lowercase hexadecimal digits of a byte.
pub open spec fn hex_pair(b: u8) -> Seq<char> {
    seq![hex_digit(b as int / 16), hex_digit(b as int % 16)]
}

/// The lowercase hexadecimal digits of the bytes `b[from..to]`.
pub open spec fn hex_run(b: Seq<u8>, from: int, to: int) -> Seq<char>
    decreases to - from,
{
    if to <= from {
        seq![]
    } else {
        hex_run(b, from, to - 1) + hex_pair(b[to - 1])
    }
}

/// The hyphenated form of a UUID: 8-4-4-4-12 lowercase hex digits.
pub open spec fn uuid_hyphenated(b: Seq<u8>) -> Seq<char> {
    hex_run(b, 0, 4) + seq!['-'] + hex_run(b, 4, 6) + seq!['-'] + hex_run(b, 6, 8) + seq!['-']
        + hex_run(b, 8, 10) + seq!['-'] + hex_run(b, 10, 16)
}

/// `Uuid`'s `Display` (uuid): the hyphenated lowercase form, which
/// `Uuid::parse_str` reads back.
#[verifier::external_body]
pub(crate) fn uuid_string(b: [u8; 16]) -> (s: String)
    ensures
        s@ == uuid_hyphenated(b@),
        uuid_parsed(s@) == Some(b@),
{
    uuid::Uuid::from_bytes(b).to_string()
}

/// `Uuid::parse_str` (uuid): the UUID's bytes, or `None` where parsing fails.
#[verifier::external_body]
pub(crate) fn parse_uuid(text: &str) -> (r: Option<[u8; 16]>)
    ensures
        match r {
            Some(b) => uuid_parsed(text@) == Some(b@),
            None => uuid_parsed(text@) is None,
        },
{
    match uuid::Uuid::parse_str(text) {
        Ok(u) => Some(*u.as_bytes()),
        Err(_) => None,
    }
}

/// chrono: `DateTime::<Utc>::from_timestamp_micros(micros)` formatted with
/// `to_rfc3339_opts(_, true)`; the text is named, not described.
#[verifier::external_body]
pub(crate) fn format_rfc3339(micros: i64, fixed_micros: bool) -> (s: String)
    requires
        EARLIEST_MICROS <= micros <= LATEST_MICROS,
    ensures
        s@ == rfc3339_text(micros, fixed_micros),
{
    let at = chrono::DateTime::from_timestamp_micros(micros).unwrap();
    let form = if fixed_micros {
        chrono::SecondsFormat::Micros
    } else {
        chrono::SecondsFormat::AutoSi
    };
    at.to_rfc3339_opts(form, true)
}

/// pulldown-cmark: `html::push_html` over `Parser::new_ext(md,
/// Options::all())`; the HTML is named, not described.
#[verifier::external_body]
pub(crate) fn render_markdown(md: &str) -> (html: String)
    ensures
        html@ == markdown_html(md@),
{
    let parser = pulldown_cmark::Parser::new_ext(md, pulldown_cmark::Options::all());
    let mut body = String::new();
    pulldown_cmark::html::push_html(&mut body, parser);
    body
}

} // verus!
