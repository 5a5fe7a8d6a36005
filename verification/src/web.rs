//! The HTTP surface's decisions and documents: how registrar errors become
//! responses, how requests are authenticated, and what the card, WebFinger
//! and listing documents hold. Transport is not done here.

use vstd::prelude::*;
use crate::codec::{
    markdown_html, parse_uuid, random_uuid_bytes, render_markdown, uuid_hyphenated, uuid_parsed,
    uuid_string,
};
use crate::json::{
    get, json_get, json_opt_str, json_str_value, json_string, json_text, lemma_ascending_object,
    member, member_texts, object_text, JsonValue,
};
use crate::order::text_lt;
use crate::registrar::RegistrarError;
use crate::text::{
    append_str, chars_eq, chars_of, owned, slice_chars, string_of, trim_chars, trim_str, trimmed,
};

verus! {

/// An error response: HTTP status and the message for `{"ok": false,
/// "error": ...}`.
pub struct ApiError {
    pub status: u16,
    pub message: String,
}

fn api_error(status: u16, msg: &str) -> (e: ApiError)
    ensures
        e.status == status,
        e.message@ == msg@,
{
    ApiError { status, message: owned(msg) }
}

// ---------------------------------------------------------------------------
// Percent-encoding

/// Bytes a URL carries as themselves: ASCII letters, digits, `-._~`.
pub open spec fn url_unreserved(b: u8) -> bool {
    (65 <= b <= 90) || (97 <= b <= 122) || (48 <= b <= 57) || b == 45 || b == 46 || b == 95 || b
        == 126
}

/// The uppercase hexadecimal digit for `d < 16`.
pub open spec fn hex_upper(d: int) -> char {
    if d < 10 {
        (('0' as int) + d) as char
    } else {
        (('A' as int) + d - 10) as char
    }
}

/// One byte of a percent-encoded text.
pub open spec fn url_byte(b: u8) -> Seq<char> {
    if url_unreserved(b) {
        seq![b as char]
    } else {
        seq!['%', hex_upper(b as int / 16), hex_upper(b as int % 16)]
    }
}

/// Percent-encoding of a byte string: unreserved bytes as themselves,
/// every other byte as `%XX` (uppercase hex).
pub open spec fn url_encoded(bytes: Seq<u8>) -> Seq<char>
    decreases bytes.len(),
{
    if bytes.len() == 0 {
        seq![]
    } else {
        url_encoded(bytes.drop_last()) + url_byte(bytes.last())
    }
}

fn hex_upper_char(d: u8) -> (c: char)
    requires
        d < 16,
    ensures
        c == hex_upper(d as int),
{
    if d < 10 {
        let b: u8 = 48 + d;
        b as char
    } else {
        let b: u8 = 55 + d;
        b as char
    }
}

/// Percent-encodes the UTF-8 bytes of `s`.
pub fn urlencode(s: &str) -> (r: String)
    ensures
        r@ == url_encoded(vstd::utf8::encode_utf8(s@)),
{
    let bytes = s.as_bytes();
    let mut out: Vec<char> = Vec::new();
    let mut i: usize = 0;
    while i < bytes.len()
        invariant
            i <= bytes@.len(),
            bytes@ == vstd::utf8::encode_utf8(s@),
            out@ == url_encoded(bytes@.take(i as int)),
        decreases bytes.len() - i,
    {
        let b = bytes[i];
        assert(bytes@.take(i + 1).drop_last() =~= bytes@.take(i as int));
        if (65 <= b && b <= 90) || (97 <= b && b <= 122) || (48 <= b && b <= 57) || b == 45 || b
            == 46 || b == 95 || b == 126 {
            out.push(b as char);
        } else {
            out.push('%');
            out.push(hex_upper_char(b / 16));
            out.push(hex_upper_char(b % 16));
        }
        assert(out@ =~= url_encoded(bytes@.take(i + 1)));
        i += 1;
    }
    assert(bytes@.take(bytes@.len() as int) =~= bytes@);
    string_of(&out)
}

/// The value of a hex digit (either case), if it is one.
pub open spec fn hex_nibble(c: char) -> Option<int> {
    if '0' <= c && c <= '9' {
        Some((c as int) - ('0' as int))
    } else if 'A' <= c && c <= 'F' {
        Some((c as int) - ('A' as int) + 10)
    } else if 'a' <= c && c <= 'f' {
        Some((c as int) - ('a' as int) + 10)
    } else {
        None
    }
}

/// Percent-decoding: `%XX` is the byte `XX`, any other ASCII character is
/// its own byte; anything else is not a percent-encoded text.
pub open spec fn url_decoded(t: Seq<char>) -> Option<Seq<u8>>
    decreases t.len(),
{
    if t.len() == 0 {
        Some(seq![])
    } else if t[0] == '%' {
        if t.len() >= 3 && hex_nibble(t[1]) is Some && hex_nibble(t[2]) is Some {
            match url_decoded(t.skip(3)) {
                Some(rest) => Some(
                    seq![(16 * hex_nibble(t[1])->0 + hex_nibble(t[2])->0) as u8] + rest,
                ),
                None => None,
            }
        } else {
            None
        }
    } else if (t[0] as u32) < 128 {
        match url_decoded(t.skip(1)) {
            Some(rest) => Some(seq![t[0] as u8] + rest),
            None => None,
        }
    } else {
        None
    }
}

proof fn lemma_url_encoded_front(x: u8, rest: Seq<u8>)
    ensures
        url_encoded(seq![x] + rest) == url_byte(x) + url_encoded(rest),
    decreases rest.len(),
{
    if rest.len() == 0 {
        assert((seq![x] + rest).drop_last() =~= Seq::<u8>::empty());
        assert(url_encoded(Seq::<u8>::empty()) =~= Seq::<char>::empty());
        assert(url_byte(x) + url_encoded(rest) =~= url_byte(x));
    } else {
        lemma_url_encoded_front(x, rest.drop_last());
        assert((seq![x] + rest).drop_last() =~= seq![x] + rest.drop_last());
        assert(url_byte(x) + url_encoded(rest) =~= url_byte(x) + url_encoded(rest.drop_last())
            + url_byte(rest.last()));
    }
}

proof fn lemma_url_byte_decodes(x: u8, tail: Seq<char>, rest: Seq<u8>)
    requires
        url_decoded(tail) == Some(rest),
    ensures
        url_decoded(url_byte(x) + tail) == Some(seq![x] + rest),
{
    let t = url_byte(x) + tail;
    if url_unreserved(x) {
        assert(t[0] == x as char);
        assert(t.skip(1) =~= tail);
        assert((x as char) as u32 == x as u32);
        assert(t[0] != '%');
        assert((t[0] as u8) == x);
    } else {
        let hi = x as int / 16;
        let lo = x as int % 16;
        assert(t[0] == '%');
        assert(t[1] == hex_upper(hi));
        assert(t[2] == hex_upper(lo));
        assert(t.skip(3) =~= tail);
        assert(hex_nibble(hex_upper(hi)) == Some(hi));
        assert(hex_nibble(hex_upper(lo)) == Some(lo));
        assert((16 * hi + lo) as u8 == x);
    }
}

/// Percent-decoding undoes percent-encoding: the encoded text gives back
/// exactly the bytes it was made from.
pub proof fn law_urlencode_round_trip(bytes: Seq<u8>)
    ensures
        url_decoded(url_encoded(bytes)) == Some(bytes),
    decreases bytes.len(),
{
    if bytes.len() == 0 {
        assert(url_encoded(bytes) =~= Seq::<char>::empty());
    } else {
        let x = bytes[0];
        let rest = bytes.drop_first();
        assert(bytes =~= seq![x] + rest);
        lemma_url_encoded_front(x, rest);
        law_urlencode_round_trip(rest);
        lemma_url_byte_decodes(x, url_encoded(rest), rest);
    }
}

/// How a query value is read under form-urlencoded rules: each `+` stands
/// for a space, then percent-escapes are decoded.
pub open spec fn form_decoded(t: Seq<char>) -> Option<Seq<u8>> {
    url_decoded(t.map_values(|c: char| if c == '+' { ' ' } else { c }))
}

proof fn lemma_url_byte_no_plus(b: u8)
    ensures
        forall|i: int| 0 <= i < url_byte(b).len() ==> #[trigger] url_byte(b)[i] != '+',
{
    if url_unreserved(b) {
        assert(b != 43);
        assert((b as char) as u32 == b as u32);
        assert('+' as u32 == 43);
    } else {
        let hi = b as int / 16;
        let lo = b as int % 16;
        assert(0 <= hi < 16 && 0 <= lo < 16);
        assert(hex_upper(hi) as u32 >= 48);
        assert(hex_upper(lo) as u32 >= 48);
        assert('+' as u32 == 43);
        assert('%' as u32 == 37);
    }
}

proof fn lemma_url_encoded_no_plus(bytes: Seq<u8>)
    ensures
        forall|i: int| 0 <= i < url_encoded(bytes).len() ==> #[trigger] url_encoded(bytes)[i] != '+',
    decreases bytes.len(),
{
    if bytes.len() > 0 {
        lemma_url_encoded_no_plus(bytes.drop_last());
        lemma_url_byte_no_plus(bytes.last());
        let a = url_encoded(bytes.drop_last());
        let b = url_byte(bytes.last());
        assert forall|i: int| 0 <= i < (a + b).len() implies #[trigger] (a + b)[i] != '+' by {
            if i < a.len() {
                assert((a + b)[i] == a[i]);
            } else {
                assert((a + b)[i] == b[i - a.len()]);
            }
        }
    }
}

/// A percent-encoded value survives a reader that takes `+` for a space:
/// no byte is ever written as a bare `+` (a `+` in the text is written
/// `%2B`), so form-urlencoded decoding gives back exactly the bytes that
/// were encoded. This is what lets a card link name a handle under a
/// plus-addressed email.
pub proof fn law_urlencode_survives_form_decoding(bytes: Seq<u8>)
    ensures
        form_decoded(url_encoded(bytes)) == Some(bytes),
{
    let t = url_encoded(bytes);
    lemma_url_encoded_no_plus(bytes);
    assert(t.map_values(|c: char| if c == '+' { ' ' } else { c }) =~= t);
    law_urlencode_round_trip(bytes);
}

/// Percent-encoding leaves a text of unreserved bytes as it is: each byte
/// comes out as the character it codes.
pub proof fn law_urlencode_keeps_unreserved(bytes: Seq<u8>)
    requires
        forall|i: int| 0 <= i < bytes.len() ==> url_unreserved(#[trigger] bytes[i]),
    ensures
        url_encoded(bytes) == bytes.map_values(|b: u8| b as char),
    decreases bytes.len(),
{
    if bytes.len() > 0 {
        let front = bytes.drop_last();
        assert forall|i: int| 0 <= i < front.len() implies url_unreserved(#[trigger] front[i]) by {
            assert(front[i] == bytes[i]);
        }
        law_urlencode_keeps_unreserved(front);
        assert(url_unreserved(bytes[bytes.len() - 1]));
        assert(bytes.map_values(|b: u8| b as char) =~= front.map_values(|b: u8| b as char) + seq![
            bytes.last() as char,
        ]);
    } else {
        assert(bytes.map_values(|b: u8| b as char) =~= Seq::<char>::empty());
    }
}

// ---------------------------------------------------------------------------
// Errors and authentication

pub open spec fn session_expired_message() -> Seq<char> {
    "session expired — verify your email again"@
}

/// How a registrar error is answered: 400 for an invalid request, 409 when
/// taken, 401 when not authorized (asking the caller to verify again), 500
/// for storage failures (whose details are not disclosed).
pub fn reg_err(e: &RegistrarError) -> (a: ApiError)
    ensures
        match e {
            RegistrarError::Invalid(m) => a.status == 400 && a.message@ == m@,
            RegistrarError::Taken(m) => a.status == 409 && a.message@ == m@,
            RegistrarError::Unauthorized => a.status == 401 && a.message@
                == session_expired_message(),
            RegistrarError::Db(_) => a.status == 500 && a.message@ == "storage error"@,
        },
{
    match e {
        RegistrarError::Invalid(m) => ApiError { status: 400, message: m.clone() },
        RegistrarError::Taken(m) => ApiError { status: 409, message: m.clone() },
        RegistrarError::Unauthorized => api_error(401, "session expired — verify your email again"),
        RegistrarError::Db(_) => api_error(500, "storage error"),
    }
}

/// The body of an error response: `{"error": <message>, "ok": false}`.
pub fn error_body(message: &str) -> (v: JsonValue)
    ensures
        v.wf(),
        json_text(v) == object_text(
            seq![("error"@, json_string(message@)), ("ok"@, seq!['f', 'a', 'l', 's', 'e'])],
        ),
{
    let mut ms: Vec<(String, JsonValue)> = Vec::new();
    ms.push(member("error", json_str_value(message)));
    ms.push(member("ok", JsonValue::Bool(false)));
    proof {
        reveal_strlit("error");
        reveal_strlit("ok");
        reveal_with_fuel(text_lt, 2);
        assert(text_lt(ms@[0].0@, ms@[1].0@));
        lemma_ascending_object(ms);
        assert(member_texts(ms@) =~= seq![
            ("error"@, json_string(message@)),
            ("ok"@, seq!['f', 'a', 'l', 's', 'e']),
        ]);
    }
    JsonValue::Object(ms)
}

/// The session token an `Authorization` header carries: the UUID after
/// `Bearer `, trimmed.
pub open spec fn bearer_uuid(header: Option<Seq<char>>) -> Option<Seq<u8>> {
    match header {
        Some(h) => if h.len() >= 7 && h.take(7) == "Bearer "@ {
            uuid_parsed(trimmed(h.skip(7)))
        } else {
            None
        },
        None => None,
    }
}

/// Reads the session token from an `Authorization` header.
pub fn bearer_token(header: Option<&str>) -> (r: Option<[u8; 16]>)
    ensures
        match bearer_uuid(
            match header {
                Some(h) => Some(h@),
                None => None,
            },
        ) {
            Some(b) => r matches Some(x) && x@ == b,
            None => r is None,
        },
{
    match header {
        Some(h) => {
            let v = chars_of(h);
            if v.len() < 7 {
                return None;
            }
            let prefix = slice_chars(&v, 0, 7);
            let want = chars_of("Bearer ");
            assert(prefix@ =~= v@.take(7));
            if !chars_eq(&prefix, &want) {
                return None;
            }
            let rest = slice_chars(&v, 7, v.len());
            assert(rest@ =~= v@.skip(7));
            let t = trim_chars(&rest);
            let ts = string_of(&t);
            parse_uuid(ts.as_str())
        },
        None => None,
    }
}

/// The byte at `k`, with zero past the end: the padding under which two
/// strings of different lengths are compared.
pub open spec fn padded_byte(s: Seq<u8>, k: int) -> u8 {
    if 0 <= k < s.len() {
        s[k]
    } else {
        0
    }
}

/// Compares two byte strings without an early exit: every position up to the
/// longer length is visited, and a length mismatch is folded into the same
/// accumulator, so neither the position of the first difference nor a
/// shorter length ends the comparison early.
pub fn secrets_equal(a: &[u8], b: &[u8]) -> (r: bool)
    ensures
        r == (a@ == b@),
{
    let n: usize = if a.len() > b.len() {
        a.len()
    } else {
        b.len()
    };
    let mut acc: u8 = if a.len() == b.len() {
        0
    } else {
        1
    };
    let mut i: usize = 0;
    while i < n
        invariant
            i <= n,
            n == a@.len() || n == b@.len(),
            a@.len() <= n,
            b@.len() <= n,
            (acc == 0) <==> (a@.len() == b@.len() && forall|k: int|
                0 <= k < i ==> padded_byte(a@, k) == padded_byte(b@, k)),
        decreases n - i,
    {
        let x: u8 = if i < a.len() {
            a[i]
        } else {
            0
        };
        let y: u8 = if i < b.len() {
            b[i]
        } else {
            0
        };
        assert(x == padded_byte(a@, i as int) && y == padded_byte(b@, i as int));
        assert(((acc | (x ^ y)) == 0) <==> (acc == 0 && x == y)) by (bit_vector);
        acc = acc | (x ^ y);
        i += 1;
    }
    proof {
        if acc == 0 {
            assert forall|k: int| 0 <= k < a@.len() implies a@[k] == b@[k] by {
                assert(padded_byte(a@, k) == padded_byte(b@, k));
            }
            assert(a@ =~= b@);
        }
        if a@ == b@ {
            assert forall|k: int| 0 <= k < i implies padded_byte(a@, k) == padded_byte(b@, k) by {}
        }
    }
    acc == 0
}

/// Whether delegated sign-in is configured and the partner presented the
/// shared secret: 501 when no (non-empty) secret is configured, 401 when the
/// presented secret (none counts as empty) differs.
pub fn delegation_check(expected: Option<&str>, provided: Option<&str>) -> (r: Result<
    (),
    ApiError,
>)
    ensures
        match expected {
            None => r matches Err(e) && e.status == 501 && e.message@
                == "delegation not configured"@,
            Some(x) => if x@.len() == 0 {
                r matches Err(e) && e.status == 501 && e.message@ == "delegation not configured"@
            } else {
                let p = match provided {
                    Some(p) => p@,
                    None => Seq::<char>::empty(),
                };
                if vstd::utf8::encode_utf8(p) == vstd::utf8::encode_utf8(x@) {
                    r is Ok
                } else {
                    r matches Err(e) && e.status == 401 && e.message@ == "invalid delegate secret"@
                }
            },
        },
{
    match expected {
        None => Err(api_error(501, "delegation not configured")),
        Some(x) => {
            if x.is_empty() {
                return Err(api_error(501, "delegation not configured"));
            }
            let p: &str = match provided {
                Some(p) => p,
                None => "",
            };
            proof {
                reveal_strlit("");
            }
            if secrets_equal(p.as_bytes(), x.as_bytes()) {
                Ok(())
            } else {
                Err(api_error(401, "invalid delegate secret"))
            }
        },
    }
}

// ---------------------------------------------------------------------------
// Listings

/// A manual submission needs a name that is not blank.
pub fn submission_name_check(name: &str) -> (r: Result<(), ApiError>)
    ensures
        r is Ok <==> trimmed(name@).len() > 0,
        r matches Err(e) ==> e.status == 400 && e.message@ == "name is required"@,
{
    let t = trim_str(name);
    if t.len() == 0 {
        Err(api_error(400, "name is required"))
    } else {
        Ok(())
    }
}

/// The upsert of a manual submission yields no row when its source id
/// belongs to another submitter: 409.
pub fn submission_outcome(id: Option<[u8; 16]>) -> (r: Result<[u8; 16], ApiError>)
    ensures
        match id {
            Some(x) => r == Ok::<[u8; 16], ApiError>(x),
            None => r matches Err(e) && e.status == 409 && e.message@
                == "that source_id belongs to another submitter"@,
        },
{
    match id {
        Some(x) => Ok(x),
        None => Err(api_error(409, "that source_id belongs to another submitter")),
    }
}

/// The idempotency key of a submission: the one given, or a fresh UUID.
pub fn submission_source_id(given: &Option<String>) -> (s: String)
    ensures
        match given {
            Some(g) => s@ == g@,
            None => exists|b: Seq<u8>| b.len() == 16 && s@ == uuid_hyphenated(b),
        },
{
    match given {
        Some(g) => g.clone(),
        None => uuid_string(random_uuid_bytes()),
    }
}

/// The protocol of a submission: the one given, or "unknown".
pub fn submission_protocol(given: &Option<String>) -> (s: String)
    ensures
        match given {
            Some(g) => s@ == g@,
            None => s@ == "unknown"@,
        },
{
    match given {
        Some(g) => g.clone(),
        None => owned("unknown"),
    }
}

/// The answer for a listing id that does not exist.
pub fn listing_not_found() -> (e: ApiError)
    ensures
        e.status == 404,
        e.message@ == "no such listing"@,
{
    api_error(404, "no such listing")
}

// ---------------------------------------------------------------------------
// Claims and resolution

pub open spec fn operator_required_message() -> Seq<char> {
    "operator_name required: PAN requires a public display name for the operator (your chosen label, shown on your handles' cards)"@
}

/// A claim needs the operator's display name: given with the claim, or
/// already set for the anchor.
pub fn operator_requirement(given: bool, already_set: bool) -> (r: Result<(), ApiError>)
    ensures
        r is Ok <==> given || already_set,
        r matches Err(e) ==> e.status == 400 && e.message@ == operator_required_message(),
{
    if given || already_set {
        Ok(())
    } else {
        Err(
            api_error(
                400,
                "operator_name required: PAN requires a public display name for the operator (your chosen label, shown on your handles' cards)",
            ),
        )
    }
}

/// What a resolution request looks up.
pub enum ResolveBy {
    /// Forward resolution by handle.
    Handle(String),
    /// Reverse resolution by agent key.
    Agent(String),
}

/// A resolution request names a handle (preferred) or an agent id.
pub fn resolve_request(handle: Option<&str>, agent_id: Option<&str>) -> (r: Result<
    ResolveBy,
    ApiError,
>)
    ensures
        match (handle, agent_id) {
            (Some(h), _) => r matches Ok(ResolveBy::Handle(x)) && x@ == h@,
            (None, Some(a)) => r matches Ok(ResolveBy::Agent(x)) && x@ == a@,
            (None, None) => r matches Err(e) && e.status == 400 && e.message@
                == "pass handle= or agent_id="@,
        },
{
    match (handle, agent_id) {
        (Some(h), _) => Ok(ResolveBy::Handle(owned(h))),
        (None, Some(a)) => Ok(ResolveBy::Agent(owned(a))),
        (None, None) => Err(api_error(400, "pass handle= or agent_id=")),
    }
}

/// The answer when no active handle matches.
pub fn no_agent() -> (e: ApiError)
    ensures
        e.status == 404,
        e.message@ == "no agent by that name"@,
{
    api_error(404, "no agent by that name")
}

/// The handle a WebFinger resource names: the resource without its `acct:`
/// prefix, if it has one.
pub open spec fn webfinger_handle_text(resource: Seq<char>) -> Seq<char> {
    if resource.len() >= 5 && resource.take(5) == "acct:"@ {
        resource.skip(5)
    } else {
        resource
    }
}

/// The handle a WebFinger resource names.
pub fn webfinger_handle(resource: &str) -> (h: String)
    ensures
        h@ == webfinger_handle_text(resource@),
{
    let v = chars_of(resource);
    if v.len() >= 5 {
        let p = slice_chars(&v, 0, 5);
        let want = chars_of("acct:");
        assert(p@ =~= v@.take(5));
        if chars_eq(&p, &want) {
            let rest = slice_chars(&v, 5, v.len());
            assert(rest@ =~= v@.skip(5));
            return string_of(&rest);
        }
    }
    string_of(&v)
}

/// The JSON for an optional text: the string, or null.
pub open spec fn opt_text(s: Option<String>) -> Seq<char> {
    match s {
        Some(t) => json_string(t@),
        None => seq!['n', 'u', 'l', 'l'],
    }
}

/// The WebFinger document (JRD) for a handle.
pub open spec fn jrd_text(handle: Seq<char>, bind_method: Option<String>) -> Seq<char> {
    object_text(
        seq![
            ("links"@, seq!['['] + object_text(
                seq![
                    ("href"@, json_string(
                        "/api/resolve?handle="@ + crate::web::url_encoded(
                            vstd::utf8::encode_utf8(handle),
                        ),
                    )),
                    ("rel"@, json_string("urn:pan:card"@)),
                    ("type"@, json_string("application/json"@)),
                ],
            ) + seq![']']),
            ("properties"@, object_text(seq![("urn:pan:binding"@, opt_text(bind_method))])),
            ("subject"@, json_string("acct:"@ + handle)),
        ],
    )
}

/// The WebFinger document for a resolved handle: its `acct:` subject, its
/// binding method, and a link to its card.
pub fn webfinger_jrd(handle: &str, bind_method: &Option<String>) -> (v: JsonValue)
    ensures
        v.wf(),
        json_text(v) == jrd_text(handle@, *bind_method),
{
    let mut href: Vec<char> = Vec::new();
    append_str(&mut href, "/api/resolve?handle=");
    let enc = urlencode(handle);
    append_str(&mut href, enc.as_str());
    let mut link: Vec<(String, JsonValue)> = Vec::new();
    link.push(member("href", JsonValue::Str(string_of(&href))));
    link.push(member("rel", json_str_value("urn:pan:card")));
    link.push(member("type", json_str_value("application/json")));
    let mut props: Vec<(String, JsonValue)> = Vec::new();
    props.push(member("urn:pan:binding", json_opt_str(bind_method)));
    let mut subject: Vec<char> = Vec::new();
    append_str(&mut subject, "acct:");
    append_str(&mut subject, handle);
    let ghost link_seq = link@;
    let ghost props_seq = props@;
    proof {
        reveal_strlit("href");
        reveal_strlit("rel");
        reveal_strlit("type");
        reveal_with_fuel(text_lt, 2);
        assert(text_lt(link@[0].0@, link@[1].0@));
        assert(text_lt(link@[1].0@, link@[2].0@));
        lemma_ascending_object(link);
        lemma_ascending_object(props);
    }
    let link_obj = JsonValue::Object(link);
    let props_obj = JsonValue::Object(props);
    let mut links: Vec<JsonValue> = Vec::new();
    links.push(link_obj);
    let mut ms: Vec<(String, JsonValue)> = Vec::new();
    ms.push(member("links", JsonValue::Array(links)));
    ms.push(member("properties", props_obj));
    ms.push(member("subject", JsonValue::Str(string_of(&subject))));
    proof {
        reveal_strlit("links");
        reveal_strlit("properties");
        reveal_strlit("subject");
        reveal_with_fuel(text_lt, 2);
        assert(text_lt(ms@[0].0@, ms@[1].0@));
        assert(text_lt(ms@[1].0@, ms@[2].0@));
        assert(crate::json::well_formed(links@[0]));
        assert(crate::json::items_well_formed(links@)) by {
            reveal_with_fuel(crate::json::items_well_formed, 2);
            assert(links@.drop_last() =~= Seq::<JsonValue>::empty());
        }
        assert(crate::json::items_text(links@) == json_text(links@[0]));
        lemma_ascending_object(ms);
        assert(member_texts(link_seq) =~= seq![
            ("href"@, json_string(
                "/api/resolve?handle="@ + url_encoded(vstd::utf8::encode_utf8(handle@)),
            )),
            ("rel"@, json_string("urn:pan:card"@)),
            ("type"@, json_string("application/json"@)),
        ]);
        assert(member_texts(props_seq) =~= seq![("urn:pan:binding"@, opt_text(*bind_method))]);
        assert(member_texts(ms@) =~= seq![
            ("links"@, seq!['['] + object_text(member_texts(link_seq)) + seq![']']),
            ("properties"@, object_text(member_texts(props_seq))),
            ("subject"@, json_string("acct:"@ + handle@)),
        ]);
    }
    JsonValue::Object(ms)
}

// ---------------------------------------------------------------------------
// Documents

/// The HTML page that frames the rendered protocol specification.
pub open spec fn spec_page_text(md: Seq<char>) -> Seq<char> {
    spec_page_head() + markdown_html(md) + spec_page_tail()
}

pub open spec fn spec_page_head() -> Seq<char> {
    "<!doctype html><html lang=\"en\"><head><meta charset=\"utf-8\">\n<meta name=\"viewport\" content=\"width=device-width, initial-scale=1\">\n<title>Personal Agent Naming (PAN) · Agent Catalog</title>\n<style>\n  body { background:#0a0e14; color:#e5edf7; font-family:Inter,system-ui,sans-serif;\n         line-height:1.65; margin:0; }\n  main { max-width:760px; margin:0 auto; padding:2.5rem 1.5rem 5rem; }\n  a { color:#d9a441; } h1,h2,h3 { letter-spacing:-.01em; }\n  h1 { font-size:2rem; } h2 { margin-top:2.2rem; border-bottom:1px solid #1e2937; padding-bottom:.3rem; }\n  code { background:#111722; border:1px solid #1e2937; border-radius:4px; padding:.08em .35em;\n          font-family:\"JetBrains Mono\",ui-monospace,monospace; font-size:.85em; }\n  pre { background:#111722; border:1px solid #1e2937; border-radius:8px; padding:.9rem 1rem;\n         overflow-x:auto; } pre code { background:none; border:none; padding:0; }\n  table { border-collapse:collapse; width:100%; font-size:.9rem; }\n  th,td { border:1px solid #1e2937; padding:.45rem .6rem; text-align:left; }\n  blockquote { border-left:3px solid #d9a441; margin:0; padding:.1rem 1rem; color:#8695a8; }\n  .top { font-size:.85rem; } hr { border:none; border-top:1px solid #1e2937; }\n</style></head><body><main>\n<p class=\"top\"><a href=\"/\">← look up a handle</a> · <a href=\"/spec.markdown\">raw markdown</a></p>\n"@
}

pub open spec fn spec_page_tail() -> Seq<char> {
    "\n</main></body></html>"@
}

/// The protocol specification rendered as a page: Markdown to HTML, framed
/// by the catalog's styling.
pub fn spec_page_html(md: &str) -> (page: String)
    ensures
        page@ == spec_page_text(md@),
{
    let body = render_markdown(md);
    let mut v: Vec<char> = Vec::new();
    append_str(
        &mut v,
        "<!doctype html><html lang=\"en\"><head><meta charset=\"utf-8\">\n<meta name=\"viewport\" content=\"width=device-width, initial-scale=1\">\n<title>Personal Agent Naming (PAN) · Agent Catalog</title>\n<style>\n  body { background:#0a0e14; color:#e5edf7; font-family:Inter,system-ui,sans-serif;\n         line-height:1.65; margin:0; }\n  main { max-width:760px; margin:0 auto; padding:2.5rem 1.5rem 5rem; }\n  a { color:#d9a441; } h1,h2,h3 { letter-spacing:-.01em; }\n  h1 { font-size:2rem; } h2 { margin-top:2.2rem; border-bottom:1px solid #1e2937; padding-bottom:.3rem; }\n  code { background:#111722; border:1px solid #1e2937; border-radius:4px; padding:.08em .35em;\n          font-family:\"JetBrains Mono\",ui-monospace,monospace; font-size:.85em; }\n  pre { background:#111722; border:1px solid #1e2937; border-radius:8px; padding:.9rem 1rem;\n         overflow-x:auto; } pre code { background:none; border:none; padding:0; }\n  table { border-collapse:collapse; width:100%; font-size:.9rem; }\n  th,td { border:1px solid #1e2937; padding:.45rem .6rem; text-align:left; }\n  blockquote { border-left:3px solid #d9a441; margin:0; padding:.1rem 1rem; color:#8695a8; }\n  .top { font-size:.85rem; } hr { border:none; border-top:1px solid #1e2937; }\n</style></head><body><main>\n<p class=\"top\"><a href=\"/\">← look up a handle</a> · <a href=\"/spec.markdown\">raw markdown</a></p>\n",
    );
    append_str(&mut v, body.as_str());
    append_str(&mut v, "\n</main></body></html>");
    string_of(&v)
}

/// The verification email for a code: `(subject, text)`.
pub fn verification_email(code: &str) -> (r: (String, String))
    ensures
        r.0@ == code@ + " is your Agent Catalog verification code"@,
        r.1@ == "Your verification code is "@ + code@
            + ". It expires in 15 minutes.\n\nIf you didn't request this, ignore this email."@,
{
    let mut subject: Vec<char> = Vec::new();
    append_str(&mut subject, code);
    append_str(&mut subject, " is your Agent Catalog verification code");
    let mut text: Vec<char> = Vec::new();
    append_str(&mut text, "Your verification code is ");
    append_str(&mut text, code);
    append_str(
        &mut text,
        ". It expires in 15 minutes.\n\nIf you didn't request this, ignore this email.",
    );
    (string_of(&subject), string_of(&text))
}

// ---------------------------------------------------------------------------
// Service settings and small documents

/// The port the service listens on unless `PORT` says otherwise.
pub const DEFAULT_PORT: u16 = 8080;

/// The port a `PORT` value gives: its number where it parses as a `u16`
/// (an optional `+`, then digits, at most 65535), else the default.
pub fn listen_port(v: Option<&str>) -> (port: u16)
    ensures
        port == match v {
            Some(t) => match crate::numeric::u64_parsed(t@) {
                Some(n) => if n <= 65535 {
                    n as u16
                } else {
                    DEFAULT_PORT
                },
                None => DEFAULT_PORT,
            },
            None => DEFAULT_PORT,
        },
{
    match v {
        Some(t) => match crate::numeric::parse_u64(t) {
            Some(n) => if n <= 65535 {
                n as u16
            } else {
                DEFAULT_PORT
            },
            None => DEFAULT_PORT,
        },
        None => DEFAULT_PORT,
    }
}

/// The liveness answer: `{"ok": true, "version": <version>}`.
pub fn health_body(version: &str) -> (v: JsonValue)
    ensures
        v.wf(),
        json_text(v) == object_text(
            seq![("ok"@, seq!['t', 'r', 'u', 'e']), ("version"@, json_string(version@))],
        ),
{
    let mut ms: Vec<(String, JsonValue)> = Vec::new();
    ms.push(member("ok", JsonValue::Bool(true)));
    ms.push(member("version", json_str_value(version)));
    proof {
        reveal_strlit("ok");
        reveal_strlit("version");
        reveal_with_fuel(text_lt, 2);
        assert(text_lt(ms@[0].0@, ms@[1].0@));
        lemma_ascending_object(ms);
        assert(member_texts(ms@) =~= seq![
            ("ok"@, seq!['t', 'r', 'u', 'e']),
            ("version"@, json_string(version@)),
        ]);
    }
    JsonValue::Object(ms)
}

/// The sender of verification emails unless `RESEND_FROM` names one.
pub open spec fn default_sender() -> Seq<char> {
    "onboarding@resend.dev"@
}

/// The request body for the email provider: sender, recipient, and the
/// verification email's subject and text.
pub open spec fn email_request_text(from: Option<&str>, email: Seq<char>, code: Seq<char>) -> Seq<
    char,
> {
    let sender = match from {
        Some(f) => f@,
        None => default_sender(),
    };
    object_text(
        seq![
            ("from"@, json_string(sender)),
            ("subject"@, json_string(code + " is your Agent Catalog verification code"@)),
            ("text"@, json_string(
                "Your verification code is "@ + code
                    + ". It expires in 15 minutes.\n\nIf you didn't request this, ignore this email."@,
            )),
            ("to"@, seq!['['] + json_string(email) + seq![']']),
        ],
    )
}

/// The email provider request that delivers a verification code.
pub fn email_request(from: Option<&str>, email: &str, code: &str) -> (v: JsonValue)
    ensures
        v.wf(),
        json_text(v) == email_request_text(from, email@, code@),
{
    let (subject, text) = verification_email(code);
    let sender = match from {
        Some(f) => json_str_value(f),
        None => json_str_value("onboarding@resend.dev"),
    };
    let mut ms: Vec<(String, JsonValue)> = Vec::new();
    ms.push(member("from", sender));
    ms.push(member("subject", JsonValue::Str(subject)));
    ms.push(member("text", JsonValue::Str(text)));
    ms.push(member("to", crate::json::array_of_one(json_str_value(email))));
    proof {
        reveal_strlit("from");
        reveal_strlit("subject");
        reveal_strlit("text");
        reveal_strlit("to");
        reveal_with_fuel(text_lt, 2);
        assert(text_lt(ms@[0].0@, ms@[1].0@));
        assert(text_lt(ms@[1].0@, ms@[2].0@));
        assert(text_lt(ms@[2].0@, ms@[3].0@));
        lemma_ascending_object(ms);
        let sender_text = match from {
            Some(f) => f@,
            None => default_sender(),
        };
        assert(member_texts(ms@) =~= seq![
            ("from"@, json_string(sender_text)),
            ("subject"@, json_string(code@ + " is your Agent Catalog verification code"@)),
            ("text"@, json_string(
                "Your verification code is "@ + code@
                    + ". It expires in 15 minutes.\n\nIf you didn't request this, ignore this email."@,
            )),
            ("to"@, seq!['['] + json_string(email@) + seq![']']),
        ]);
    }
    JsonValue::Object(ms)
}

/// How a verification code went out: to the server console when no email
/// provider is configured, else "email" when the provider answered with a
/// success status and "failed" otherwise.
pub fn delivery_label(provider_configured: bool, provider_status: Option<u16>) -> (d: String)
    ensures
        !provider_configured ==> d@ == "console"@,
        provider_configured ==> d@ == match provider_status {
            Some(st) => if 200 <= st < 300 {
                "email"@
            } else {
                "failed"@
            },
            None => "failed"@,
        },
{
    if !provider_configured {
        return owned("console");
    }
    match provider_status {
        Some(st) => if 200 <= st && st < 300 {
            owned("email")
        } else {
            owned("failed")
        },
        None => owned("failed"),
    }
}

} // verus!
