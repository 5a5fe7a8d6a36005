//! The registrar's rules: email-anchored handle claims, verification and
//! pairing codes, agent-key pairing and check-in messages, binding rules,
//! and the hash-chained history log.
//!
//! A handle is one globally unique string, `<name>.<email>`. Nobody parses
//! it: resolution is exact-string lookup on its case-folded form. Proving
//! control of the email (a 6-digit code) is what authorizes claims under
//! it. Storage is not done here: these functions decide, from what storage
//! returned, what happens next.

use vstd::prelude::*;
use crate::codec::{
    base64_decoded, base64_encoded, decode_base64, encode_base64, format_rfc3339,
    random_uuid_bytes, rfc3339_text, sha256, sha256_digest, uuid_hyphenated, uuid_string,
    EARLIEST_MICROS, LATEST_MICROS,
};
use crate::json::{
    canonical_json, json_string, json_text, key_sort, lemma_key_sort,
    members_text, object_text, rendered_members, JsonValue,
};
use crate::model::AgentProfile;
use crate::numeric::{push_signed_decimal, push_six_digits, signed_decimal, six_digits};
use crate::order::{key_sorted, keys_distinct, lemma_key_sorted_unique, same_elements, text_lt};
use crate::text::{
    any_control, any_white_space, append_chars, append_str, chars_of, contains_char, find_char,
    has_control, has_white_space, lowercased, owned, slice_chars, string_of, to_lowercase,
    to_uppercase, trim_str, trimmed, uppercased, utf8_len, utf8_longer_than, white_space,
    is_ascii_text, ascii_lowered, ascii_uppered, ascii_lower_char, ascii_upper_char,
};

verus! {

/// Longest UTF-8 length of an email address, in bytes.
pub const MAX_EMAIL_BYTES: usize = 254;

/// Longest a handle's name part may be, in characters.
pub const MAX_NAME_CHARS: usize = 64;

/// Longest operator display name or declared profile field, in characters.
pub const MAX_LABEL_CHARS: usize = 80;

/// How long a released handle stays unclaimable.
pub const COOLING_OFF_DAYS: i64 = 90;

/// Lifetime of an emailed verification code.
pub const CODE_TTL_MIN: i64 = 15;

/// Lifetime of a console session (8 hours).
pub const SESSION_TTL_MIN: i64 = 480;

/// Codes that may be issued to one email within an hour.
pub const MAX_CODES_PER_HOUR: i64 = 5;

/// Attempts allowed against one verification code.
pub const MAX_CODE_ATTEMPTS: i32 = 5;

/// Lifetime of a pairing code, in microseconds (10 minutes).
pub const PAIRING_TTL_MICROS: i64 = 600_000_000;

/// How far a check-in timestamp may lie from the registrar's clock, in
/// seconds.
pub const CHECKIN_WINDOW_SECS: i64 = 300;

/// Why a registrar action was refused.
pub enum RegistrarError {
    /// The request itself is malformed or not acceptable.
    Invalid(String),
    /// The handle is held by someone else or is cooling off.
    Taken(String),
    /// The session or ownership does not authorize the action.
    Unauthorized,
    /// Storage failed; the text is the storage layer's message.
    Db(String),
}

/// The error is `Invalid` with exactly the message `msg`.
pub open spec fn invalid_with(e: RegistrarError, msg: Seq<char>) -> bool {
    e matches RegistrarError::Invalid(m) && m@ == msg
}

/// The error is `Taken` with exactly the message `msg`.
pub open spec fn taken_with(e: RegistrarError, msg: Seq<char>) -> bool {
    e matches RegistrarError::Taken(m) && m@ == msg
}

impl RegistrarError {
    /// The error's text, as it is shown to users.
    pub open spec fn message_text(&self) -> Seq<char> {
        match self {
            RegistrarError::Invalid(m) => m@,
            RegistrarError::Taken(m) => m@,
            RegistrarError::Unauthorized => "not authorized"@,
            RegistrarError::Db(e) => "storage error: "@ + e@,
        }
    }

    /// The error's text, as it is shown to users.
    pub fn message(&self) -> (s: String)
        ensures
            s@ == self.message_text(),
    {
        match self {
            RegistrarError::Invalid(m) => m.clone(),
            RegistrarError::Taken(m) => m.clone(),
            RegistrarError::Unauthorized => owned("not authorized"),
            RegistrarError::Db(e) => {
                let mut v: Vec<char> = Vec::new();
                append_str(&mut v, "storage error: ");
                append_str(&mut v, e.as_str());
                string_of(&v)
            },
        }
    }
}

fn invalid(msg: &str) -> (e: RegistrarError)
    ensures
        invalid_with(e, msg@),
{
    RegistrarError::Invalid(owned(msg))
}

fn taken(msg: &str) -> (e: RegistrarError)
    ensures
        taken_with(e, msg@),
{
    RegistrarError::Taken(owned(msg))
}

// ---------------------------------------------------------------------------
// Emails and names

pub open spec fn bad_email_message() -> Seq<char> {
    "that doesn't look like an email address"@
}

pub open spec fn name_length_message() -> Seq<char> {
    "name must be 1–64 characters"@
}

pub open spec fn name_chars_message() -> Seq<char> {
    "name can't contain spaces or '@'"@
}

pub open spec fn operator_name_message() -> Seq<char> {
    "operator display name must be 1-80 characters"@
}

/// `p` is the position of the only '@' in `e`.
pub open spec fn single_at(e: Seq<char>, p: int) -> bool {
    &&& 0 <= p < e.len()
    &&& e[p] == '@'
    &&& forall|q: int| 0 <= q < e.len() && q != p ==> e[q] != '@'
}

/// The shape the registrar accepts as an email address: exactly one '@',
/// something before it, a '.' somewhere after it, no whitespace, and at
/// most 254 bytes of UTF-8.
pub open spec fn email_shape_ok(e: Seq<char>) -> bool {
    &&& exists|p: int|
        #[trigger] single_at(e, p) && p > 0 && e.subrange(p + 1, e.len() as int).contains('.')
    &&& !has_white_space(e)
    &&& utf8_len(e) <= MAX_EMAIL_BYTES
}

/// The normal form of an email: trimmed, then lowercased.
pub open spec fn normalized_email(email: Seq<char>) -> Seq<char> {
    lowercased(trimmed(email))
}

fn email_shape(e: &Vec<char>) -> (b: bool)
    ensures
        b == email_shape_ok(e@),
{
    let n = e.len();
    match find_char(e, '@') {
        None => {
            assert forall|p: int| !single_at(e@, p) by {
                if single_at(e@, p) {
                    assert(e@.contains('@'));
                }
            }
            false
        },
        Some(p) => {
            let rest = slice_chars(e, p + 1, n);
            if contains_char(&rest, '@') {
                let ghost k = choose|k: int| 0 <= k < rest@.len() && rest@[k] == '@';
                assert forall|q: int| !single_at(e@, q) by {
                    if single_at(e@, q) {
                        assert(e@[p + 1 + k] == '@');
                        assert(e@[p as int] == '@');
                    }
                }
                return false;
            }
            assert forall|q: int| single_at(e@, q) implies q == p by {
                assert(e@[p as int] == '@');
            }
            assert(single_at(e@, p as int)) by {
                assert forall|q: int| 0 <= q < e@.len() && q != p implies e@[q] != '@' by {
                    if q > p {
                        assert(rest@[q - p - 1] == e@[q]);
                    }
                }
            }
            if p == 0 {
                return false;
            }
            if !contains_char(&rest, '.') {
                return false;
            }
            if any_white_space(e) {
                return false;
            }
            if utf8_longer_than(e, MAX_EMAIL_BYTES) {
                return false;
            }
            true
        },
    }
}

/// Trims and lowercases an email address, and accepts it only in the shape
/// of `email_shape_ok`.
pub fn normalize_email(email: &str) -> (r: Result<String, RegistrarError>)
    ensures
        match r {
            Ok(e) => e@ == normalized_email(email@) && email_shape_ok(e@),
            Err(err) => !email_shape_ok(normalized_email(email@)) && invalid_with(
                err,
                bad_email_message(),
            ),
        },
{
    let t = trim_str(email);
    let ts = string_of(&t);
    let e = to_lowercase(ts.as_str());
    let ev = chars_of(e.as_str());
    if email_shape(&ev) {
        Ok(e)
    } else {
        Err(invalid("that doesn't look like an email address"))
    }
}

/// Normalizing an accepted ASCII email again gives it back: the normal
/// form is stable, so an anchor stored in normal form matches itself.
pub proof fn law_normalized_email_is_stable(email: Seq<char>)
    requires
        is_ascii_text(email),
        email_shape_ok(normalized_email(email)),
    ensures
        normalized_email(normalized_email(email)) == normalized_email(email),
{
    let t = trimmed(email);
    crate::text::lemma_trimmed_piece(email);
    let (i, j) = choose|i: int, j: int| 0 <= i <= j <= email.len() && t == email.subrange(i, j);
    assert(is_ascii_text(t)) by {
        assert forall|k: int| 0 <= k < t.len() implies (#[trigger] t[k] as u32) < 128 by {
            assert(t[k] == email[i + k]);
        }
    }
    let n = ascii_lowered(t);
    assert(normalized_email(email) == n);
    assert(is_ascii_text(n)) by {
        assert forall|k: int| 0 <= k < n.len() implies (#[trigger] n[k] as u32) < 128 by {
            assert(n[k] == ascii_lower_char(t[k]));
        }
    }
    let p = choose|p: int|
        #[trigger] single_at(n, p) && p > 0 && n.subrange(p + 1, n.len() as int).contains('.');
    assert(n.len() > 0);
    assert(!white_space(n[0])) by {
        if white_space(n[0]) {
            assert(has_white_space(n));
        }
    }
    assert(!white_space(n[n.len() - 1])) by {
        if white_space(n[n.len() - 1]) {
            assert(has_white_space(n));
        }
    }
    assert(trimmed(n) == n);
    crate::text::lemma_ascii_lowered_idempotent(t);
}

/// Why a (trimmed) name is refused, if it is: `Some(true)` for its length,
/// `Some(false)` for its characters.
pub open spec fn name_refusal(n: Seq<char>) -> Option<bool> {
    if n.len() == 0 || n.len() > MAX_NAME_CHARS {
        Some(true)
    } else if has_white_space(n) || n.contains('@') || has_control(n) {
        Some(false)
    } else {
        None
    }
}

/// Trims a handle's name part and accepts it when it is 1 to 64
/// characters long and holds no whitespace, no '@' and no control
/// character. Dots are allowed.
pub fn validate_name(name: &str) -> (r: Result<String, RegistrarError>)
    ensures
        match name_refusal(trimmed(name@)) {
            None => r matches Ok(n) && n@ == trimmed(name@),
            Some(true) => r matches Err(e) && invalid_with(e, name_length_message()),
            Some(false) => r matches Err(e) && invalid_with(e, name_chars_message()),
        },
{
    let n = trim_str(name);
    if n.len() == 0 || n.len() > MAX_NAME_CHARS {
        return Err(invalid("name must be 1–64 characters"));
    }
    if any_white_space(&n) || contains_char(&n, '@') || any_control(&n) {
        return Err(invalid("name can't contain spaces or '@'"));
    }
    Ok(string_of(&n))
}

/// Trims an operator display name and accepts it when it is 1 to 80
/// characters long.
pub fn validate_operator_name(display_name: &str) -> (r: Result<String, RegistrarError>)
    ensures
        match r {
            Ok(n) => n@ == trimmed(display_name@) && 0 < n@.len() <= MAX_LABEL_CHARS,
            Err(e) => !(0 < trimmed(display_name@).len() <= MAX_LABEL_CHARS) && invalid_with(
                e,
                operator_name_message(),
            ),
        },
{
    let n = trim_str(display_name);
    if n.len() == 0 || n.len() > MAX_LABEL_CHARS {
        return Err(invalid("operator display name must be 1-80 characters"));
    }
    Ok(string_of(&n))
}

// ---------------------------------------------------------------------------
// Handles

/// The handle `<name>.<email>`.
pub open spec fn handle_text(name: Seq<char>, email: Seq<char>) -> Seq<char> {
    name + seq!['.'] + email
}

/// Composes the handle `<name>.<email>`.
pub fn compose_handle(name: &str, email: &str) -> (h: String)
    ensures
        h@ == handle_text(name@, email@),
{
    let mut v: Vec<char> = Vec::new();
    append_str(&mut v, name);
    v.push('.');
    append_str(&mut v, email);
    assert(v@ =~= handle_text(name@, email@));
    string_of(&v)
}

/// The case-folded key under which a handle is unique and looked up.
pub fn handle_key(handle: &str) -> (k: String)
    ensures
        k@ == lowercased(handle@),
{
    to_lowercase(handle)
}

/// The key a resolution request looks up: the requested text with leading
/// and trailing spaces removed (U+0020 only, as the store's `trim` does;
/// tabs and newlines stay and so find nothing), then case-folded.
pub fn lookup_key(requested: &str) -> (k: String)
    ensures
        k@ == lowercased(crate::text::space_trimmed(requested@)),
{
    let v = chars_of(requested);
    let t = crate::text::trim_spaces(&v);
    let ts = string_of(&t);
    to_lowercase(ts.as_str())
}

/// Validates the name and composes the handle to claim under a verified
/// email, with its case-folded key: `(handle, key)`.
pub fn claim_handle(email: &str, name: &str) -> (r: Result<(String, String), RegistrarError>)
    ensures
        match name_refusal(trimmed(name@)) {
            None => r matches Ok((h, k)) && h@ == handle_text(trimmed(name@), email@) && k@
                == lowercased(h@),
            Some(true) => r matches Err(e) && invalid_with(e, name_length_message()),
            Some(false) => r matches Err(e) && invalid_with(e, name_chars_message()),
        },
{
    let n = validate_name(name)?;
    let h = compose_handle(n.as_str(), email);
    let k = handle_key(h.as_str());
    Ok((h, k))
}

/// The name a handle was claimed with: the handle without its trailing
/// `.<email>` (the whole handle when it does not end so). Dots inside the
/// name stay: the handle is not split, its known anchor is removed.
pub open spec fn claimed_name_of(handle: Seq<char>, email: Seq<char>) -> Seq<char> {
    let cut = handle.len() - email.len() - 1;
    if cut >= 0 && handle[cut] == '.' && handle.skip(cut + 1) == email {
        handle.take(cut)
    } else {
        handle
    }
}

/// The name a handle was claimed with under `email`, which pairing gives the
/// agent record as its display name.
pub fn claimed_name(handle: &str, email: &str) -> (n: String)
    ensures
        n@ == claimed_name_of(handle@, email@),
{
    let h = chars_of(handle);
    let e = chars_of(email);
    if h.len() > e.len() {
        let cut: usize = h.len() - e.len() - 1;
        if h[cut] == '.' {
            let tail = slice_chars(&h, cut + 1, h.len());
            assert(tail@ =~= h@.skip(cut + 1));
            if crate::text::chars_eq(&tail, &e) {
                let t = slice_chars(&h, 0, cut);
                assert(t@ =~= h@.take(cut as int));
                return string_of(&t);
            }
        }
    }
    string_of(&h)
}

/// Taking the anchor off a handle composed from a name and that anchor gives
/// the name back, whatever the name holds (dots included).
pub proof fn law_claimed_name_round_trip(name: Seq<char>, email: Seq<char>)
    ensures
        claimed_name_of(handle_text(name, email), email) == name,
{
    let h = handle_text(name, email);
    let cut = h.len() - email.len() - 1;
    assert(cut == name.len());
    assert(h[cut] == '.');
    assert(h.skip(cut + 1) =~= email);
    assert(h.take(cut) =~= name);
}

/// Validating a name that validation produced gives it back unchanged.
pub proof fn law_validated_name_is_stable(name: Seq<char>)
    requires
        name_refusal(trimmed(name)) is None,
    ensures
        trimmed(trimmed(name)) == trimmed(name),
        name_refusal(trimmed(trimmed(name))) is None,
{
    crate::text::lemma_trim_idempotent(name);
}

/// A claimed handle, looked up exactly as the claim returned it, is found:
/// the key a resolution looks up for it is the key its claim stored.
pub proof fn law_claimed_handle_resolves(name: Seq<char>, email: Seq<char>)
    requires
        name_refusal(trimmed(name)) is None,
        email_shape_ok(email),
    ensures
        lowercased(crate::text::space_trimmed(handle_text(trimmed(name), email))) == lowercased(
            handle_text(trimmed(name), email),
        ),
{
    let n = trimmed(name);
    let h = handle_text(n, email);
    assert(!white_space(n[0])) by {
        if white_space(n[0]) {
            assert(has_white_space(n));
        }
    }
    let p = choose|p: int|
        #[trigger] single_at(email, p) && p > 0 && email.subrange(p + 1, email.len() as int).contains(
            '.',
        );
    assert(email.len() > 0);
    let last = email.len() - 1;
    assert(!white_space(email[last])) by {
        if white_space(email[last]) {
            assert(has_white_space(email));
        }
    }
    assert(h[0] == n[0]);
    assert(h.last() == email[last]);
    assert(h[0] != ' ');
    assert(h.last() != ' ');
    assert(crate::text::space_trimmed(h) == h);
}

/// Handles that differ only in the case of ASCII letters share one key:
/// once one is claimed the other is taken, and looking up either finds it.
pub proof fn law_key_ignores_ascii_case(a: Seq<char>, b: Seq<char>)
    requires
        is_ascii_text(a),
        is_ascii_text(b),
        ascii_lowered(a) == ascii_lowered(b),
    ensures
        lowercased(a) == lowercased(b),
{
}

// ---------------------------------------------------------------------------
// Verification codes and sessions

pub open spec fn rate_limit_message() -> Seq<char> {
    "too many codes requested — try again in an hour"@
}

pub open spec fn wrong_code_message() -> Seq<char> {
    "wrong or expired code"@
}

/// Whether another code may be issued to an email that was sent `recent`
/// codes within the last hour.
pub fn code_issue_allowed(recent: i64) -> (r: Result<(), RegistrarError>)
    ensures
        r is Ok <==> recent < MAX_CODES_PER_HOUR,
        r matches Err(e) ==> invalid_with(e, rate_limit_message()),
{
    if recent >= MAX_CODES_PER_HOUR {
        Err(invalid("too many codes requested — try again in an hour"))
    } else {
        Ok(())
    }
}

/// The value behind a six-digit code: the first four bytes read as a
/// little-endian `u32`, modulo one million.
pub open spec fn six_digit_value(b: Seq<u8>) -> nat {
    ((b[0] as nat) + 256 * (b[1] as nat) + 65536 * (b[2] as nat) + 16777216 * (b[3] as nat))
        % 1_000_000
}

/// The six-digit verification code drawn from sixteen random bytes.
pub fn six_digit_code_from(b: [u8; 16]) -> (s: String)
    ensures
        s@ == six_digits(six_digit_value(b@)),
{
    let n: u64 = (b[0] as u64) + 256 * (b[1] as u64) + 65536 * (b[2] as u64) + 16777216 * (
    b[3] as u64);
    let v = n % 1_000_000;
    let mut out: Vec<char> = Vec::new();
    push_six_digits(v, &mut out);
    assert(out@ =~= six_digits(six_digit_value(b@)));
    string_of(&out)
}

/// A fresh random six-digit verification code.
pub fn six_digit_code() -> (s: String)
    ensures
        exists|v: nat| v < 1_000_000 && s@ == six_digits(v),
{
    let b = random_uuid_bytes();
    let s = six_digit_code_from(b);
    assert(six_digit_value(b@) < 1_000_000);
    s
}

/// Whether the newest live code for an email matches the one submitted
/// (compared after trimming the submission).
pub fn code_accepted(stored: Option<&str>, submitted: &str) -> (r: Result<(), RegistrarError>)
    ensures
        r is Ok <==> (stored matches Some(c) && c@ == trimmed(submitted@)),
        r matches Err(e) ==> invalid_with(e, wrong_code_message()),
{
    match stored {
        Some(expected) => {
            let a = chars_of(expected);
            let b = trim_str(submitted);
            if crate::text::chars_eq(&a, &b) {
                Ok(())
            } else {
                Err(invalid("wrong or expired code"))
            }
        },
        None => Err(invalid("wrong or expired code")),
    }
}

// ---------------------------------------------------------------------------
// Session provenance

/// The provenance of a session: `email` for one opened by a code sent to
/// the address itself, `delegated:<partner>` for one a partner vouched for.
pub open spec fn provenance_text(partner: Option<Seq<char>>) -> Seq<char> {
    match partner {
        None => "email"@,
        Some(p) => "delegated:"@ + p,
    }
}

/// Whether a provenance names a partner's attestation.
pub open spec fn is_delegated(via: Seq<char>) -> bool {
    via.len() >= 10 && via.take(10) == "delegated:"@
}

/// The provenance of a session opened directly (`None`) or on a partner's
/// word (`Some(partner)`).
pub fn session_provenance(partner: Option<&str>) -> (via: String)
    ensures
        match partner {
            Some(p) => via@ == provenance_text(Some(p@)),
            None => via@ == provenance_text(None),
        },
{
    match partner {
        None => owned("email"),
        Some(p) => {
            let mut v = chars_of("delegated:");
            append_str(&mut v, p);
            string_of(&v)
        },
    }
}

/// Whether a session's provenance is a partner's attestation.
pub fn delegated(via: &str) -> (r: bool)
    ensures
        r == is_delegated(via@),
{
    let v = chars_of(via);
    if v.len() < 10 {
        return false;
    }
    let head = slice_chars(&v, 0, 10);
    let want = chars_of("delegated:");
    assert(head@ =~= v@.take(10));
    crate::text::chars_eq(&head, &want)
}

/// A directly opened session is never taken for a delegated one, and a
/// partner's session always is, whatever the partner is called.
pub proof fn law_provenance_tells_delegation(partner: Seq<char>)
    ensures
        !is_delegated(provenance_text(None)),
        is_delegated(provenance_text(Some(partner))),
{
    reveal_strlit("email");
    reveal_strlit("delegated:");
    assert(("delegated:"@ + partner).take(10) =~= "delegated:"@);
}

/// The email and provenance of a live session, or `Unauthorized` when
/// storage found no live session for the token.
pub fn session_owner(found: Option<(String, String)>) -> (r: Result<(String, String), RegistrarError>)
    ensures
        match found {
            Some((e, v)) => r matches Ok((x, y)) && x@ == e@ && y@ == v@,
            None => r matches Err(RegistrarError::Unauthorized),
        },
{
    match found {
        Some((e, v)) => Ok((e, v)),
        None => Err(RegistrarError::Unauthorized),
    }
}

/// The message that refuses a delegated session an action that destroys or
/// moves a handle.
pub open spec fn direct_sign_in_message() -> Seq<char> {
    "releasing a handle needs a direct sign-in: verify your email with a code from this registrar, then try again"@
}

// ---------------------------------------------------------------------------
// Binding rules

pub open spec fn no_listing_message() -> Seq<char> {
    "no such listing"@
}

pub open spec fn key_pairing_message() -> Seq<char> {
    "this agent requires key pairing — proving you received an email doesn't prove you operate it"@
}

pub open spec fn cooling_message() -> Seq<char> {
    "that handle was recently released and is in its cooling-off period"@
}

pub open spec fn taken_message() -> Seq<char> {
    "that handle is taken"@
}

/// Whether a verified email may bind a handle to a listing on email proof
/// alone: only when the listing is a manual submission made by that same
/// email. `listing` is the listing's `(source, owner_email)`, if it exists.
pub fn email_bindable(listing: Option<(String, Option<String>)>, email: &str) -> (r: Result<
    (),
    RegistrarError,
>)
    ensures
        match listing {
            None => r matches Err(e) && invalid_with(e, no_listing_message()),
            Some((source, owner)) => if source@ == "manual"@ {
                if owner matches Some(o) && o@ == email@ {
                    r is Ok
                } else {
                    r matches Err(RegistrarError::Unauthorized)
                }
            } else {
                r matches Err(e) && invalid_with(e, key_pairing_message())
            },
        },
{
    match listing {
        None => Err(invalid("no such listing")),
        Some((source, owner)) => {
            let manual = chars_of("manual");
            let src = chars_of(source.as_str());
            if crate::text::chars_eq(&src, &manual) {
                match owner {
                    Some(o) => {
                        let ov = chars_of(o.as_str());
                        let ev = chars_of(email);
                        if crate::text::chars_eq(&ov, &ev) {
                            Ok(())
                        } else {
                            Err(RegistrarError::Unauthorized)
                        }
                    },
                    None => Err(RegistrarError::Unauthorized),
                }
            } else {
                Err(invalid(
                    "this agent requires key pairing — proving you received an email doesn't prove you operate it",
                ))
            }
        },
    }
}

/// A claim is refused while the handle's key has a release inside the
/// cooling-off window (`recent_releases` counts them).
pub fn cooling_off_check(recent_releases: i64) -> (r: Result<(), RegistrarError>)
    ensures
        r is Ok <==> recent_releases <= 0,
        r matches Err(e) ==> taken_with(e, cooling_message()),
{
    if recent_releases > 0 {
        Err(taken("that handle was recently released and is in its cooling-off period"))
    } else {
        Ok(())
    }
}

/// The refusal for a handle whose key is already held.
pub fn handle_taken() -> (e: RegistrarError)
    ensures
        taken_with(e, taken_message()),
{
    taken("that handle is taken")
}

/// The binding method recorded for a handle attached (or not) on email
/// proof: "email-submitter" when bound to a listing, none when detached.
pub fn email_bind_method(listing_id: Option<[u8; 16]>) -> (m: Option<String>)
    ensures
        match listing_id {
            Some(_) => m matches Some(s) && s@ == "email-submitter"@,
            None => m is None,
        },
{
    match listing_id {
        Some(_) => Some(owned("email-submitter")),
        None => None,
    }
}

/// An update that must touch the caller's own active handle: touching no
/// row means the caller does not own it (or it is released).
pub fn owned_update(rows_affected: u64) -> (r: Result<(), RegistrarError>)
    ensures
        r is Ok <==> rows_affected > 0,
        r is Err ==> r matches Err(RegistrarError::Unauthorized),
{
    if rows_affected == 0 {
        Err(RegistrarError::Unauthorized)
    } else {
        Ok(())
    }
}

// ---------------------------------------------------------------------------
// Pairing

pub open spec fn unknown_code_message() -> Seq<char> {
    "unknown, used, or expired pairing code"@
}

pub open spec fn bad_signature_encoding_message() -> Seq<char> {
    "signature is not valid base64"@
}

pub open spec fn bad_agent_key_message() -> Seq<char> {
    "agent_id is not a valid public key"@
}

pub open spec fn signature_mismatch_message() -> Seq<char> {
    "signature does not verify against the agent key"@
}

pub open spec fn checkin_window_message() -> Seq<char> {
    "check-in timestamp outside the accepted window"@
}

/// The symbol for `i < 32` in the pairing alphabet: A-Z and 2-9 without
/// the look-alikes 0, O, 1 and I.
pub open spec fn pairing_symbol(i: int) -> char {
    if i < 8 {
        (('A' as int) + i) as char
    } else if i < 13 {
        (('J' as int) + i - 8) as char
    } else if i < 24 {
        (('P' as int) + i - 13) as char
    } else {
        (('2' as int) + i - 24) as char
    }
}

/// The pairing code `XXX-XXX` drawn from the first six random bytes.
pub open spec fn pairing_code_text(b: Seq<u8>) -> Seq<char> {
    seq![
        pairing_symbol(b[0] as int % 32),
        pairing_symbol(b[1] as int % 32),
        pairing_symbol(b[2] as int % 32),
        '-',
        pairing_symbol(b[3] as int % 32),
        pairing_symbol(b[4] as int % 32),
        pairing_symbol(b[5] as int % 32),
    ]
}

fn symbol(i: u8) -> (c: char)
    requires
        i < 32,
    ensures
        c == pairing_symbol(i as int),
{
    let b: u8 = if i < 8 {
        65 + i
    } else if i < 13 {
        74 + (i - 8)
    } else if i < 24 {
        80 + (i - 13)
    } else {
        50 + (i - 24)
    };
    b as char
}

/// The pairing code drawn from sixteen random bytes.
pub fn pairing_code_from(b: [u8; 16]) -> (s: String)
    ensures
        s@ == pairing_code_text(b@),
{
    let mut v: Vec<char> = Vec::new();
    v.push(symbol(b[0] % 32));
    v.push(symbol(b[1] % 32));
    v.push(symbol(b[2] % 32));
    v.push('-');
    v.push(symbol(b[3] % 32));
    v.push(symbol(b[4] % 32));
    v.push(symbol(b[5] % 32));
    assert(v@ =~= pairing_code_text(b@));
    string_of(&v)
}

/// A fresh random pairing code, and its expiry ten minutes after `now`
/// (microseconds since the epoch).
pub fn pairing_code(now: i64) -> (r: (String, i64))
    requires
        now <= i64::MAX - PAIRING_TTL_MICROS,
    ensures
        exists|b: Seq<u8>| b.len() == 16 && r.0@ == pairing_code_text(b),
        r.1 == now + PAIRING_TTL_MICROS,
{
    let b = random_uuid_bytes();
    (pairing_code_from(b), now + PAIRING_TTL_MICROS)
}

/// The pairing step that needs the caller to own the handle: the stored
/// display form of the handle, or `Unauthorized`.
pub fn pairing_owner(owned_handle: Option<String>) -> (r: Result<String, RegistrarError>)
    ensures
        match owned_handle {
            Some(h) => r matches Ok(x) && x@ == h@,
            None => r matches Err(RegistrarError::Unauthorized),
        },
{
    match owned_handle {
        Some(h) => Ok(h),
        None => Err(RegistrarError::Unauthorized),
    }
}

/// A pairing code as the registrar compares it: trimmed and uppercased.
pub fn normalize_pairing_code(code: &str) -> (c: String)
    ensures
        c@ == uppercased(trimmed(code@)),
{
    let t = trim_str(code);
    let ts = string_of(&t);
    to_uppercase(ts.as_str())
}

proof fn lemma_pairing_symbol(i: int)
    requires
        0 <= i < 32,
    ensures
        ({
            let c = pairing_symbol(i);
            &&& ('A' <= c <= 'Z' || '2' <= c <= '9')
            &&& (c as u32) < 128
            &&& !white_space(c)
            &&& ascii_upper_char(c) == c
            &&& ascii_upper_char(ascii_lower_char(c)) == c
        }),
{
}

/// The code that starting a pairing issues is accepted when its owner
/// relays it, as issued or in lower case, with or without surrounding
/// whitespace: completion trims and upper-cases what it is given, and gets
/// the issued code back.
pub proof fn law_issued_code_accepted(
    b: Seq<u8>,
    front: Seq<char>,
    back: Seq<char>,
    in_lower_case: bool,
)
    requires
        b.len() >= 6,
        forall|i: int| 0 <= i < front.len() ==> white_space(#[trigger] front[i]),
        forall|i: int| 0 <= i < back.len() ==> white_space(#[trigger] back[i]),
    ensures
        ({
            let code = pairing_code_text(b);
            let typed = if in_lower_case {
                ascii_lowered(code)
            } else {
                code
            };
            uppercased(trimmed(front + typed + back)) == code
        }),
{
    let code = pairing_code_text(b);
    let typed = if in_lower_case {
        ascii_lowered(code)
    } else {
        code
    };
    lemma_pairing_symbol(b[0] as int % 32);
    lemma_pairing_symbol(b[1] as int % 32);
    lemma_pairing_symbol(b[2] as int % 32);
    lemma_pairing_symbol(b[3] as int % 32);
    lemma_pairing_symbol(b[4] as int % 32);
    lemma_pairing_symbol(b[5] as int % 32);
    assert forall|i: int| 0 <= i < 7 implies {
        let c = #[trigger] code[i];
        &&& (c as u32) < 128
        &&& !white_space(c)
        &&& ascii_upper_char(c) == c
        &&& ascii_upper_char(ascii_lower_char(c)) == c
        &&& (ascii_lower_char(c) as u32) < 128
        &&& !white_space(ascii_lower_char(c))
    } by {}
    assert(typed.len() == 7);
    crate::text::lemma_trim_padding(front, typed, back);
    assert(is_ascii_text(typed));
    assert(ascii_uppered(typed) =~= code);
}

/// The canonical string an agent signs to complete pairing:
/// `pan-pair-v1:<code>:<agent-id>`.
pub open spec fn pairing_message_text(code: Seq<char>, agent_id: Seq<char>) -> Seq<char> {
    "pan-pair-v1:"@ + code + ":"@ + agent_id
}

/// The canonical pairing string for a code and agent id as the registrar
/// holds them (code trimmed and upper-cased, agent id trimmed).
pub fn pairing_message(code: &str, agent_id: &str) -> (m: String)
    ensures
        m@ == pairing_message_text(code@, agent_id@),
{
    let mut v: Vec<char> = Vec::new();
    append_str(&mut v, "pan-pair-v1:");
    append_str(&mut v, code);
    append_str(&mut v, ":");
    append_str(&mut v, agent_id);
    assert(v@ =~= pairing_message_text(code@, agent_id@));
    string_of(&v)
}

/// The pairing string fixes the code and the agent id it names (codes hold
/// no ':'), so an agent's signature binds exactly that code to exactly that
/// key.
pub proof fn law_pairing_message_unambiguous(
    code1: Seq<char>,
    agent1: Seq<char>,
    code2: Seq<char>,
    agent2: Seq<char>,
)
    requires
        !code1.contains(':'),
        !code2.contains(':'),
        pairing_message_text(code1, agent1) == pairing_message_text(code2, agent2),
    ensures
        code1 == code2,
        agent1 == agent2,
{
    reveal_strlit("pan-pair-v1:");
    reveal_strlit(":");
    assert(":"@ =~= seq![':']);
    let p = "pan-pair-v1:"@;
    assert(pairing_message_text(code1, agent1) =~= p + (code1 + seq![':'] + agent1));
    assert(pairing_message_text(code2, agent2) =~= p + (code2 + seq![':'] + agent2));
    crate::text::lemma_prefix_cancel(p, code1 + seq![':'] + agent1, code2 + seq![':'] + agent2);
    crate::text::lemma_split_first(code1, agent1, code2, agent2, ':');
}

/// The pairing row storage consumed for a code: `(handle, email)`, or the
/// refusal when the code is unknown, used or expired.
pub fn pairing_claimed(row: Option<(String, String)>) -> (r: Result<(String, String), RegistrarError>)
    ensures
        match row {
            Some((h, e)) => r matches Ok((x, y)) && x@ == h@ && y@ == e@,
            None => r matches Err(e) && invalid_with(e, unknown_code_message()),
        },
{
    match row {
        Some(p) => Ok(p),
        None => Err(invalid("unknown, used, or expired pairing code")),
    }
}

/// The raw signature bytes from their base64 text (trimmed first).
pub fn signature_bytes(signature_b64: &str) -> (r: Result<Vec<u8>, RegistrarError>)
    ensures
        match base64_decoded(trimmed(signature_b64@)) {
            Some(bytes) => r matches Ok(v) && v@ == bytes,
            None => r matches Err(e) && invalid_with(e, bad_signature_encoding_message()),
        },
{
    let t = trim_str(signature_b64);
    let ts = string_of(&t);
    match decode_base64(ts.as_str()) {
        Some(v) => Ok(v),
        None => Err(invalid("signature is not valid base64")),
    }
}

/// The outcome of checking a signature against an agent key: the agent key
/// could not be read (`key_ok` false), the signature did not verify
/// (`verified` false), or the proof holds.
pub fn signature_outcome(key_ok: bool, verified: bool) -> (r: Result<(), RegistrarError>)
    ensures
        !key_ok ==> (r matches Err(e) && invalid_with(e, bad_agent_key_message())),
        key_ok && !verified ==> (r matches Err(e) && invalid_with(
            e,
            signature_mismatch_message(),
        )),
        key_ok && verified ==> r is Ok,
{
    if !key_ok {
        Err(invalid("agent_id is not a valid public key"))
    } else if !verified {
        Err(invalid("signature does not verify against the agent key"))
    } else {
        Ok(())
    }
}

// ---------------------------------------------------------------------------
// Check-in

/// A check-in timestamp is accepted within five minutes of the clock.
pub fn checkin_window(now: i64, ts: i64) -> (r: Result<(), RegistrarError>)
    ensures
        r is Ok <==> (now - ts <= CHECKIN_WINDOW_SECS && ts - now <= CHECKIN_WINDOW_SECS),
        r matches Err(e) ==> invalid_with(e, checkin_window_message()),
{
    let d: i128 = now as i128 - ts as i128;
    if d > 300 || d < -300 {
        Err(invalid("check-in timestamp outside the accepted window"))
    } else {
        Ok(())
    }
}

/// The field as the check-in canonical carries it: its text, or "" when
/// absent.
pub open spec fn field_or_empty(f: Option<String>) -> Seq<char> {
    match f {
        Some(s) => s@,
        None => seq![],
    }
}

/// Whether any profile field was declared.
pub open spec fn declares_profile(p: AgentProfile) -> bool {
    p.kind is Some || p.host is Some || p.platform is Some
}

/// The canonical check-in string an agent signs. Without a profile:
/// `pan-checkin-v1:<ts>:<agent-id>`; with one, newline-joined so that free
/// text cannot create ambiguity: `pan-checkin-v2`, ts, agent id, kind,
/// host, platform.
pub open spec fn checkin_message_text(agent_id: Seq<char>, ts: i64, p: AgentProfile) -> Seq<
    char,
> {
    if declares_profile(p) {
        "pan-checkin-v2"@ + seq!['\n'] + signed_decimal(ts as int) + seq!['\n'] + agent_id + seq![
            '\n',
        ] + field_or_empty(p.kind) + seq!['\n'] + field_or_empty(p.host) + seq!['\n']
            + field_or_empty(p.platform)
    } else {
        "pan-checkin-v1:"@ + signed_decimal(ts as int) + ":"@ + agent_id
    }
}

fn push_field(v: &mut Vec<char>, f: &Option<String>)
    ensures
        final(v)@ == old(v)@ + field_or_empty(*f),
{
    match f {
        Some(s) => append_str(v, s.as_str()),
        None => {
            assert(old(v)@ + field_or_empty(*f) =~= old(v)@);
        },
    }
}

/// The canonical check-in string for a submitted agent id (trimmed first).
pub fn checkin_message(agent_id: &str, ts: i64, profile: &AgentProfile) -> (m: String)
    ensures
        m@ == checkin_message_text(trimmed(agent_id@), ts, *profile),
{
    let a = trim_str(agent_id);
    let mut v: Vec<char> = Vec::new();
    if profile.kind.is_some() || profile.host.is_some() || profile.platform.is_some() {
        append_str(&mut v, "pan-checkin-v2");
        v.push('\n');
        push_signed_decimal(ts, &mut v);
        v.push('\n');
        append_chars(&mut v, &a);
        v.push('\n');
        push_field(&mut v, &profile.kind);
        v.push('\n');
        push_field(&mut v, &profile.host);
        v.push('\n');
        push_field(&mut v, &profile.platform);
    } else {
        append_str(&mut v, "pan-checkin-v1:");
        push_signed_decimal(ts, &mut v);
        append_str(&mut v, ":");
        append_chars(&mut v, &a);
    }
    assert(v@ =~= checkin_message_text(trimmed(agent_id@), ts, *profile));
    string_of(&v)
}

proof fn lemma_decimal_free_of(i: int, c: char)
    requires
        c != '-',
        !crate::numeric::is_ascii_digit(c),
    ensures
        !signed_decimal(i).contains(c),
{
    crate::numeric::lemma_signed_decimal(i, i);
    if signed_decimal(i).contains(c) {
        let k = choose|k: int| 0 <= k < signed_decimal(i).len() && signed_decimal(i)[k] == c;
        assert(signed_decimal(i)[k] == '-' || crate::numeric::is_ascii_digit(signed_decimal(i)[k]));
    }
}

proof fn lemma_checkin_shape(a: Seq<char>, ts: i64, p: AgentProfile)
    ensures
        declares_profile(p) ==> checkin_message_text(a, ts, p) == ("pan-checkin-v2"@ + seq!['\n'])
            + (signed_decimal(ts as int) + seq!['\n'] + (a + seq!['\n'] + (field_or_empty(p.kind)
            + seq!['\n'] + (field_or_empty(p.host) + seq!['\n'] + field_or_empty(p.platform))))),
        !declares_profile(p) ==> checkin_message_text(a, ts, p) == "pan-checkin-v1:"@ + (
        signed_decimal(ts as int) + seq![':'] + a),
        checkin_message_text(a, ts, p)[13] == if declares_profile(p) {
            '2'
        } else {
            '1'
        },
{
    reveal_strlit("pan-checkin-v2");
    reveal_strlit("pan-checkin-v1:");
    reveal_strlit(":");
    let m = checkin_message_text(a, ts, p);
    let d = signed_decimal(ts as int);
    let nl = seq!['\n'];
    if declares_profile(p) {
        assert(m =~= ("pan-checkin-v2"@ + nl) + (d + nl + (a + nl + (field_or_empty(p.kind) + nl + (
        field_or_empty(p.host) + nl + field_or_empty(p.platform))))));
    } else {
        assert(":"@ =~= seq![':']);
        assert(m =~= "pan-checkin-v1:"@ + (d + seq![':'] + a));
    }
}

/// The signed form follows what the agent declared. With none of kind,
/// host and platform it is `pan-checkin-v1:<ts>:<agent>`. With any one of
/// them it is the newline-joined v2 form: it opens with `pan-checkin-v2`
/// and a newline, and each field stands on its own line, an undeclared one
/// as an empty line. So an agent that declares only its platform `f` signs
/// `pan-checkin-v2\n<ts>\n<agent>\n\n\n<f>`, and its platform is covered
/// by the signature.
pub proof fn law_checkin_form_follows_declaration(a: Seq<char>, ts: i64, p: AgentProfile, f: String)
    ensures
        p.kind is None && p.host is None && p.platform is None ==> checkin_message_text(a, ts, p)
            == "pan-checkin-v1:"@ + signed_decimal(ts as int) + seq![':'] + a,
        p.kind is Some || p.host is Some || p.platform is Some ==> checkin_message_text(
            a,
            ts,
            p,
        ).take(15) == "pan-checkin-v2"@ + seq!['\n'],
        p.kind is None && p.host is None && p.platform == Some(f) ==> checkin_message_text(a, ts, p)
            == "pan-checkin-v2"@ + seq!['\n'] + signed_decimal(ts as int) + seq!['\n'] + a + seq![
            '\n',
            '\n',
            '\n',
        ] + f@,
{
    lemma_checkin_shape(a, ts, p);
    reveal_strlit("pan-checkin-v2");
    reveal_strlit("pan-checkin-v1:");
    let m = checkin_message_text(a, ts, p);
    let head = "pan-checkin-v2"@ + seq!['\n'];
    if p.kind is Some || p.host is Some || p.platform is Some {
        assert(head.len() == 15);
        let rest = signed_decimal(ts as int) + seq!['\n'] + (a + seq!['\n'] + (field_or_empty(p.kind)
            + seq!['\n'] + (field_or_empty(p.host) + seq!['\n'] + field_or_empty(p.platform))));
        assert(m == head + rest);
        assert((head + rest).take(15) =~= head);
        if p.kind is None && p.host is None && p.platform == Some(f) {
            assert(m =~= "pan-checkin-v2"@ + seq!['\n'] + signed_decimal(ts as int) + seq!['\n'] + a
                + seq!['\n', '\n', '\n'] + f@);
        }
    } else {
        assert(m =~= "pan-checkin-v1:"@ + signed_decimal(ts as int) + seq![':'] + a);
    }
}

/// The check-in canonical strings are unambiguous: a signed string fixes
/// its version, timestamp and agent id, and for a declared profile each of
/// its fields, as long as the free-text fields that a newline follows hold
/// no newline themselves. A signature over one check-in therefore cannot be
/// replayed as another.
pub proof fn law_checkin_canonical_unambiguous(
    a1: Seq<char>,
    ts1: i64,
    p1: AgentProfile,
    a2: Seq<char>,
    ts2: i64,
    p2: AgentProfile,
)
    requires
        checkin_message_text(a1, ts1, p1) == checkin_message_text(a2, ts2, p2),
        declares_profile(p1) ==> !a1.contains('\n') && !field_or_empty(p1.kind).contains('\n')
            && !field_or_empty(p1.host).contains('\n'),
        declares_profile(p2) ==> !a2.contains('\n') && !field_or_empty(p2.kind).contains('\n')
            && !field_or_empty(p2.host).contains('\n'),
    ensures
        ts1 == ts2,
        a1 == a2,
        declares_profile(p1) == declares_profile(p2),
        declares_profile(p1) ==> field_or_empty(p1.kind) == field_or_empty(p2.kind)
            && field_or_empty(p1.host) == field_or_empty(p2.host) && field_or_empty(p1.platform)
            == field_or_empty(p2.platform),
{
    lemma_checkin_shape(a1, ts1, p1);
    lemma_checkin_shape(a2, ts2, p2);
    assert(declares_profile(p1) == declares_profile(p2));
    crate::numeric::lemma_signed_decimal(ts1 as int, ts2 as int);
    let (d1, d2) = (signed_decimal(ts1 as int), signed_decimal(ts2 as int));
    let nl = seq!['\n'];
    if declares_profile(p1) {
        lemma_decimal_free_of(ts1 as int, '\n');
        lemma_decimal_free_of(ts2 as int, '\n');
        let (k1, k2) = (field_or_empty(p1.kind), field_or_empty(p2.kind));
        let (h1, h2) = (field_or_empty(p1.host), field_or_empty(p2.host));
        let (f1, f2) = (field_or_empty(p1.platform), field_or_empty(p2.platform));
        let (t1, t2) = (h1 + nl + f1, h2 + nl + f2);
        let (u1, u2) = (k1 + nl + t1, k2 + nl + t2);
        let (r1, r2) = (a1 + nl + u1, a2 + nl + u2);
        crate::text::lemma_prefix_cancel("pan-checkin-v2"@ + nl, d1 + nl + r1, d2 + nl + r2);
        crate::text::lemma_split_first(d1, r1, d2, r2, '\n');
        crate::text::lemma_split_first(a1, u1, a2, u2, '\n');
        crate::text::lemma_split_first(k1, t1, k2, t2, '\n');
        crate::text::lemma_split_first(h1, f1, h2, f2, '\n');
    } else {
        lemma_decimal_free_of(ts1 as int, ':');
        lemma_decimal_free_of(ts2 as int, ':');
        crate::text::lemma_prefix_cancel("pan-checkin-v1:"@, d1 + seq![':'] + a1, d2 + seq![':'] + a2);
        crate::text::lemma_split_first(d1, a1, d2, a2, ':');
    }
}

/// A declared profile field as recorded: trimmed, and kept only when it is
/// non-empty and at most 80 characters long.
pub open spec fn recorded_field(f: Option<String>) -> Option<Seq<char>> {
    match f {
        Some(s) => if 0 < trimmed(s@).len() <= MAX_LABEL_CHARS {
            Some(trimmed(s@))
        } else {
            None
        },
        None => None,
    }
}

/// Trims one declared profile field and drops it when empty or too long.
pub fn record_field(f: &Option<String>) -> (r: Option<String>)
    ensures
        match recorded_field(*f) {
            Some(t) => r matches Some(x) && x@ == t,
            None => r is None,
        },
{
    match f {
        Some(s) => {
            let t = trim_str(s.as_str());
            if t.len() > 0 && t.len() <= MAX_LABEL_CHARS {
                Some(string_of(&t))
            } else {
                None
            }
        },
        None => None,
    }
}

/// The profile as it is recorded for a check-in or pairing.
pub fn recorded_profile(p: &AgentProfile) -> (r: AgentProfile)
    ensures
        match recorded_field(p.kind) {
            Some(t) => r.kind matches Some(x) && x@ == t,
            None => r.kind is None,
        },
        match recorded_field(p.host) {
            Some(t) => r.host matches Some(x) && x@ == t,
            None => r.host is None,
        },
        match recorded_field(p.platform) {
            Some(t) => r.platform matches Some(x) && x@ == t,
            None => r.platform is None,
        },
{
    AgentProfile {
        kind: record_field(&p.kind),
        host: record_field(&p.host),
        platform: record_field(&p.platform),
    }
}

// ---------------------------------------------------------------------------
// The history log

/// The previous hash an entry chains to: the newest entry's hash, or ""
/// when there is none (or it predates the chain).
pub fn chain_prev_hash(head: Option<Option<String>>) -> (p: String)
    ensures
        match head {
            Some(Some(h)) => p@ == h@,
            _ => p@ == Seq::<char>::empty(),
        },
{
    match head {
        Some(Some(h)) => h,
        _ => String::new(),
    }
}

/// The members of a log entry, written out, in ascending key order.
pub open spec fn entry_members(
    action: Seq<char>,
    at: Seq<char>,
    detail: JsonValue,
    email: Seq<char>,
    handle: Seq<char>,
    prev_hash: Seq<char>,
    seq_no: i64,
) -> Seq<(Seq<char>, Seq<char>)> {
    seq![
        (seq!['a', 'c', 't', 'i', 'o', 'n'], json_string(action)),
        (seq!['a', 't'], json_string(at)),
        (seq!['d', 'e', 't', 'a', 'i', 'l'], json_text(detail)),
        (seq!['e', 'm', 'a', 'i', 'l'], json_string(email)),
        (seq!['h', 'a', 'n', 'd', 'l', 'e'], json_string(handle)),
        (seq!['p', 'r', 'e', 'v', '_', 'h', 'a', 's', 'h'], json_string(prev_hash)),
        (seq!['s', 'e', 'q'], signed_decimal(seq_no as int)),
    ]
}

/// The canonical JSON of a log entry: the object of its seven members.
pub open spec fn entry_text(
    action: Seq<char>,
    at: Seq<char>,
    detail: JsonValue,
    email: Seq<char>,
    handle: Seq<char>,
    prev_hash: Seq<char>,
    seq_no: i64,
) -> Seq<char> {
    object_text(entry_members(action, at, detail, email, handle, prev_hash, seq_no))
}

/// A log entry's hash: base64 of the SHA-256 digest of the UTF-8 bytes of
/// its canonical JSON.
pub open spec fn entry_hash_text(
    action: Seq<char>,
    at: Seq<char>,
    detail: JsonValue,
    email: Seq<char>,
    handle: Seq<char>,
    prev_hash: Seq<char>,
    seq_no: i64,
) -> Seq<char> {
    base64_encoded(
        sha256_digest(
            vstd::utf8::encode_utf8(
                entry_text(action, at, detail, email, handle, prev_hash, seq_no),
            ),
        ),
    )
}

/// An entry's hash is taken over a text that fixes its action, its time,
/// its email, its handle and the hash of the entry before it: changing any
/// one of them changes the hashed text. This is what makes the chained log
/// tamper-evident.
pub proof fn law_entry_text_commits(
    action: Seq<char>,
    at: Seq<char>,
    detail: JsonValue,
    email: Seq<char>,
    handle: Seq<char>,
    prev_hash: Seq<char>,
    seq_no: i64,
    other: Seq<char>,
)
    ensures
        entry_text(other, at, detail, email, handle, prev_hash, seq_no) == entry_text(
            action,
            at,
            detail,
            email,
            handle,
            prev_hash,
            seq_no,
        ) ==> other == action,
        entry_text(action, other, detail, email, handle, prev_hash, seq_no) == entry_text(
            action,
            at,
            detail,
            email,
            handle,
            prev_hash,
            seq_no,
        ) ==> other == at,
        entry_text(action, at, detail, other, handle, prev_hash, seq_no) == entry_text(
            action,
            at,
            detail,
            email,
            handle,
            prev_hash,
            seq_no,
        ) ==> other == email,
        entry_text(action, at, detail, email, other, prev_hash, seq_no) == entry_text(
            action,
            at,
            detail,
            email,
            handle,
            prev_hash,
            seq_no,
        ) ==> other == handle,
        entry_text(action, at, detail, email, handle, other, seq_no) == entry_text(
            action,
            at,
            detail,
            email,
            handle,
            prev_hash,
            seq_no,
        ) ==> other == prev_hash,
{
    let m = entry_members(action, at, detail, email, handle, prev_hash, seq_no);
    let ma = entry_members(other, at, detail, email, handle, prev_hash, seq_no);
    let mt = entry_members(action, other, detail, email, handle, prev_hash, seq_no);
    let me = entry_members(action, at, detail, other, handle, prev_hash, seq_no);
    let mh = entry_members(action, at, detail, email, other, prev_hash, seq_no);
    let mp = entry_members(action, at, detail, email, handle, other, seq_no);
    if object_text(ma) == object_text(m) {
        crate::json::lemma_object_text_fixes_string(ma, m, 0, other, action);
    }
    if object_text(mt) == object_text(m) {
        crate::json::lemma_object_text_fixes_string(mt, m, 1, other, at);
    }
    if object_text(me) == object_text(m) {
        crate::json::lemma_object_text_fixes_string(me, m, 3, other, email);
    }
    if object_text(mh) == object_text(m) {
        crate::json::lemma_object_text_fixes_string(mh, m, 4, other, handle);
    }
    if object_text(mp) == object_text(m) {
        crate::json::lemma_object_text_fixes_string(mp, m, 5, other, prev_hash);
    }
}

/// The log entry as a JSON object (members in ascending key order), with
/// the instant written in RFC 3339 with microseconds.
pub fn log_entry(
    action: &str,
    at_micros: i64,
    detail: JsonValue,
    email: &str,
    handle: &str,
    prev_hash: &str,
    seq_no: i64,
) -> (v: JsonValue)
    requires
        EARLIEST_MICROS <= at_micros <= LATEST_MICROS,
        detail.wf(),
    ensures
        v.wf(),
        json_text(v) == entry_text(
            action@,
            rfc3339_text(at_micros, true),
            detail,
            email@,
            handle@,
            prev_hash@,
            seq_no,
        ),
{
    let at = format_rfc3339(at_micros, true);
    let mut seq_text: Vec<char> = Vec::new();
    push_signed_decimal(seq_no, &mut seq_text);
    let ghost d = detail;
    let mut members: Vec<(String, JsonValue)> = Vec::new();
    members.push((owned("action"), JsonValue::Str(owned(action))));
    members.push((owned("at"), JsonValue::Str(at)));
    members.push((owned("detail"), detail));
    members.push((owned("email"), JsonValue::Str(owned(email))));
    members.push((owned("handle"), JsonValue::Str(owned(handle))));
    members.push((owned("prev_hash"), JsonValue::Str(owned(prev_hash))));
    members.push((owned("seq"), JsonValue::Number(string_of(&seq_text))));
    let v = JsonValue::Object(members);
    proof {
        reveal_strlit("action");
        reveal_strlit("at");
        reveal_strlit("detail");
        reveal_strlit("email");
        reveal_strlit("handle");
        reveal_strlit("prev_hash");
        reveal_strlit("seq");
        let m = members@;
        let em = entry_members(
            action@,
            rfc3339_text(at_micros, true),
            d,
            email@,
            handle@,
            prev_hash@,
            seq_no,
        );
        crate::json::lemma_rendered_members(m);
        let r = rendered_members(m);
        assert(m.len() == 7);
        assert("action"@ =~= seq!['a', 'c', 't', 'i', 'o', 'n']);
        assert("at"@ =~= seq!['a', 't']);
        assert("detail"@ =~= seq!['d', 'e', 't', 'a', 'i', 'l']);
        assert("email"@ =~= seq!['e', 'm', 'a', 'i', 'l']);
        assert("handle"@ =~= seq!['h', 'a', 'n', 'd', 'l', 'e']);
        assert("prev_hash"@ =~= seq!['p', 'r', 'e', 'v', '_', 'h', 'a', 's', 'h']);
        assert("seq"@ =~= seq!['s', 'e', 'q']);
        assert(r[0] == em[0]);
        assert(r[1] == em[1]);
        assert(r[2] == em[2]);
        assert(r[3] == em[3]);
        assert(r[4] == em[4]);
        assert(r[5] == em[5]);
        assert(r[6] == em[6]);
        assert(r =~= em);
        reveal_with_fuel(text_lt, 4);
        assert(text_lt(em[0].0, em[1].0));
        assert(text_lt(em[1].0, em[2].0));
        assert(text_lt(em[2].0, em[3].0));
        assert(text_lt(em[3].0, em[4].0));
        assert(text_lt(em[4].0, em[5].0));
        assert(text_lt(em[5].0, em[6].0));
        assert(key_sorted(em)) by {
            assert forall|i: int, j: int| 0 <= i < j < em.len() implies text_lt(
                #[trigger] em[i].0,
                #[trigger] em[j].0,
            ) by {
                crate::json::lemma_chain_sorted(em, i, j);
            }
        }
        crate::json::lemma_sorted_is_key_sort(em);
        crate::json::lemma_members_all_wf(m);
        assert(crate::json::member_keys_distinct(m)) by {
            assert forall|i: int, j: int|
                0 <= i < m.len() && 0 <= j < m.len() && i != j implies m[i].0@ != m[j].0@ by {
                assert(m[i].0@ == em[i].0);
                assert(m[j].0@ == em[j].0);
                if i < j {
                    crate::json::lemma_chain_sorted(em, i, j);
                    crate::order::lemma_text_lt_irreflexive(em[i].0);
                } else {
                    crate::json::lemma_chain_sorted(em, j, i);
                    crate::order::lemma_text_lt_irreflexive(em[j].0);
                }
            }
        }
    }
    v
}

/// The hash of a log entry: base64 of the SHA-256 digest of the canonical
/// JSON of `{action, at, detail, email, handle, prev_hash, seq}`, where the
/// instant is written in RFC 3339 with microseconds and `prev_hash` is the
/// previous entry's hash ("" at the start of the chain).
pub fn log_entry_hash(
    action: &str,
    at_micros: i64,
    detail: JsonValue,
    email: &str,
    handle: &str,
    prev_hash: &str,
    seq_no: i64,
) -> (h: String)
    requires
        EARLIEST_MICROS <= at_micros <= LATEST_MICROS,
        detail.wf(),
    ensures
        h@ == entry_hash_text(
            action@,
            rfc3339_text(at_micros, true),
            detail,
            email@,
            handle@,
            prev_hash@,
            seq_no,
        ),
{
    let v = log_entry(action, at_micros, detail, email, handle, prev_hash, seq_no);
    let text = canonical_json(&v);
    let digest = sha256(text.as_str().as_bytes());
    encode_base64(digest.as_slice())
}

/// Clamps a requested number of log entries to 1..=500.
pub fn log_limit(limit: i64) -> (n: i64)
    ensures
        n == if limit < 1 {
            1
        } else if limit > 500 {
            500
        } else {
            limit
        },
{
    if limit < 1 {
        1
    } else if limit > 500 {
        500
    } else {
        limit
    }
}

} // verus!
