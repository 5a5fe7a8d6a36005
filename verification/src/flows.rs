//! The registrar's actions as step machines. Each action decides, from what
//! storage answered so far, what to ask storage next or how the action
//! ends; a driver performs each request and hands back the reply. The
//! decisions, their order, and that every registrar action appends to the
//! history log before it reports success are verified here.

use vstd::prelude::*;
use crate::json::{json_text, JsonValue};
use crate::model::AgentProfile;
use crate::registrar::{
    claim_handle, code_accepted, code_issue_allowed, cooling_off_check,
    email_bind_method, email_bindable, handle_text, invalid_with, name_refusal, normalize_email,
    owned_update, pairing_claimed, pairing_code, pairing_owner, signature_bytes,
    signature_outcome, validate_operator_name, RegistrarError, CODE_TTL_MIN, COOLING_OFF_DAYS,
    MAX_CODE_ATTEMPTS, PAIRING_TTL_MICROS, SESSION_TTL_MIN,
};
use crate::text::{lowercased, owned, trimmed};
use crate::views::{bind_detail_text, claim_detail_text};

verus! {

/// One thing an action needs storage (or the agent-key check) to do.
#[allow(inconsistent_fields)]
pub enum Request {
    /// Count the codes issued to an email within the last hour.
    CountRecentCodes { email: String },
    /// Store a verification code that expires after `ttl_min` minutes.
    StoreCode { email: String, code: String, ttl_min: i64 },
    /// Spend an attempt on the newest live code of an email that has had
    /// fewer than `max_attempts`; answer with that code, if any.
    SpendCodeAttempt { email: String, max_attempts: i32 },
    /// Delete every code of an email.
    DeleteCodes { email: String },
    /// Open a session for an email lasting `ttl_min` minutes, recording how
    /// the email was witnessed (`via`); answer with its token.
    OpenSession { email: String, via: String, ttl_min: i64 },
    /// Read a listing's source and owner email.
    ReadListingOwner { listing_id: [u8; 16] },
    /// Count releases of a handle key within the last `days` days.
    CountCooling { key: String, days: i64 },
    /// Insert an active handle; answer `Duplicate` if its key is held.
    InsertHandle {
        handle: String,
        key: String,
        email: String,
        listing_id: Option<[u8; 16]>,
        bind_method: Option<String>,
        claimed_via: String,
    },
    /// Rebind the caller's active handle; answer with the rows touched.
    SetBinding {
        handle: String,
        email: String,
        listing_id: Option<[u8; 16]>,
        bind_method: Option<String>,
    },
    /// Release the caller's active handle; answer with the rows touched.
    ReleaseHandle { handle: String, email: String },
    /// Set the operator display name of an email.
    StoreOperator { email: String, name: String },
    /// Find the caller's active handle; answer with its stored form.
    FindOwnedHandle { handle: String, email: String },
    /// Store a single-use pairing code for a handle until `expires_at`.
    StorePairingCode { code: String, handle: String, email: String, expires_at: i64 },
    /// Mark a live, unused pairing code used; answer with its handle and
    /// email.
    UsePairingCode { code: String },
    /// Check a signature over `message` against the agent key `agent_id`.
    CheckSignature { agent_id: String, message: String, signature: Vec<u8> },
    /// Create or refresh the minimal record of a key-proven agent; answer
    /// with its listing id.
    UpsertAgent { agent_id: String, name: String, manifest: JsonValue },
    /// Bind an active handle to an agent's listing by key proof.
    BindToAgent { handle: String, listing_id: [u8; 16] },
    /// Record where an agent connected from and its declared profile.
    RecordSeen { agent_id: String, ip: String, profile: AgentProfile },
    /// Append an entry to the history log.
    AppendLog { action: String, handle: String, email: String, detail: JsonValue },
}

/// What storage (or the agent-key check) answered.
pub enum Reply {
    Done,
    Count(i64),
    Rows(u64),
    Duplicate,
    ListingOwner(Option<(String, Option<String>)>),
    Code(Option<String>),
    Token([u8; 16]),
    OwnedHandle(Option<String>),
    Pairing(Option<(String, String)>),
    Signature { key_ok: bool, verified: bool },
    ListingId([u8; 16]),
    /// Storage failed; the text describes the failure.
    Failed(String),
}

/// An action's next move: ask for something, or end with its outcome.
pub enum Next<T> {
    Ask(Request),
    Finish(Result<T, RegistrarError>),
}

/// The message of the storage error a reply that does not fit the request
/// ends an action with.
pub open spec fn unexpected_message() -> Seq<char> {
    "unexpected storage reply"@
}

/// A storage failure ends the action with a storage error carrying its
/// text; any other reply that does not answer the request ends it with
/// the unexpected-reply storage error.
pub open spec fn failed_with<T>(reply: Reply, next: Next<T>) -> bool {
    match reply {
        Reply::Failed(m) => next matches Next::Finish(Err(RegistrarError::Db(x))) && x@ == m@,
        _ => next matches Next::Finish(Err(RegistrarError::Db(x))) && x@ == unexpected_message(),
    }
}

fn fail<T>(reply: Reply) -> (next: Next<T>)
    ensures
        failed_with(reply, next),
{
    match reply {
        Reply::Failed(m) => Next::Finish(Err(RegistrarError::Db(m))),
        _ => Next::Finish(Err(RegistrarError::Db(owned("unexpected storage reply")))),
    }
}

// ---------------------------------------------------------------------------
// Claim

/// Where a claim stands.
pub enum ClaimPhase {
    CheckingListing,
    CheckingCooling,
    Inserting,
    Logging,
    Ended,
}

/// A claim of `<name>.<email>` in progress.
pub struct ClaimFlow {
    pub phase: ClaimPhase,
    pub email: String,
    pub handle: String,
    pub key: String,
    pub listing_id: Option<[u8; 16]>,
    /// The provenance of the claimant's session.
    pub via: String,
}

/// The request that checks the cooling-off window of a claim.
pub open spec fn asks_cooling<T>(next: Next<T>, key: Seq<char>) -> bool {
    next matches Next::Ask(Request::CountCooling { key: k, days }) && k@ == key && days
        == COOLING_OFF_DAYS
}

/// Starts a claim by a verified email of `name`, optionally bound to a
/// listing, under a session of provenance `via`: the name must validate; a
/// listing is checked first.
pub fn claim_begin(email: &str, name: &str, listing_id: Option<[u8; 16]>, via: &str) -> (r: (
    ClaimFlow,
    Next<String>,
))
    ensures
        match name_refusal(trimmed(name@)) {
            Some(too_long) => {
                &&& r.0.phase is Ended
                &&& r.1 matches Next::Finish(Err(e))
                &&& invalid_with(
                    e,
                    if too_long {
                        crate::registrar::name_length_message()
                    } else {
                        crate::registrar::name_chars_message()
                    },
                )
            },
            None => {
                &&& r.0.email@ == email@
                &&& r.0.via@ == via@
                &&& r.0.handle@ == handle_text(trimmed(name@), email@)
                &&& r.0.key@ == lowercased(r.0.handle@)
                &&& r.0.listing_id == listing_id
                &&& match listing_id {
                    Some(id) => {
                        &&& r.0.phase is CheckingListing
                        &&& r.1 matches Next::Ask(Request::ReadListingOwner { listing_id: x })
                        &&& x == id
                    },
                    None => r.0.phase is CheckingCooling && asks_cooling(r.1, r.0.key@),
                }
            },
        },
{
    match claim_handle(email, name) {
        Err(e) => (
            ClaimFlow {
                phase: ClaimPhase::Ended,
                email: owned(email),
                handle: String::new(),
                key: String::new(),
                listing_id,
                via: owned(via),
            },
            Next::Finish(Err(e)),
        ),
        Ok((handle, key)) => {
            match listing_id {
                Some(id) => (
                    ClaimFlow {
                        phase: ClaimPhase::CheckingListing,
                        email: owned(email),
                        handle,
                        key,
                        listing_id,
                        via: owned(via),
                    },
                    Next::Ask(Request::ReadListingOwner { listing_id: id }),
                ),
                None => {
                    let k = key.clone();
                    (
                        ClaimFlow {
                            phase: ClaimPhase::CheckingCooling,
                            email: owned(email),
                            handle,
                            key,
                            listing_id,
                            via: owned(via),
                        },
                        Next::Ask(Request::CountCooling { key: k, days: COOLING_OFF_DAYS }),
                    )
                },
            }
        },
    }
}

/// Advances a claim with storage's reply. The listing must be one the email
/// submitted; a key in its cooling-off window, or one already held, is
/// taken; the handle is inserted (bound by "email-submitter" when a listing
/// is given) with the session's provenance, then logged as "claimed" with
/// that provenance, and only then returned.
pub fn claim_step(flow: ClaimFlow, reply: Reply) -> (r: (ClaimFlow, Next<String>))
    ensures
        r.0.email == flow.email,
        r.0.handle == flow.handle,
        r.0.key == flow.key,
        r.0.listing_id == flow.listing_id,
        r.0.via == flow.via,
        match (flow.phase, reply) {
            (ClaimPhase::CheckingListing, Reply::ListingOwner(row)) => match email_bindable_spec(
                row,
                flow.email@,
            ) {
                Ok(()) => r.0.phase is CheckingCooling && asks_cooling(r.1, flow.key@),
                Err(()) => {
                    &&& r.0.phase is Ended
                    &&& r.1 matches Next::Finish(Err(e))
                    &&& binding_refusal(row, flow.email@, e)
                },
            },
            (ClaimPhase::CheckingCooling, Reply::Count(n)) => if n > 0 {
                &&& r.0.phase is Ended
                &&& r.1 matches Next::Finish(Err(e))
                &&& crate::registrar::taken_with(e, crate::registrar::cooling_message())
            } else {
                &&& r.0.phase is Inserting
                &&& r.1 matches Next::Ask(
                    Request::InsertHandle { handle, key, email, listing_id, bind_method, claimed_via },
                )
                &&& claimed_via@ == flow.via@
                &&& handle@ == flow.handle@
                &&& key@ == flow.key@
                &&& email@ == flow.email@
                &&& listing_id == flow.listing_id
                &&& (bind_method matches Some(m) ==> m@ == "email-submitter"@)
                &&& (bind_method is Some <==> flow.listing_id is Some)
            },
            (ClaimPhase::Inserting, Reply::Done) => {
                &&& r.0.phase is Logging
                &&& r.1 matches Next::Ask(Request::AppendLog { action, handle, email, detail })
                &&& action@ == "claimed"@
                &&& handle@ == flow.handle@
                &&& email@ == flow.email@
                &&& detail.wf()
                &&& json_text(detail) == claim_detail_text(flow.listing_id, flow.via@)
            },
            (ClaimPhase::Inserting, Reply::Duplicate) => {
                &&& r.0.phase is Ended
                &&& r.1 matches Next::Finish(Err(e))
                &&& crate::registrar::taken_with(e, crate::registrar::taken_message())
            },
            (ClaimPhase::Logging, Reply::Done) => {
                &&& r.0.phase is Ended
                &&& r.1 matches Next::Finish(Ok(h))
                &&& h@ == flow.handle@
            },
            _ => r.0.phase is Ended && failed_with(reply, r.1),
        },
        r.1 matches Next::Finish(Ok(_)) ==> flow.phase is Logging && reply is Done,
{
    let ClaimFlow { phase, email, handle, key, listing_id, via } = flow;
    match (phase, reply) {
        (ClaimPhase::CheckingListing, Reply::ListingOwner(row)) => {
            match email_bindable(row, email.as_str()) {
                Ok(()) => {
                    let k = key.clone();
                    (
                        ClaimFlow { phase: ClaimPhase::CheckingCooling, email, handle, key, listing_id, via },
                        Next::Ask(Request::CountCooling { key: k, days: COOLING_OFF_DAYS }),
                    )
                },
                Err(e) => (
                    ClaimFlow { phase: ClaimPhase::Ended, email, handle, key, listing_id, via },
                    Next::Finish(Err(e)),
                ),
            }
        },
        (ClaimPhase::CheckingCooling, Reply::Count(n)) => {
            match cooling_off_check(n) {
                Err(e) => (
                    ClaimFlow { phase: ClaimPhase::Ended, email, handle, key, listing_id, via },
                    Next::Finish(Err(e)),
                ),
                Ok(()) => {
                    let req = Request::InsertHandle {
                        handle: handle.clone(),
                        key: key.clone(),
                        email: email.clone(),
                        listing_id,
                        bind_method: email_bind_method(listing_id),
                        claimed_via: via.clone(),
                    };
                    (
                        ClaimFlow { phase: ClaimPhase::Inserting, email, handle, key, listing_id, via },
                        Next::Ask(req),
                    )
                },
            }
        },
        (ClaimPhase::Inserting, Reply::Done) => {
            let req = Request::AppendLog {
                action: owned("claimed"),
                handle: handle.clone(),
                email: email.clone(),
                detail: crate::views::claim_detail(listing_id, via.as_str()),
            };
            (ClaimFlow { phase: ClaimPhase::Logging, email, handle, key, listing_id, via }, Next::Ask(req))
        },
        (ClaimPhase::Inserting, Reply::Duplicate) => (
            ClaimFlow { phase: ClaimPhase::Ended, email, handle, key, listing_id, via },
            Next::Finish(Err(crate::registrar::handle_taken())),
        ),
        (ClaimPhase::Logging, Reply::Done) => {
            let h = handle.clone();
            (
                ClaimFlow { phase: ClaimPhase::Ended, email, handle, key, listing_id, via },
                Next::Finish(Ok(h)),
            )
        },
        (_, other) => (
            ClaimFlow { phase: ClaimPhase::Ended, email, handle, key, listing_id, via },
            fail(other),
        ),
    }
}

/// The refusal `email_bindable` gives for a listing row it does not
/// accept: no such listing, a listing submitted by someone else, or a
/// key-bearing listing that needs pairing.
pub open spec fn binding_refusal(
    row: Option<(String, Option<String>)>,
    email: Seq<char>,
    e: RegistrarError,
) -> bool {
    match row {
        None => invalid_with(e, crate::registrar::no_listing_message()),
        Some((source, _)) => if source@ == "manual"@ {
            e is Unauthorized
        } else {
            invalid_with(e, crate::registrar::key_pairing_message())
        },
    }
}

/// Whether an email may bind to a listing with this `(source, owner)`
/// row: `Ok` exactly when `email_bindable` accepts.
pub open spec fn email_bindable_spec(row: Option<(String, Option<String>)>, email: Seq<char>) -> Result<
    (),
    (),
> {
    match row {
        Some((source, owner)) => if source@ == "manual"@ && (owner matches Some(o) && o@
            == email) {
            Ok(())
        } else {
            Err(())
        },
        None => Err(()),
    }
}

// ---------------------------------------------------------------------------
// Bind (email proof)

/// Where an email-proof binding stands.
pub enum BindPhase {
    CheckingListing,
    Binding,
    Logging,
    Ended,
}

/// A binding (or detaching) of the caller's handle on email proof.
pub struct BindFlow {
    pub phase: BindPhase,
    pub email: String,
    pub handle: String,
    pub listing_id: Option<[u8; 16]>,
    /// The provenance of the caller's session.
    pub via: String,
}

/// The request that rebinds the caller's handle on email proof.
pub open spec fn asks_set_binding<T>(
    next: Next<T>,
    handle: Seq<char>,
    email: Seq<char>,
    listing_id: Option<[u8; 16]>,
) -> bool {
    &&& next matches Next::Ask(Request::SetBinding { handle: h, email: e, listing_id: l, bind_method: m })
    &&& h@ == handle
    &&& e@ == email
    &&& l == listing_id
    &&& (m is Some <==> listing_id is Some)
    &&& (m matches Some(x) ==> x@ == "email-submitter"@)
}

fn set_binding_request(handle: &String, email: &String, listing_id: Option<[u8; 16]>) -> (n: Next<()>)
    ensures
        asks_set_binding(n, handle@, email@, listing_id),
{
    Next::Ask(
        Request::SetBinding {
            handle: handle.clone(),
            email: email.clone(),
            listing_id,
            bind_method: email_bind_method(listing_id),
        },
    )
}

/// Starts binding the caller's handle to a listing (or detaching it): a
/// listing is checked first; detaching needs no check.
pub fn bind_begin(email: &str, handle: &str, listing_id: Option<[u8; 16]>, via: &str) -> (r: (
    BindFlow,
    Next<()>,
))
    ensures
        r.0.email@ == email@,
        r.0.handle@ == handle@,
        r.0.listing_id == listing_id,
        r.0.via@ == via@,
        match listing_id {
            Some(id) => {
                &&& r.0.phase is CheckingListing
                &&& r.1 matches Next::Ask(Request::ReadListingOwner { listing_id: x })
                &&& x == id
            },
            None => r.0.phase is Binding && asks_set_binding(r.1, handle@, email@, None),
        },
{
    let (e, h) = (owned(email), owned(handle));
    match listing_id {
        Some(id) => (
            BindFlow { phase: BindPhase::CheckingListing, email: e, handle: h, listing_id, via: owned(via) },
            Next::Ask(Request::ReadListingOwner { listing_id: id }),
        ),
        None => {
            let n = set_binding_request(&h, &e, None);
            (BindFlow { phase: BindPhase::Binding, email: e, handle: h, listing_id, via: owned(via) }, n)
        },
    }
}

/// Advances an email-proof binding: the listing must be one the email
/// submitted; the update must touch the caller's own active handle; the
/// change is logged as "bound" before success is reported.
pub fn bind_step(flow: BindFlow, reply: Reply) -> (r: (BindFlow, Next<()>))
    ensures
        r.0.email == flow.email,
        r.0.handle == flow.handle,
        r.0.listing_id == flow.listing_id,
        r.0.via == flow.via,
        match (flow.phase, reply) {
            (BindPhase::CheckingListing, Reply::ListingOwner(row)) => match email_bindable_spec(
                row,
                flow.email@,
            ) {
                Ok(()) => r.0.phase is Binding && asks_set_binding(
                    r.1,
                    flow.handle@,
                    flow.email@,
                    flow.listing_id,
                ),
                Err(()) => {
                    &&& r.0.phase is Ended
                    &&& r.1 matches Next::Finish(Err(e))
                    &&& binding_refusal(row, flow.email@, e)
                },
            },
            (BindPhase::Binding, Reply::Rows(n)) => if n == 0 {
                r.0.phase is Ended && r.1 matches Next::Finish(Err(RegistrarError::Unauthorized))
            } else {
                &&& r.0.phase is Logging
                &&& r.1 matches Next::Ask(Request::AppendLog { action, handle, email, detail })
                &&& action@ == "bound"@
                &&& handle@ == flow.handle@
                &&& email@ == flow.email@
                &&& detail.wf()
                &&& json_text(detail) == bind_detail_text(flow.listing_id, flow.via@)
            },
            (BindPhase::Logging, Reply::Done) => r.0.phase is Ended && r.1 matches Next::Finish(
                Ok(()),
            ),
            _ => r.0.phase is Ended && failed_with(reply, r.1),
        },
        r.1 matches Next::Finish(Ok(_)) ==> flow.phase is Logging && reply is Done,
{
    let BindFlow { phase, email, handle, listing_id, via } = flow;
    match (phase, reply) {
        (BindPhase::CheckingListing, Reply::ListingOwner(row)) => {
            match email_bindable(row, email.as_str()) {
                Ok(()) => {
                    let n = set_binding_request(&handle, &email, listing_id);
                    (BindFlow { phase: BindPhase::Binding, email, handle, listing_id, via }, n)
                },
                Err(e) => (
                    BindFlow { phase: BindPhase::Ended, email, handle, listing_id, via },
                    Next::Finish(Err(e)),
                ),
            }
        },
        (BindPhase::Binding, Reply::Rows(n)) => {
            match owned_update(n) {
                Err(e) => (
                    BindFlow { phase: BindPhase::Ended, email, handle, listing_id, via },
                    Next::Finish(Err(e)),
                ),
                Ok(()) => {
                    let req = Request::AppendLog {
                        action: owned("bound"),
                        handle: handle.clone(),
                        email: email.clone(),
                        detail: crate::views::bind_detail(listing_id, via.as_str()),
                    };
                    (BindFlow { phase: BindPhase::Logging, email, handle, listing_id, via }, Next::Ask(req))
                },
            }
        },
        (BindPhase::Logging, Reply::Done) => (
            BindFlow { phase: BindPhase::Ended, email, handle, listing_id, via },
            Next::Finish(Ok(())),
        ),
        (_, other) => (BindFlow { phase: BindPhase::Ended, email, handle, listing_id, via }, fail(other)),
    }
}

// ---------------------------------------------------------------------------
// Release

/// Where a release stands.
pub enum ReleasePhase {
    Releasing,
    Logging,
    Ended,
}

/// A release (tombstoning) of the caller's handle.
pub struct ReleaseFlow {
    pub phase: ReleasePhase,
    pub email: String,
    pub handle: String,
}

/// Starts releasing the caller's active handle. A session a partner vouched
/// for may establish but not destroy: its release is refused with an
/// instruction to sign in directly, and nothing is asked of storage.
pub fn release_begin(email: &str, handle: &str, via: &str) -> (r: (ReleaseFlow, Next<()>))
    ensures
        r.0.email@ == email@,
        r.0.handle@ == handle@,
        if crate::registrar::is_delegated(via@) {
            &&& r.0.phase is Ended
            &&& r.1 matches Next::Finish(Err(e))
            &&& invalid_with(e, crate::registrar::direct_sign_in_message())
        } else {
            &&& r.0.phase is Releasing
            &&& r.1 matches Next::Ask(Request::ReleaseHandle { handle: h, email: e })
            &&& h@ == handle@
            &&& e@ == email@
        },
{
    let (e, h) = (owned(email), owned(handle));
    if crate::registrar::delegated(via) {
        let msg = owned(
            "releasing a handle needs a direct sign-in: verify your email with a code from this registrar, then try again",
        );
        return (
            ReleaseFlow { phase: ReleasePhase::Ended, email: e, handle: h },
            Next::Finish(Err(RegistrarError::Invalid(msg))),
        );
    }
    let req = Request::ReleaseHandle { handle: h.clone(), email: e.clone() };
    (ReleaseFlow { phase: ReleasePhase::Releasing, email: e, handle: h }, Next::Ask(req))
}

/// Advances a release: it must touch the caller's own active handle, and
/// is logged as "released" (with an empty detail) before success.
pub fn release_step(flow: ReleaseFlow, reply: Reply) -> (r: (ReleaseFlow, Next<()>))
    ensures
        r.0.email == flow.email,
        r.0.handle == flow.handle,
        match (flow.phase, reply) {
            (ReleasePhase::Releasing, Reply::Rows(n)) => if n == 0 {
                r.0.phase is Ended && r.1 matches Next::Finish(Err(RegistrarError::Unauthorized))
            } else {
                &&& r.0.phase is Logging
                &&& r.1 matches Next::Ask(Request::AppendLog { action, handle, email, detail })
                &&& action@ == "released"@
                &&& handle@ == flow.handle@
                &&& email@ == flow.email@
                &&& detail.wf()
                &&& json_text(detail) == seq!['{', '}']
            },
            (ReleasePhase::Logging, Reply::Done) => r.0.phase is Ended && r.1 matches Next::Finish(
                Ok(()),
            ),
            _ => r.0.phase is Ended && failed_with(reply, r.1),
        },
        r.1 matches Next::Finish(Ok(_)) ==> flow.phase is Logging && reply is Done,
{
    let ReleaseFlow { phase, email, handle } = flow;
    match (phase, reply) {
        (ReleasePhase::Releasing, Reply::Rows(n)) => {
            match owned_update(n) {
                Err(e) => (ReleaseFlow { phase: ReleasePhase::Ended, email, handle }, Next::Finish(Err(e))),
                Ok(()) => {
                    let req = Request::AppendLog {
                        action: owned("released"),
                        handle: handle.clone(),
                        email: email.clone(),
                        detail: crate::views::release_detail(),
                    };
                    (ReleaseFlow { phase: ReleasePhase::Logging, email, handle }, Next::Ask(req))
                },
            }
        },
        (ReleasePhase::Logging, Reply::Done) => (
            ReleaseFlow { phase: ReleasePhase::Ended, email, handle },
            Next::Finish(Ok(())),
        ),
        (_, other) => (ReleaseFlow { phase: ReleasePhase::Ended, email, handle }, fail(other)),
    }
}

// ---------------------------------------------------------------------------
// Operator display name

/// Where setting an operator name stands.
pub enum OperatorPhase {
    Storing,
    Logging,
    Ended,
}

/// Setting the operator display name of a verified email.
pub struct OperatorFlow {
    pub phase: OperatorPhase,
    pub email: String,
    pub name: String,
    /// The provenance of the caller's session.
    pub via: String,
}

/// Starts setting an operator name: it is trimmed and must be 1 to 80
/// characters long.
pub fn operator_begin(email: &str, display_name: &str, via: &str) -> (r: (OperatorFlow, Next<String>))
    ensures
        r.0.email@ == email@,
        r.0.via@ == via@,
        if 0 < trimmed(display_name@).len() <= crate::registrar::MAX_LABEL_CHARS {
            &&& r.0.phase is Storing
            &&& r.0.name@ == trimmed(display_name@)
            &&& r.1 matches Next::Ask(Request::StoreOperator { email: e, name: n })
            &&& e@ == email@
            &&& n@ == trimmed(display_name@)
        } else {
            &&& r.0.phase is Ended
            &&& r.1 matches Next::Finish(Err(e))
            &&& invalid_with(e, crate::registrar::operator_name_message())
        },
{
    let e = owned(email);
    match validate_operator_name(display_name) {
        Err(err) => (
            OperatorFlow { phase: OperatorPhase::Ended, email: e, name: String::new(), via: owned(via) },
            Next::Finish(Err(err)),
        ),
        Ok(n) => {
            let req = Request::StoreOperator { email: e.clone(), name: n.clone() };
            (OperatorFlow { phase: OperatorPhase::Storing, email: e, name: n, via: owned(via) }, Next::Ask(req))
        },
    }
}

/// Advances setting an operator name: stored, then logged as "operator"
/// under the handle "-", then the name is returned.
pub fn operator_step(flow: OperatorFlow, reply: Reply) -> (r: (OperatorFlow, Next<String>))
    ensures
        r.0.email == flow.email,
        r.0.name == flow.name,
        r.0.via == flow.via,
        match (flow.phase, reply) {
            (OperatorPhase::Storing, Reply::Done) => {
                &&& r.0.phase is Logging
                &&& r.1 matches Next::Ask(Request::AppendLog { action, handle, email, detail })
                &&& action@ == "operator"@
                &&& handle@ == "-"@
                &&& email@ == flow.email@
                &&& detail.wf()
                &&& json_text(detail) == crate::views::operator_detail_text(flow.name@, flow.via@)
            },
            (OperatorPhase::Logging, Reply::Done) => {
                &&& r.0.phase is Ended
                &&& r.1 matches Next::Finish(Ok(n))
                &&& n@ == flow.name@
            },
            _ => r.0.phase is Ended && failed_with(reply, r.1),
        },
        r.1 matches Next::Finish(Ok(_)) ==> flow.phase is Logging && reply is Done,
{
    let OperatorFlow { phase, email, name, via } = flow;
    match (phase, reply) {
        (OperatorPhase::Storing, Reply::Done) => {
            let req = Request::AppendLog {
                action: owned("operator"),
                handle: owned("-"),
                email: email.clone(),
                detail: crate::views::operator_detail(name.as_str(), via.as_str()),
            };
            (OperatorFlow { phase: OperatorPhase::Logging, email, name, via }, Next::Ask(req))
        },
        (OperatorPhase::Logging, Reply::Done) => {
            let n = name.clone();
            (OperatorFlow { phase: OperatorPhase::Ended, email, name, via }, Next::Finish(Ok(n)))
        },
        (_, other) => (OperatorFlow { phase: OperatorPhase::Ended, email, name, via }, fail(other)),
    }
}

// ---------------------------------------------------------------------------
// Email verification

/// Where issuing a verification code stands.
pub enum CodePhase {
    Counting,
    Storing,
    Ended,
}

/// Issuing a verification code to an email.
pub struct CodeFlow {
    pub phase: CodePhase,
    pub email: String,
    pub code: String,
}

/// Starts issuing a code: the email is normalized and must look like one;
/// the codes it was sent in the last hour are counted.
pub fn code_begin(email: &str) -> (r: (CodeFlow, Next<(String, String)>))
    ensures
        if crate::registrar::email_shape_ok(crate::registrar::normalized_email(email@)) {
            &&& r.0.phase is Counting
            &&& r.0.email@ == crate::registrar::normalized_email(email@)
            &&& r.1 matches Next::Ask(Request::CountRecentCodes { email: e })
            &&& e@ == r.0.email@
        } else {
            &&& r.0.phase is Ended
            &&& r.1 matches Next::Finish(Err(e))
            &&& invalid_with(e, crate::registrar::bad_email_message())
        },
{
    match normalize_email(email) {
        Err(e) => (
            CodeFlow { phase: CodePhase::Ended, email: String::new(), code: String::new() },
            Next::Finish(Err(e)),
        ),
        Ok(e) => {
            let req = Request::CountRecentCodes { email: e.clone() };
            (CodeFlow { phase: CodePhase::Counting, email: e, code: String::new() }, Next::Ask(req))
        },
    }
}

/// Advances issuing a code: at most five per email per hour; a fresh
/// six-digit code is stored with its fifteen-minute expiry, then handed
/// back with the normalized email for delivery.
pub fn code_step(flow: CodeFlow, reply: Reply) -> (r: (CodeFlow, Next<(String, String)>))
    ensures
        r.0.email == flow.email,
        match (flow.phase, reply) {
            (CodePhase::Counting, Reply::Count(n)) => if n >= crate::registrar::MAX_CODES_PER_HOUR {
                &&& r.0.phase is Ended
                &&& r.1 matches Next::Finish(Err(e))
                &&& invalid_with(e, crate::registrar::rate_limit_message())
            } else {
                &&& r.0.phase is Storing
                &&& exists|v: nat| v < 1_000_000 && r.0.code@ == crate::numeric::six_digits(v)
                &&& r.1 matches Next::Ask(Request::StoreCode { email, code, ttl_min })
                &&& email@ == flow.email@
                &&& code@ == r.0.code@
                &&& ttl_min == CODE_TTL_MIN
            },
            (CodePhase::Storing, Reply::Done) => {
                &&& r.0.phase is Ended
                &&& r.1 matches Next::Finish(Ok((e, c)))
                &&& e@ == flow.email@
                &&& c@ == flow.code@
            },
            _ => r.0.phase is Ended && failed_with(reply, r.1),
        },
        r.1 matches Next::Finish(Ok(_)) ==> flow.phase is Storing && reply is Done,
{
    let CodeFlow { phase, email, code } = flow;
    match (phase, reply) {
        (CodePhase::Counting, Reply::Count(n)) => {
            match code_issue_allowed(n) {
                Err(e) => (CodeFlow { phase: CodePhase::Ended, email, code }, Next::Finish(Err(e))),
                Ok(()) => {
                    let fresh = crate::registrar::six_digit_code();
                    let req = Request::StoreCode {
                        email: email.clone(),
                        code: fresh.clone(),
                        ttl_min: CODE_TTL_MIN,
                    };
                    (CodeFlow { phase: CodePhase::Storing, email, code: fresh }, Next::Ask(req))
                },
            }
        },
        (CodePhase::Storing, Reply::Done) => {
            let out = (email.clone(), code.clone());
            (CodeFlow { phase: CodePhase::Ended, email, code }, Next::Finish(Ok(out)))
        },
        (_, other) => (CodeFlow { phase: CodePhase::Ended, email, code }, fail(other)),
    }
}

/// Where trading a code for a session stands.
pub enum SessionPhase {
    Spending,
    Clearing,
    Opening,
    Ended,
}

/// Trading a verification code for a session token.
pub struct SessionFlow {
    pub phase: SessionPhase,
    pub email: String,
    pub submitted: String,
}

/// Starts trading a code for a session: the email is normalized; an
/// attempt is spent on its newest live code.
pub fn session_begin(email: &str, code: &str) -> (r: (SessionFlow, Next<[u8; 16]>))
    ensures
        r.0.submitted@ == code@,
        if crate::registrar::email_shape_ok(crate::registrar::normalized_email(email@)) {
            &&& r.0.phase is Spending
            &&& r.0.email@ == crate::registrar::normalized_email(email@)
            &&& r.1 matches Next::Ask(Request::SpendCodeAttempt { email: e, max_attempts })
            &&& e@ == r.0.email@
            &&& max_attempts == MAX_CODE_ATTEMPTS
        } else {
            &&& r.0.phase is Ended
            &&& r.1 matches Next::Finish(Err(e))
            &&& invalid_with(e, crate::registrar::bad_email_message())
        },
{
    let submitted = owned(code);
    match normalize_email(email) {
        Err(e) => (
            SessionFlow { phase: SessionPhase::Ended, email: String::new(), submitted },
            Next::Finish(Err(e)),
        ),
        Ok(e) => {
            let req = Request::SpendCodeAttempt { email: e.clone(), max_attempts: MAX_CODE_ATTEMPTS };
            (SessionFlow { phase: SessionPhase::Spending, email: e, submitted }, Next::Ask(req))
        },
    }
}

/// Advances trading a code: the code must match the newest live one (the
/// submission is trimmed); then the email's codes are deleted and an
/// eight-hour session is opened, whose token is returned.
pub fn session_step(flow: SessionFlow, reply: Reply) -> (r: (SessionFlow, Next<[u8; 16]>))
    ensures
        r.0.email == flow.email,
        r.0.submitted == flow.submitted,
        match (flow.phase, reply) {
            (SessionPhase::Spending, Reply::Code(stored)) => if stored matches Some(c) && c@
                == trimmed(flow.submitted@) {
                &&& r.0.phase is Clearing
                &&& r.1 matches Next::Ask(Request::DeleteCodes { email })
                &&& email@ == flow.email@
            } else {
                &&& r.0.phase is Ended
                &&& r.1 matches Next::Finish(Err(e))
                &&& invalid_with(e, crate::registrar::wrong_code_message())
            },
            (SessionPhase::Clearing, Reply::Done) => {
                &&& r.0.phase is Opening
                &&& r.1 matches Next::Ask(Request::OpenSession { email, via, ttl_min })
                &&& email@ == flow.email@
                &&& via@ == crate::registrar::provenance_text(None)
                &&& ttl_min == SESSION_TTL_MIN
            },
            (SessionPhase::Opening, Reply::Token(t)) => r.0.phase is Ended && r.1 == Next::<
                [u8; 16],
            >::Finish(Ok(t)),
            _ => r.0.phase is Ended && failed_with(reply, r.1),
        },
        r.1 matches Next::Ask(Request::OpenSession { .. }) ==> flow.phase is Clearing,
        r.0.phase is Clearing ==> flow.phase is Spending && (reply matches Reply::Code(Some(c))
            && c@ == trimmed(flow.submitted@)),
{
    let SessionFlow { phase, email, submitted } = flow;
    match (phase, reply) {
        (SessionPhase::Spending, Reply::Code(stored)) => {
            let verdict = match &stored {
                Some(c) => code_accepted(Some(c.as_str()), submitted.as_str()),
                None => code_accepted(None, submitted.as_str()),
            };
            match verdict {
                Err(e) => (SessionFlow { phase: SessionPhase::Ended, email, submitted }, Next::Finish(Err(e))),
                Ok(()) => {
                    let req = Request::DeleteCodes { email: email.clone() };
                    (SessionFlow { phase: SessionPhase::Clearing, email, submitted }, Next::Ask(req))
                },
            }
        },
        (SessionPhase::Clearing, Reply::Done) => {
            let req = Request::OpenSession {
                email: email.clone(),
                via: crate::registrar::session_provenance(None),
                ttl_min: SESSION_TTL_MIN,
            };
            (SessionFlow { phase: SessionPhase::Opening, email, submitted }, Next::Ask(req))
        },
        (SessionPhase::Opening, Reply::Token(t)) => (
            SessionFlow { phase: SessionPhase::Ended, email, submitted },
            Next::Finish(Ok(t)),
        ),
        (_, other) => (SessionFlow { phase: SessionPhase::Ended, email, submitted }, fail(other)),
    }
}

/// The request that opens a session for an email a partner has already
/// verified: the email is normalized, and the session records the partner
/// as its witness (`delegated:<partner>`).
pub fn delegated_session(email: &str, partner: &str) -> (r: Result<Request, RegistrarError>)
    ensures
        if crate::registrar::email_shape_ok(crate::registrar::normalized_email(email@)) {
            &&& r matches Ok(Request::OpenSession { email: e, via, ttl_min })
            &&& e@ == crate::registrar::normalized_email(email@)
            &&& via@ == crate::registrar::provenance_text(Some(partner@))
            &&& ttl_min == SESSION_TTL_MIN
        } else {
            &&& r matches Err(e)
            &&& invalid_with(e, crate::registrar::bad_email_message())
        },
{
    let e = normalize_email(email)?;
    let via = crate::registrar::session_provenance(Some(partner));
    Ok(Request::OpenSession { email: e, via, ttl_min: SESSION_TTL_MIN })
}

// ---------------------------------------------------------------------------
// Pairing

/// Where starting a pairing stands.
pub enum PairStartPhase {
    Finding,
    Storing,
    Ended,
}

/// Starting a pairing for the caller's handle at instant `now`.
pub struct PairStartFlow {
    pub phase: PairStartPhase,
    pub email: String,
    pub now: i64,
    pub code: String,
}

/// Starts a pairing: the caller must own the active handle.
pub fn pair_start_begin(email: &str, handle: &str, now: i64) -> (r: (PairStartFlow, Next<(String, i64)>))
    ensures
        r.0.phase is Finding,
        r.0.email@ == email@,
        r.0.now == now,
        r.1 matches Next::Ask(Request::FindOwnedHandle { handle: h, email: e }) && h@ == handle@
            && e@ == email@,
{
    let e = owned(email);
    let req = Request::FindOwnedHandle { handle: owned(handle), email: e.clone() };
    (PairStartFlow { phase: PairStartPhase::Finding, email: e, now, code: String::new() }, Next::Ask(req))
}

/// Advances starting a pairing: a fresh `XXX-XXX` code is stored for the
/// handle's stored form with a ten-minute expiry, then returned with it.
pub fn pair_start_step(flow: PairStartFlow, reply: Reply) -> (r: (PairStartFlow, Next<(String, i64)>))
    requires
        flow.now <= i64::MAX - PAIRING_TTL_MICROS,
    ensures
        r.0.email == flow.email,
        r.0.now == flow.now,
        match (flow.phase, reply) {
            (PairStartPhase::Finding, Reply::OwnedHandle(found)) => match found {
                None => r.0.phase is Ended && r.1 matches Next::Finish(
                    Err(RegistrarError::Unauthorized),
                ),
                Some(h) => {
                    &&& r.0.phase is Storing
                    &&& exists|b: Seq<u8>| b.len() == 16 && r.0.code@ == crate::registrar::pairing_code_text(b)
                    &&& r.1 matches Next::Ask(Request::StorePairingCode { code, handle, email, expires_at })
                    &&& code@ == r.0.code@
                    &&& handle@ == h@
                    &&& email@ == flow.email@
                    &&& expires_at == flow.now + PAIRING_TTL_MICROS
                },
            },
            (PairStartPhase::Storing, Reply::Done) => {
                &&& r.0.phase is Ended
                &&& r.1 matches Next::Finish(Ok((c, exp)))
                &&& c@ == flow.code@
                &&& exp == flow.now + PAIRING_TTL_MICROS
            },
            _ => r.0.phase is Ended && failed_with(reply, r.1),
        },
{
    let PairStartFlow { phase, email, now, code } = flow;
    match (phase, reply) {
        (PairStartPhase::Finding, Reply::OwnedHandle(found)) => {
            match pairing_owner(found) {
                Err(e) => (PairStartFlow { phase: PairStartPhase::Ended, email, now, code }, Next::Finish(Err(e))),
                Ok(h) => {
                    let (fresh, expires_at) = pairing_code(now);
                    let req = Request::StorePairingCode {
                        code: fresh.clone(),
                        handle: h,
                        email: email.clone(),
                        expires_at,
                    };
                    (PairStartFlow { phase: PairStartPhase::Storing, email, now, code: fresh }, Next::Ask(req))
                },
            }
        },
        (PairStartPhase::Storing, Reply::Done) => {
            let c = code.clone();
            (
                PairStartFlow { phase: PairStartPhase::Ended, email, now, code },
                Next::Finish(Ok((c, now + PAIRING_TTL_MICROS))),
            )
        },
        (_, other) => (PairStartFlow { phase: PairStartPhase::Ended, email, now, code }, fail(other)),
    }
}

/// Where completing a pairing stands.
pub enum PairPhase {
    UsingCode,
    CheckingSignature,
    Upserting,
    Binding,
    Logging,
    Ended,
}

/// Completing a pairing: a code and a signature by the agent key.
pub struct PairFlow {
    pub phase: PairPhase,
    /// The code as compared: trimmed and upper-cased.
    pub code: String,
    /// The agent id, trimmed.
    pub agent_id: String,
    pub signature_b64: String,
    pub handle: String,
    pub email: String,
    pub listing_id: [u8; 16],
}

/// Starts completing a pairing: the code (trimmed and upper-cased) is used
/// up, whatever follows.
pub fn pair_begin(code: &str, agent_id: &str, signature_b64: &str) -> (r: (PairFlow, Next<String>))
    ensures
        r.0.phase is UsingCode,
        r.0.code@ == crate::text::uppercased(trimmed(code@)),
        r.0.agent_id@ == trimmed(agent_id@),
        r.0.signature_b64@ == signature_b64@,
        r.1 matches Next::Ask(Request::UsePairingCode { code: c }) && c@ == r.0.code@,
{
    let c = crate::registrar::normalize_pairing_code(code);
    let a = crate::text::string_of(&crate::text::trim_str(agent_id));
    let req = Request::UsePairingCode { code: c.clone() };
    (
        PairFlow {
            phase: PairPhase::UsingCode,
            code: c,
            agent_id: a,
            signature_b64: owned(signature_b64),
            handle: String::new(),
            email: String::new(),
            listing_id: [0u8; 16],
        },
        Next::Ask(req),
    )
}

/// Advances completing a pairing. The used code yields the handle and its
/// owner's email; the signature (base64) must verify under the agent key
/// over `pan-pair-v1:<code>:<agent-id>`; only then is the agent's minimal
/// record (`{"id": <agent-id>}`, named with the name the handle was claimed
/// with)
/// created or refreshed, the handle bound to it by "agent-key", the binding
/// logged as "bound", and the handle returned.
pub fn pair_step(flow: PairFlow, reply: Reply) -> (r: (PairFlow, Next<String>))
    ensures
        r.0.code == flow.code,
        r.0.agent_id == flow.agent_id,
        match (flow.phase, reply) {
            (PairPhase::UsingCode, Reply::Pairing(row)) => match row {
                None => {
                    &&& r.0.phase is Ended
                    &&& r.1 matches Next::Finish(Err(e))
                    &&& invalid_with(e, crate::registrar::unknown_code_message())
                },
                Some((h, e)) => match crate::codec::base64_decoded(trimmed(flow.signature_b64@)) {
                    None => {
                        &&& r.0.phase is Ended
                        &&& r.1 matches Next::Finish(Err(x))
                        &&& invalid_with(x, crate::registrar::bad_signature_encoding_message())
                    },
                    Some(bytes) => {
                        &&& r.0.phase is CheckingSignature
                        &&& r.0.handle@ == h@
                        &&& r.0.email@ == e@
                        &&& r.1 matches Next::Ask(Request::CheckSignature { agent_id, message, signature })
                        &&& agent_id@ == flow.agent_id@
                        &&& message@ == crate::registrar::pairing_message_text(flow.code@, flow.agent_id@)
                        &&& signature@ == bytes
                    },
                },
            },
            (PairPhase::CheckingSignature, Reply::Signature { key_ok, verified }) => if key_ok
                && verified {
                &&& r.0.phase is Upserting
                &&& r.0.handle == flow.handle
                &&& r.0.email == flow.email
                &&& r.1 matches Next::Ask(Request::UpsertAgent { agent_id, name, manifest })
                &&& agent_id@ == flow.agent_id@
                &&& name@ == crate::registrar::claimed_name_of(flow.handle@, flow.email@)
                &&& manifest.wf()
                &&& json_text(manifest) == crate::json::object_text(
                    seq![("id"@, crate::json::json_string(flow.agent_id@))],
                )
            } else {
                &&& r.0.phase is Ended
                &&& r.1 matches Next::Finish(Err(x))
                &&& invalid_with(
                    x,
                    if !key_ok {
                        crate::registrar::bad_agent_key_message()
                    } else {
                        crate::registrar::signature_mismatch_message()
                    },
                )
            },
            (PairPhase::Upserting, Reply::ListingId(id)) => {
                &&& r.0.phase is Binding
                &&& r.0.handle == flow.handle
                &&& r.0.email == flow.email
                &&& r.0.listing_id == id
                &&& r.1 matches Next::Ask(Request::BindToAgent { handle, listing_id })
                &&& handle@ == flow.handle@
                &&& listing_id == id
            },
            (PairPhase::Binding, Reply::Done) => {
                &&& r.0.phase is Logging
                &&& r.0.handle == flow.handle
                &&& r.1 matches Next::Ask(Request::AppendLog { action, handle, email, detail })
                &&& action@ == "bound"@
                &&& handle@ == flow.handle@
                &&& email@ == flow.email@
                &&& detail.wf()
                &&& json_text(detail) == crate::views::pair_detail_text(flow.agent_id@, flow.listing_id)
            },
            (PairPhase::Logging, Reply::Done) => {
                &&& r.0.phase is Ended
                &&& r.1 matches Next::Finish(Ok(h))
                &&& h@ == flow.handle@
            },
            _ => r.0.phase is Ended && failed_with(reply, r.1),
        },
        r.1 matches Next::Ask(Request::UpsertAgent { .. }) ==> flow.phase is CheckingSignature
            && reply matches Reply::Signature { key_ok: true, verified: true },
        r.1 matches Next::Finish(Ok(_)) ==> flow.phase is Logging && reply is Done,
{
    let PairFlow { phase, code, agent_id, signature_b64, handle, email, listing_id } = flow;
    match (phase, reply) {
        (PairPhase::UsingCode, Reply::Pairing(row)) => {
            match pairing_claimed(row) {
                Err(e) => (
                    PairFlow { phase: PairPhase::Ended, code, agent_id, signature_b64, handle, email, listing_id },
                    Next::Finish(Err(e)),
                ),
                Ok((h, e)) => {
                    match signature_bytes(signature_b64.as_str()) {
                        Err(x) => (
                            PairFlow { phase: PairPhase::Ended, code, agent_id, signature_b64, handle: h, email: e, listing_id },
                            Next::Finish(Err(x)),
                        ),
                        Ok(bytes) => {
                            let message = crate::registrar::pairing_message(code.as_str(), agent_id.as_str());
                            let req = Request::CheckSignature {
                                agent_id: agent_id.clone(),
                                message,
                                signature: bytes,
                            };
                            (
                                PairFlow { phase: PairPhase::CheckingSignature, code, agent_id, signature_b64, handle: h, email: e, listing_id },
                                Next::Ask(req),
                            )
                        },
                    }
                },
            }
        },
        (PairPhase::CheckingSignature, Reply::Signature { key_ok, verified }) => {
            match signature_outcome(key_ok, verified) {
                Err(x) => (
                    PairFlow { phase: PairPhase::Ended, code, agent_id, signature_b64, handle, email, listing_id },
                    Next::Finish(Err(x)),
                ),
                Ok(()) => {
                    let req = Request::UpsertAgent {
                        agent_id: agent_id.clone(),
                        name: crate::registrar::claimed_name(handle.as_str(), email.as_str()),
                        manifest: crate::views::agent_record_manifest(agent_id.as_str()),
                    };
                    (
                        PairFlow { phase: PairPhase::Upserting, code, agent_id, signature_b64, handle, email, listing_id },
                        Next::Ask(req),
                    )
                },
            }
        },
        (PairPhase::Upserting, Reply::ListingId(id)) => {
            let req = Request::BindToAgent { handle: handle.clone(), listing_id: id };
            (
                PairFlow { phase: PairPhase::Binding, code, agent_id, signature_b64, handle, email, listing_id: id },
                Next::Ask(req),
            )
        },
        (PairPhase::Binding, Reply::Done) => {
            let req = Request::AppendLog {
                action: owned("bound"),
                handle: handle.clone(),
                email: email.clone(),
                detail: crate::views::pair_detail(agent_id.as_str(), listing_id),
            };
            (
                PairFlow { phase: PairPhase::Logging, code, agent_id, signature_b64, handle, email, listing_id },
                Next::Ask(req),
            )
        },
        (PairPhase::Logging, Reply::Done) => {
            let h = handle.clone();
            (
                PairFlow { phase: PairPhase::Ended, code, agent_id, signature_b64, handle, email, listing_id },
                Next::Finish(Ok(h)),
            )
        },
        (_, other) => (
            PairFlow { phase: PairPhase::Ended, code, agent_id, signature_b64, handle, email, listing_id },
            fail(other),
        ),
    }
}

// ---------------------------------------------------------------------------
// Check-in

/// Where a signed check-in stands.
pub enum CheckinPhase {
    CheckingSignature,
    Recording,
    Ended,
}

/// A signed check-in of an agent from an address, with its declared
/// profile.
pub struct CheckinFlow {
    pub phase: CheckinPhase,
    /// The agent id, trimmed.
    pub agent_id: String,
    pub ip: String,
    pub profile: AgentProfile,
}

/// Starts a check-in at instant `now` (seconds): the timestamp must be
/// within five minutes of it and the signature valid base64; the signature
/// is then checked over the check-in canonical string.
pub fn checkin_begin(
    agent_id: &str,
    ts: i64,
    signature_b64: &str,
    ip: &str,
    profile: AgentProfile,
    now: i64,
) -> (r: (CheckinFlow, Next<()>))
    ensures
        r.0.agent_id@ == trimmed(agent_id@),
        r.0.ip@ == ip@,
        r.0.profile == profile,
        if !(now - ts <= crate::registrar::CHECKIN_WINDOW_SECS && ts - now
            <= crate::registrar::CHECKIN_WINDOW_SECS) {
            &&& r.0.phase is Ended
            &&& r.1 matches Next::Finish(Err(e))
            &&& invalid_with(e, crate::registrar::checkin_window_message())
        } else {
            match crate::codec::base64_decoded(trimmed(signature_b64@)) {
                None => {
                    &&& r.0.phase is Ended
                    &&& r.1 matches Next::Finish(Err(e))
                    &&& invalid_with(e, crate::registrar::bad_signature_encoding_message())
                },
                Some(bytes) => {
                    &&& r.0.phase is CheckingSignature
                    &&& r.1 matches Next::Ask(Request::CheckSignature { agent_id: a, message, signature })
                    &&& a@ == trimmed(agent_id@)
                    &&& message@ == crate::registrar::checkin_message_text(trimmed(agent_id@), ts, profile)
                    &&& signature@ == bytes
                },
            }
        },
{
    let a = crate::text::string_of(&crate::text::trim_str(agent_id));
    let ip_owned = owned(ip);
    if let Err(e) = crate::registrar::checkin_window(now, ts) {
        return (
            CheckinFlow { phase: CheckinPhase::Ended, agent_id: a, ip: ip_owned, profile },
            Next::Finish(Err(e)),
        );
    }
    match signature_bytes(signature_b64) {
        Err(e) => (
            CheckinFlow { phase: CheckinPhase::Ended, agent_id: a, ip: ip_owned, profile },
            Next::Finish(Err(e)),
        ),
        Ok(bytes) => {
            let message = crate::registrar::checkin_message(agent_id, ts, &profile);
            let req = Request::CheckSignature { agent_id: a.clone(), message, signature: bytes };
            (
                CheckinFlow { phase: CheckinPhase::CheckingSignature, agent_id: a, ip: ip_owned, profile },
                Next::Ask(req),
            )
        },
    }
}

/// Advances a check-in: only a signature that verifies under the agent key
/// records where the agent connected from, with its declared profile as
/// recorded (fields trimmed, kept when 1 to 80 characters).
pub fn checkin_step(flow: CheckinFlow, reply: Reply) -> (r: (CheckinFlow, Next<()>))
    ensures
        r.0.agent_id == flow.agent_id,
        r.0.ip == flow.ip,
        match (flow.phase, reply) {
            (CheckinPhase::CheckingSignature, Reply::Signature { key_ok, verified }) => if key_ok
                && verified {
                &&& r.0.phase is Recording
                &&& r.1 matches Next::Ask(Request::RecordSeen { agent_id, ip, profile })
                &&& agent_id@ == flow.agent_id@
                &&& ip@ == flow.ip@
                &&& match crate::registrar::recorded_field(flow.profile.kind) {
                    Some(t) => profile.kind matches Some(x) && x@ == t,
                    None => profile.kind is None,
                }
                &&& match crate::registrar::recorded_field(flow.profile.host) {
                    Some(t) => profile.host matches Some(x) && x@ == t,
                    None => profile.host is None,
                }
                &&& match crate::registrar::recorded_field(flow.profile.platform) {
                    Some(t) => profile.platform matches Some(x) && x@ == t,
                    None => profile.platform is None,
                }
            } else {
                &&& r.0.phase is Ended
                &&& r.1 matches Next::Finish(Err(x))
                &&& invalid_with(
                    x,
                    if !key_ok {
                        crate::registrar::bad_agent_key_message()
                    } else {
                        crate::registrar::signature_mismatch_message()
                    },
                )
            },
            (CheckinPhase::Recording, Reply::Done) => r.0.phase is Ended && r.1 matches Next::Finish(
                Ok(()),
            ),
            _ => r.0.phase is Ended && failed_with(reply, r.1),
        },
        r.1 matches Next::Ask(Request::RecordSeen { .. }) ==> flow.phase is CheckingSignature
            && reply matches Reply::Signature { key_ok: true, verified: true },
{
    let CheckinFlow { phase, agent_id, ip, profile } = flow;
    match (phase, reply) {
        (CheckinPhase::CheckingSignature, Reply::Signature { key_ok, verified }) => {
            match signature_outcome(key_ok, verified) {
                Err(x) => (CheckinFlow { phase: CheckinPhase::Ended, agent_id, ip, profile }, Next::Finish(Err(x))),
                Ok(()) => {
                    let req = Request::RecordSeen {
                        agent_id: agent_id.clone(),
                        ip: ip.clone(),
                        profile: crate::registrar::recorded_profile(&profile),
                    };
                    (CheckinFlow { phase: CheckinPhase::Recording, agent_id, ip, profile }, Next::Ask(req))
                },
            }
        },
        (CheckinPhase::Recording, Reply::Done) => (
            CheckinFlow { phase: CheckinPhase::Ended, agent_id, ip, profile },
            Next::Finish(Ok(())),
        ),
        (_, other) => (CheckinFlow { phase: CheckinPhase::Ended, agent_id, ip, profile }, fail(other)),
    }
}

} // verus!
